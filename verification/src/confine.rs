//! Confinement of paths to a project: relative paths given by the user are
//! accepted only when every component is a plain name, and compiler paths
//! are read relative to the project folder.
use vstd::prelude::*;
use vstd::string::StringExecFns;
use crate::path::{
    all_normal, chars_lit_eq, comp_name, comp_names, components, is_inside, join, join_path,
    lemma_join_plain, lemma_split_len, lemma_split_no_sep, lone_comps, piece_comps, pieces_comps,
    parts_view, path_components, plain_name, split, split_chars, views, Comp,
    PathPart,
};
use crate::text::{byte_len, byte_len_at_most, chars_eq, chars_of, text_result_view};

verus! {

pub const INVALID_PATH: &'static str = "Chemin de projet invalide";

pub const ABSOLUTE_PATH: &'static str = "Les chemins absolus sont interdits";

pub const ESCAPING_PATH: &'static str = "Le chemin ne peut pas sortir du projet";

/// The path inside a project that `v` designates: at most 240 bytes,
/// relative, and made only of plain names, which are joined with `/`. An
/// empty `v` designates the project itself where `allow_empty` holds.
pub open spec fn safe_relative(v: Seq<char>, allow_empty: bool) -> Result<Seq<char>, Seq<char>> {
    if v.len() == 0 && allow_empty {
        Ok(Seq::empty())
    } else if v.len() == 0 || byte_len(v) > 240 {
        Err(INVALID_PATH@)
    } else if v[0] == '/' {
        Err(ABSOLUTE_PATH@)
    } else if !all_normal(components(v)) {
        Err(ESCAPING_PATH@)
    } else if join(comp_names(components(v)), '/').len() == 0 && !allow_empty {
        Err(INVALID_PATH@)
    } else {
        Ok(join(comp_names(components(v)), '/'))
    }
}

/// Checks a path given relative to a project and returns it normalized.
pub fn safe_relative_path(value: &str, allow_empty: bool) -> (r: Result<String, String>)
    ensures
        text_result_view(r) == safe_relative(value@, allow_empty),
{
    if value.is_empty() && allow_empty {
        return Ok(String::new());
    }
    if value.is_empty() || !byte_len_at_most(value, 240) {
        return Err(<String as StringExecFns>::from_str(INVALID_PATH));
    }
    let v = chars_of(value);
    if v[0] == '/' {
        return Err(<String as StringExecFns>::from_str(ABSOLUTE_PATH));
    }
    let parts = path_components(&v);
    let mut names: Vec<Vec<char>> = Vec::new();
    let mut i: usize = 0;
    while i < parts.len()
        invariant
            i <= parts.len(),
            value@.len() > 0,
            byte_len(value@) <= 240,
            value@[0] != '/',
            parts_view(parts@) == components(value@),
            all_normal(parts_view(parts@).take(i as int)),
            views(names@) == comp_names(parts_view(parts@).take(i as int)),
        decreases parts.len() - i,
    {
        let ghost old_names = names@;
        match &parts[i] {
            PathPart::Normal(n) => {
                names.push(crate::text::copy_chars(n));
                proof {
                    let t = parts_view(parts@).take(i + 1);
                    assert(t.drop_last() =~= parts_view(parts@).take(i as int));
                    assert(views(names@) =~= views(old_names).push(n@));
                    assert(views(names@) =~= comp_names(t));
                    assert(all_normal(t));
                }
            },
            _ => {
                proof {
                    assert(parts_view(parts@)[i as int] == parts@[i as int]@);
                    assert(!(components(value@)[i as int] is Normal));
                    assert(!all_normal(components(value@)));
                }
                return Err(<String as StringExecFns>::from_str(ESCAPING_PATH));
            },
        }
        i = i + 1;
    }
    proof {
        assert(parts_view(parts@).take(parts.len() as int) =~= parts_view(parts@));
    }
    let safe = crate::path::join_chars(&names, 0, names.len(), '/');
    proof {
        assert(views(names@).subrange(0, names.len() as int) =~= views(names@));
    }
    if safe.as_str().is_empty() && !allow_empty {
        return Err(<String as StringExecFns>::from_str(INVALID_PATH));
    }
    Ok(safe)
}

/// The characters allowed in the name of a compiled source.
pub open spec fn is_build_char(c: char) -> bool {
    crate::text::is_ascii_alnum(c) || c == '_' || c == '-' || c == '.'
}

/// A path make can compile: only plain names, none empty or hidden, made
/// of ASCII letters, digits, `_`, `-` and `.`.
pub open spec fn is_valid_build_path(p: Seq<char>) -> bool {
    forall|i: int|
        0 <= i < components(p).len() ==> match #[trigger] components(p)[i] {
            Comp::Normal(t) => t.len() > 0 && t[0] != '.' && forall|k: int|
                0 <= k < t.len() ==> is_build_char(#[trigger] t[k]),
            _ => false,
        }
}

pub open spec fn is_valid_build_part(c: Comp) -> bool {
    match c {
        Comp::Normal(t) => t.len() > 0 && t[0] != '.' && forall|k: int|
            0 <= k < t.len() ==> is_build_char(#[trigger] t[k]),
        _ => false,
    }
}

fn build_part(p: &PathPart) -> (r: bool)
    ensures
        r == is_valid_build_part(p@),
{
    match p {
        PathPart::Normal(t) => {
            if t.len() == 0 || t[0] == '.' {
                return false;
            }
            let mut k: usize = 0;
            while k < t.len()
                invariant
                    k <= t.len(),
                    p@ == Comp::Normal(t@),
                    t@.len() > 0,
                    t@[0] != '.',
                    forall|j: int| 0 <= j < k ==> is_build_char(#[trigger] t@[j]),
                decreases t.len() - k,
            {
                let c = t[k];
                if !(crate::text::ascii_alnum(c) || c == '_' || c == '-' || c == '.') {
                    assert(!is_build_char(t@[k as int]));
                    return false;
                }
                k = k + 1;
            }
            true
        },
        _ => false,
    }
}

/// Whether the source at `path` (relative to the project) can be compiled.
pub fn valid_build_path(path: &str) -> (r: bool)
    ensures
        r == is_valid_build_path(path@),
{
    let parts = path_components(&chars_of(path));
    let mut i: usize = 0;
    while i < parts.len()
        invariant
            i <= parts.len(),
            parts_view(parts@) == components(path@),
            forall|j: int| 0 <= j < i ==> is_valid_build_part(#[trigger] components(path@)[j]),
        decreases parts.len() - i,
    {
        if !build_part(&parts[i]) {
            proof {
                assert(!is_valid_build_part(components(path@)[i as int]));
            }
            return false;
        }
        i = i + 1;
    }
    proof {
        assert forall|j: int| 0 <= j < components(path@).len() implies match #[trigger] components(
            path@,
        )[j] {
            Comp::Normal(t) => t.len() > 0 && t[0] != '.' && forall|k: int|
                0 <= k < t.len() ==> is_build_char(#[trigger] t[k]),
            _ => false,
        } by {
            assert(is_valid_build_part(components(path@)[j]));
        }
    }
    true
}

// ---------------------------------------------------------------------------
// Paths relative to a base folder
// ---------------------------------------------------------------------------
/// Whether `s` is a piece that names nothing (empty, or `.`).
pub open spec fn is_blank_piece(s: Seq<char>) -> bool {
    s.len() == 0 || s == seq!['.']
}

/// The pieces of `segs` left after `n` named pieces have been read, with
/// the blank pieces before each of them skipped.
pub open spec fn after_named(segs: Seq<Seq<char>>, n: nat) -> Seq<Seq<char>>
    decreases segs.len(),
{
    if n == 0 || segs.len() == 0 {
        segs
    } else if is_blank_piece(segs[0]) {
        after_named(segs.drop_first(), n)
    } else {
        after_named(segs.drop_first(), (n - 1) as nat)
    }
}

/// `segs` without its leading blank pieces.
pub open spec fn trim_front(segs: Seq<Seq<char>>) -> Seq<Seq<char>>
    decreases segs.len(),
{
    if segs.len() > 0 && is_blank_piece(segs[0]) {
        trim_front(segs.drop_first())
    } else {
        segs
    }
}

/// `segs` without its trailing blank pieces.
pub open spec fn trim_back(segs: Seq<Seq<char>>) -> Seq<Seq<char>>
    decreases segs.len(),
{
    if segs.len() > 0 && is_blank_piece(segs.last()) {
        trim_back(segs.drop_last())
    } else {
        segs
    }
}

/// `Path::strip_prefix` for an absolute `p`: when the components of `base`
/// begin those of `p`, the rest of `p` as written, without the blank
/// pieces at either end.
pub open spec fn strip_prefix(p: Seq<char>, base: Seq<char>) -> Option<Seq<char>> {
    let pc = components(p);
    let bc = components(base);
    let segs = split(p, '/');
    if bc.len() <= pc.len() && pc.take(bc.len() as int) == bc {
        if bc.len() == 0 {
            Some(join(trim_back(segs), '/'))
        } else {
            Some(join(trim_back(trim_front(after_named(segs.drop_first(), (bc.len() - 1) as nat))), '/'))
        }
    } else {
        None
    }
}

/// Whether the first component of `p` is the name `n` (`Path::starts_with`
/// with a one-name base).
pub open spec fn starts_with_name(p: Seq<char>, n: Seq<char>) -> bool {
    components(p).len() > 0 && components(p)[0] == Comp::Normal(n)
}

pub fn path_starts_with_name(p: &Vec<char>, n: &str) -> (r: bool)
    ensures
        r == starts_with_name(p@, n@),
{
    let parts = path_components(p);
    if parts.len() == 0 {
        return false;
    }
    match &parts[0] {
        PathPart::Normal(x) => chars_lit_eq(x, n),
        _ => false,
    }
}

fn is_blank(s: &Vec<char>) -> (r: bool)
    ensures
        r == is_blank_piece(s@),
{
    if s.len() == 0 {
        true
    } else if s.len() == 1 && s[0] == '.' {
        assert(s@ =~= seq!['.']);
        true
    } else {
        false
    }
}

/// `p` relative to `base`, for an absolute `p`.
pub fn strip_prefix_of(p: &Vec<char>, base: &Vec<char>) -> (r: Option<String>)
    ensures
        match r {
            Some(s) => strip_prefix(p@, base@) == Some(s@),
            None => strip_prefix(p@, base@) is None,
        },
{
    let pc = path_components(p);
    let bc = path_components(base);
    if bc.len() > pc.len() {
        return None;
    }
    let mut i: usize = 0;
    while i < bc.len()
        invariant
            i <= bc.len() <= pc.len(),
            parts_view(pc@) == components(p@),
            parts_view(bc@) == components(base@),
            forall|j: int| 0 <= j < i ==> parts_view(pc@)[j] == parts_view(bc@)[j],
        decreases bc.len() - i,
    {
        let same = match (&pc[i], &bc[i]) {
            (PathPart::Root, PathPart::Root) => true,
            (PathPart::Cur, PathPart::Cur) => true,
            (PathPart::Parent, PathPart::Parent) => true,
            (PathPart::Normal(x), PathPart::Normal(y)) => chars_eq(x, y),
            _ => false,
        };
        if !same {
            proof {
                assert(parts_view(pc@).take(bc.len() as int)[i as int] != parts_view(bc@)[i as int]);
            }
            return None;
        }
        i = i + 1;
    }
    proof {
        assert(parts_view(pc@).take(bc.len() as int) =~= parts_view(bc@));
    }
    let segs = split_chars(p, '/');
    let ghost d = views(segs@);
    // where the remaining pieces start
    let mut start: usize = if bc.len() == 0 { 0 } else { 1 };
    proof {
        crate::path::lemma_split_len(p@, '/');
        if bc.len() > 0 {
            assert(d.subrange(1, d.len() as int) =~= d.drop_first());
        } else {
            assert(d.subrange(0, d.len() as int) =~= d);
        }
    }
    if bc.len() > 0 {
        let mut need: usize = bc.len() - 1;
        while need > 0 && start < segs.len()
            invariant
                1 <= start <= segs.len(),
                d == views(segs@),
                after_named(d.subrange(start as int, d.len() as int), need as nat) == after_named(
                    d.drop_first(),
                    (bc.len() - 1) as nat,
                ),
            decreases segs.len() - start,
        {
            let ghost rest = d.subrange(start as int, d.len() as int);
            proof {
                assert(rest.drop_first() =~= d.subrange(start + 1, d.len() as int));
                assert(rest[0] == segs@[start as int]@);
            }
            if !is_blank(&segs[start]) {
                need = need - 1;
            }
            start = start + 1;
        }
        proof {
            let rest = d.subrange(start as int, d.len() as int);
            assert(after_named(rest, need as nat) == rest);
        }
    }
    // skip blank pieces at the front, once something has been consumed
    let ghost rem = d.subrange(start as int, d.len() as int);
    let mut a = start;
    while bc.len() > 0 && a < segs.len() && is_blank(&segs[a])
        invariant
            start <= a <= segs.len(),
            d == views(segs@),
            rem == d.subrange(start as int, d.len() as int),
            bc.len() > 0 ==> trim_front(rem) == trim_front(d.subrange(a as int, d.len() as int)),
            bc.len() == 0 ==> a == 0,
        decreases segs.len() - a,
    {
        proof {
            let u = d.subrange(a as int, d.len() as int);
            assert(u.drop_first() =~= d.subrange(a + 1, d.len() as int));
            assert(u[0] == segs@[a as int]@);
        }
        a = a + 1;
    }
    proof {
        let u = d.subrange(a as int, d.len() as int);
        if a < segs.len() {
            assert(u[0] == segs@[a as int]@);
        }
        if bc.len() > 0 {
            assert(trim_front(u) == u);
        }
    }
    let ghost front = d.subrange(a as int, d.len() as int);
    let mut b = segs.len();
    while b > a && is_blank(&segs[b - 1])
        invariant
            a <= b <= segs.len(),
            d == views(segs@),
            front == d.subrange(a as int, d.len() as int),
            trim_back(front) == trim_back(d.subrange(a as int, b as int)),
        decreases b - a,
    {
        proof {
            let u = d.subrange(a as int, b as int);
            assert(u.drop_last() =~= d.subrange(a as int, b - 1));
            assert(u.last() == segs@[b - 1]@);
        }
        b = b - 1;
    }
    proof {
        let u = d.subrange(a as int, b as int);
        if b > a {
            assert(u.last() == segs@[b - 1]@);
        }
        assert(trim_back(u) == u);
    }
    let s = crate::path::join_chars(&segs, a, b, '/');
    Some(s)
}

/// `Path::parent` of an absolute path that has a file name: the text
/// before its last name, without trailing separators or `.` pieces, or `/`
/// when nothing else is left.
pub open spec fn parent_of(p: Seq<char>) -> Seq<char> {
    let segs = split(p, '/');
    let t = trim_back(segs.take(crate::path::last_named(segs)));
    if t.len() == 0 {
        "/"@
    } else {
        join(t, '/')
    }
}

/// `Path::with_file_name` of an absolute path that has a file name: its
/// parent joined with `name`.
pub open spec fn with_file_name(p: Seq<char>, name: Seq<char>) -> Seq<char> {
    crate::path::join_path(parent_of(p), name)
}

/// The parent of the absolute path `p`, which has a file name.
pub fn path_parent(p: &Vec<char>) -> (r: String)
    requires
        crate::path::file_name(p@) is Some,
    ensures
        r@ == parent_of(p@),
{
    let (segs, j) = match crate::path::file_name_of(p) {
        Some(found) => found,
        None => {
            return String::new();
        },
    };
    let ghost d = views(segs@);
    let mut b = j;
    proof {
        assert(d.take(j as int) =~= d.subrange(0, j as int));
    }
    while b > 0 && is_blank(&segs[b - 1])
        invariant
            b <= j < segs.len(),
            d == views(segs@),
            trim_back(d.take(j as int)) == trim_back(d.subrange(0, b as int)),
        decreases b,
    {
        proof {
            let u = d.subrange(0, b as int);
            assert(u.drop_last() =~= d.subrange(0, b - 1));
            assert(u.last() == segs@[b - 1]@);
        }
        b = b - 1;
    }
    proof {
        let u = d.subrange(0, b as int);
        if b > 0 {
            assert(u.last() == segs@[b - 1]@);
        }
        assert(trim_back(u) == u);
    }
    if b == 0 {
        proof {
            reveal_strlit("/");
        }
        return <String as StringExecFns>::from_str("/");
    }
    crate::path::join_chars(&segs, 0, b, '/')
}

// ---------------------------------------------------------------------------
// Confinement
// ---------------------------------------------------------------------------
proof fn lemma_pieces_normal_plain(segs: Seq<Seq<char>>)
    requires
        forall|i: int, k: int|
            0 <= i < segs.len() && 0 <= k < segs[i].len() ==> #[trigger] segs[i][k] != '/',
    ensures
        forall|i: int|
            0 <= i < pieces_comps(segs).len() && #[trigger] pieces_comps(segs)[i] is Normal
                ==> plain_name(comp_name(pieces_comps(segs)[i])),
    decreases segs.len(),
{
    if segs.len() > 0 {
        let d = segs.drop_last();
        assert forall|i: int, k: int| 0 <= i < d.len() && 0 <= k < d[i].len() implies #[trigger] d[i][k]
            != '/' by {
            assert(d[i] == segs[i]);
        }
        lemma_pieces_normal_plain(d);
        let g = segs.last();
        assert forall|k: int| 0 <= k < g.len() implies g[k] != '/' by {
            assert(segs[segs.len() - 1][k] != '/');
        }
        let c = pieces_comps(segs);
        assert forall|i: int| 0 <= i < c.len() && #[trigger] c[i] is Normal implies plain_name(
            comp_name(c[i]),
        ) by {
            if i >= pieces_comps(d).len() {
                assert(c[i] == piece_comps(g)[i - pieces_comps(d).len()]);
            } else {
                assert(c[i] == pieces_comps(d)[i]);
            }
        }
    }
}

/// Every normal component of a path is a plain name: not empty, neither
/// `.` nor `..`, and without `/`.
pub proof fn lemma_normal_names(s: Seq<char>)
    ensures
        forall|i: int|
            0 <= i < components(s).len() && #[trigger] components(s)[i] is Normal ==> plain_name(
                comp_name(components(s)[i]),
            ),
{
    let segs = split(s, '/');
    lemma_split_len(s, '/');
    lemma_split_no_sep(s, '/');
    let g = segs[0];
    assert forall|k: int| 0 <= k < g.len() implies g[k] != '/' by {
        assert(segs[0][k] != '/');
    }
    let rest = segs.drop_first();
    assert forall|i: int, k: int| 0 <= i < rest.len() && 0 <= k < rest[i].len() implies #[trigger] rest[i][k]
        != '/' by {
        assert(rest[i] == segs[i + 1]);
    }
    lemma_pieces_normal_plain(rest);
    let c = components(s);
    assert forall|i: int| 0 <= i < c.len() && #[trigger] c[i] is Normal implies plain_name(
        comp_name(c[i]),
    ) by {
        if segs.len() <= 1 {
            assert(c == lone_comps(g));
        } else {
            let f = crate::path::first_comps(g);
            assert(c == f + pieces_comps(rest));
            if i >= f.len() {
                assert(c[i] == pieces_comps(rest)[i - f.len()]);
            } else {
                assert(c[i] == f[i]);
            }
        }
    }
}

/// A path accepted inside a project, joined to the project folder (to any
/// folder, in fact), names something strictly inside that folder: its
/// components are those of the folder followed by one plain name or more,
/// so it can never climb out with `..` or jump to the root.
pub proof fn lemma_accepted_path_stays_inside(
    dir: Seq<char>,
    value: Seq<char>,
    allow_empty: bool,
    p: Seq<char>,
)
    requires
        safe_relative(value, allow_empty) == Ok::<Seq<char>, Seq<char>>(p),
        p.len() > 0,
    ensures
        is_inside(dir, join_path(dir, p)),
        components(join_path(dir, p)).len() > components(dir).len(),
        forall|i: int|
            components(dir).len() <= i < components(join_path(dir, p)).len() ==> #[trigger] components(
                join_path(dir, p),
            )[i] is Normal,
{
    let c = components(value);
    let ns = comp_names(c);
    assert(all_normal(c));
    assert(p == join(ns, '/'));
    if ns.len() == 0 {
        assert(join(ns, '/').len() == 0);
    }
    lemma_normal_names(value);
    assert forall|i: int| 0 <= i < ns.len() implies plain_name(#[trigger] ns[i]) by {
        assert(c[i] is Normal);
        assert(ns[i] == comp_name(c[i]));
    }
    lemma_join_plain(dir, ns);
    let whole = components(join_path(dir, p));
    let base = components(dir);
    assert(whole.take(base.len() as int) =~= base);
    assert(whole.len() > base.len());
    assert forall|i: int| base.len() <= i < whole.len() implies #[trigger] whole[i] is Normal by {
        assert(whole[i] == ns.map_values(|n: Seq<char>| Comp::Normal(n))[i - base.len()]);
    }
}

/// The characters of a path make can compile: those of the names, or `/`.
pub open spec fn is_path_char(c: char) -> bool {
    is_build_char(c) || c == '/'
}

/// Every piece of a path make can compile is made of name characters.
pub proof fn lemma_build_path_pieces(s: Seq<char>)
    requires
        is_valid_build_path(s),
    ensures
        crate::path::pieces_satisfy(split(s, '/'), |c: char| is_build_char(c)),
{
    let segs = split(s, '/');
    lemma_split_len(s, '/');
    let c = components(s);
    let rest = segs.drop_first();
    assert forall|i: int, k: int| 0 <= i < segs.len() && 0 <= k < segs[i].len() implies (|c: char|
        is_build_char(c))(#[trigger] segs[i][k]) by {
        let g = segs[i];
        if g == seq!['.'] {
            assert(g[k] == '.');
        } else {
            // the piece makes a component, which must be a name of build characters
            let made = if i == 0 {
                if segs.len() <= 1 {
                    lone_comps(g)
                } else {
                    crate::path::first_comps(g)
                }
            } else {
                piece_comps(g)
            };
            assert(g.len() > 0);
            if g == seq!['.', '.'] {
                assert(made == seq![Comp::Parent]);
            } else {
                assert(made == seq![Comp::Normal(g)]);
            }
            assert(made.contains(made[0]));
            let x = made[0];
            if i == 0 {
                if segs.len() <= 1 {
                    assert(c == made);
                } else {
                    assert(c == made + pieces_comps(rest));
                    assert(c[0] == x);
                }
                assert(c[0] == x);
                assert(c.len() > 0);
            } else {
                assert(rest[i - 1] == g);
                crate::path::lemma_piece_among(rest, i - 1);
                assert(pieces_comps(rest).contains(x));
                let m = choose|m: int| 0 <= m < pieces_comps(rest).len() && pieces_comps(rest)[m] == x;
                let f = crate::path::first_comps(segs[0]);
                assert(c == f + pieces_comps(rest));
                assert(c[f.len() + m] == x);
            }
            let idx = choose|idx: int| 0 <= idx < c.len() && c[idx] == x;
            match c[idx] {
                Comp::Normal(t) => {
                    assert(t == g);
                    assert(is_build_char(t[k]));
                },
                _ => {},
            }
        }
    }
}

/// Every character of a path make can compile is a name character or `/`.
pub proof fn lemma_build_path_chars(s: Seq<char>)
    requires
        is_valid_build_path(s),
    ensures
        forall|k: int| 0 <= k < s.len() ==> is_path_char(#[trigger] s[k]),
{
    lemma_build_path_pieces(s);
    crate::path::lemma_split_chars(s, '/', |c: char| is_build_char(c));
}

/// The pieces of `ps` that name something, in order.
pub open spec fn named_pieces(ps: Seq<Seq<char>>) -> Seq<Seq<char>>
    decreases ps.len(),
{
    if ps.len() == 0 {
        Seq::empty()
    } else if is_blank_piece(ps.last()) {
        named_pieces(ps.drop_last())
    } else {
        named_pieces(ps.drop_last()).push(ps.last())
    }
}

/// The bytes of the pieces of `ps`, each counted with one separator.
pub open spec fn spaced_bytes(ps: Seq<Seq<char>>) -> nat
    decreases ps.len(),
{
    if ps.len() == 0 {
        0
    } else {
        spaced_bytes(ps.drop_last()) + byte_len(ps.last()) + 1
    }
}

proof fn lemma_join_bytes(ps: Seq<Seq<char>>, sep: char)
    requires
        ps.len() > 0,
        sep == '/',
    ensures
        byte_len(join(ps, sep)) + 1 == spaced_bytes(ps),
    decreases ps.len(),
{
    if ps.len() == 1 {
        let e = ps.drop_last();
        assert(e =~= Seq::<Seq<char>>::empty());
        assert(spaced_bytes(e) == 0);
    } else {
        lemma_join_bytes(ps.drop_last(), sep);
        let front = join(ps.drop_last(), sep);
        crate::text::lemma_byte_len_concat(front, seq![sep]);
        assert(front.push(sep) =~= front + seq![sep]);
        assert(byte_len(seq![sep]) == 1) by {
            let e = seq![sep].drop_last();
            assert(e =~= Seq::<char>::empty());
            assert(byte_len(e) == 0);
            assert(seq![sep].last() == '/');
            assert(('/' as u32) < 0x80);
            assert(crate::text::char_width('/') == 1);
        }
        crate::text::lemma_byte_len_concat(front.push(sep), ps.last());
        assert(join(ps, sep) == front.push(sep) + ps.last());
        assert(byte_len(front.push(sep)) == byte_len(front) + 1);
    }
}

proof fn lemma_named_bytes(ps: Seq<Seq<char>>)
    ensures
        spaced_bytes(named_pieces(ps)) <= spaced_bytes(ps),
    decreases ps.len(),
{
    if ps.len() > 0 {
        lemma_named_bytes(ps.drop_last());
        let n = named_pieces(ps.drop_last());
        assert(n.push(ps.last()).drop_last() =~= n);
    }
}

/// Joining the pieces of a split gives the text back.
proof fn lemma_split_join(s: Seq<char>)
    ensures
        join(split(s, '/'), '/') == s,
    decreases s.len(),
{
    if s.len() == 0 {
        assert(split(s, '/') =~= seq![Seq::<char>::empty()]);
        assert(s =~= Seq::<char>::empty());
    } else {
        let t = s.drop_last();
        lemma_split_join(t);
        lemma_split_len(t, '/');
        let r = split(t, '/');
        if s.last() == '/' {
            let u = r.push(Seq::empty());
            assert(u.drop_last() =~= r);
            assert(join(u, '/') == join(r, '/').push('/') + Seq::<char>::empty());
            assert(t.push('/') + Seq::<char>::empty() =~= s);
        } else {
            let x = s.last();
            let u = r.update(r.len() - 1, r.last().push(x));
            if r.len() == 1 {
                assert(join(u, '/') == u[0]);
                assert(join(r, '/') == r[0]);
                assert(r[0].push(x) =~= s);
            } else {
                assert(u.drop_last() =~= r.drop_last());
                assert(join(u, '/') == join(r.drop_last(), '/').push('/') + r.last().push(x));
                assert(join(r.drop_last(), '/').push('/') + r.last().push(x) =~= (join(
                    r.drop_last(),
                    '/',
                ).push('/') + r.last()).push(x));
                assert(t.push(x) =~= s);
            }
        }
    }
}

/// Where every component is a name, the names are the pieces that name
/// something.
proof fn lemma_names_are_named_pieces(ps: Seq<Seq<char>>)
    requires
        all_normal(pieces_comps(ps)),
    ensures
        comp_names(pieces_comps(ps)) == named_pieces(ps),
    decreases ps.len(),
{
    if ps.len() > 0 {
        let d = ps.drop_last();
        let g = ps.last();
        let c = pieces_comps(ps);
        assert(c == pieces_comps(d) + piece_comps(g));
        assert forall|i: int| 0 <= i < pieces_comps(d).len() implies pieces_comps(d)[i] is Normal by {
            assert(c[i] == pieces_comps(d)[i]);
        }
        lemma_names_are_named_pieces(d);
        if !is_blank_piece(g) {
            if g == seq!['.', '.'] {
                assert(c[pieces_comps(d).len() as int] == Comp::Parent);
            }
            assert(piece_comps(g) == seq![Comp::Normal(g)]);
        } else {
            assert(piece_comps(g) =~= Seq::<Comp>::empty());
        }
        assert(comp_names(c) =~= comp_names(pieces_comps(d)) + comp_names(piece_comps(g)));
    } else {
        assert(comp_names(pieces_comps(ps)) =~= Seq::<Seq<char>>::empty());
    }
}

/// Accepting a path normalizes it, and a normalized path is accepted as it
/// is: the accepted path, given again, is accepted unchanged.
pub proof fn lemma_accepted_path_is_stable(value: Seq<char>, allow_empty: bool, p: Seq<char>)
    requires
        safe_relative(value, allow_empty) == Ok::<Seq<char>, Seq<char>>(p),
    ensures
        safe_relative(p, allow_empty) == Ok::<Seq<char>, Seq<char>>(p),
{
    if p.len() == 0 {
        return;
    }
    let c = components(value);
    let ns = comp_names(c);
    assert(all_normal(c) && p == join(ns, '/'));
    if ns.len() == 0 {
        assert(join(ns, '/').len() == 0);
    }
    // the names are plain, so the path they make has exactly those names
    lemma_normal_names(value);
    assert forall|i: int| 0 <= i < ns.len() implies plain_name(#[trigger] ns[i]) by {
        assert(c[i] is Normal);
        assert(ns[i] == comp_name(c[i]));
    }
    lemma_join_plain(Seq::empty(), ns);
    assert(ns[0].len() > 0 && plain_name(ns[0]));
    assert forall|i: int, k: int| 0 <= i < ns.len() && 0 <= k < ns[i].len() implies #[trigger] ns[i][k]
        != '/' by {
        assert(plain_name(ns[i]));
    }
    crate::path::lemma_join_split(ns, '/');
    let segs = split(p, '/');
    assert(segs == ns);
    assert(p.len() > 0 && p[0] != '/') by {
        if p[0] == '/' {
            crate::path::lemma_first_piece(p);
        }
    }
    assert(join_path(Seq::empty(), p) == p);
    assert(components(Seq::<char>::empty()) =~= Seq::<Comp>::empty()) by {
        assert(split(Seq::<char>::empty(), '/') =~= seq![Seq::<char>::empty()]);
    }
    let normals = ns.map_values(|n: Seq<char>| Comp::Normal(n));
    assert(components(p) =~= normals);
    assert(all_normal(components(p)));
    assert(comp_names(components(p)) =~= ns);
    // the normalized path is no longer than the given one
    let vs = split(value, '/');
    lemma_split_len(value, '/');
    lemma_split_join(value);
    assert(value.len() > 0);
    if vs.len() <= 1 {
        assert(c == lone_comps(vs[0]));
        crate::path::lemma_split_one(value, '/');
        crate::path::lemma_pieces_one(vs[0]);
        assert(vs =~= seq![vs[0]]);
        assert(c == pieces_comps(vs));
    } else {
        let f = crate::path::first_comps(vs[0]);
        assert(c == f + pieces_comps(vs.drop_first()));
        assert(f.len() > 0 ==> c[0] == f[0]);
        if vs[0].len() == 0 {
            assert(c[0] == Comp::Root);
        }
        if vs[0] == seq!['.'] {
            assert(c[0] == Comp::Cur);
        }
        assert(f == piece_comps(vs[0]));
        crate::path::lemma_pieces_one(vs[0]);
        assert(seq![vs[0]] + vs.drop_first() =~= vs);
        crate::path::lemma_pieces_comps_add(seq![vs[0]], vs.drop_first());
        assert(c == pieces_comps(vs));
    }
    lemma_names_are_named_pieces(vs);
    assert(ns == named_pieces(vs));
    lemma_named_bytes(vs);
    lemma_join_bytes(vs, '/');
    lemma_join_bytes(ns, '/');
    assert(byte_len(p) <= byte_len(value));
}

} // verus!
