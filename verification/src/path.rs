//! A model of Unix paths held as strings: how a path splits into
//! components, what its file name, extension and stem are, and the
//! confinement rule that keeps user-supplied paths inside a project.
use vstd::prelude::*;
use crate::text::{chars_eq, chars_of, copy_chars, string_of};

verus! {

// ---------------------------------------------------------------------------
// Splitting on a separator
// ---------------------------------------------------------------------------
/// `s` split at every `sep` (like `str::split`): there is always at least
/// one piece, and joining the pieces with `sep` gives `s` back.
pub open spec fn split(s: Seq<char>, sep: char) -> Seq<Seq<char>>
    decreases s.len(),
{
    if s.len() == 0 {
        seq![Seq::empty()]
    } else {
        let r = split(s.drop_last(), sep);
        if s.last() == sep {
            r.push(Seq::empty())
        } else {
            r.update(r.len() - 1, r.last().push(s.last()))
        }
    }
}

pub proof fn lemma_split_len(s: Seq<char>, sep: char)
    ensures
        split(s, sep).len() >= 1,
    decreases s.len(),
{
    if s.len() > 0 {
        lemma_split_len(s.drop_last(), sep);
    }
}

/// The character sequences held by a vector of character vectors.
pub open spec fn views(v: Seq<Vec<char>>) -> Seq<Seq<char>> {
    Seq::new(v.len(), |i: int| v[i]@)
}

/// `parts` joined with `sep` between consecutive pieces.
pub open spec fn join(parts: Seq<Seq<char>>, sep: char) -> Seq<char>
    decreases parts.len(),
{
    if parts.len() == 0 {
        Seq::empty()
    } else if parts.len() == 1 {
        parts[0]
    } else {
        join(parts.drop_last(), sep).push(sep) + parts.last()
    }
}

/// Splits the characters of `s` at every `sep`.
pub fn split_chars(s: &Vec<char>, sep: char) -> (r: Vec<Vec<char>>)
    ensures
        views(r@) == split(s@, sep),
{
    let mut r: Vec<Vec<char>> = Vec::new();
    let mut cur: Vec<char> = Vec::new();
    let mut i: usize = 0;
    proof {
        assert(s@.take(0) =~= Seq::<char>::empty());
    }
    while i < s.len()
        invariant
            i <= s.len(),
            views(r@).push(cur@) == split(s@.take(i as int), sep),
        decreases s.len() - i,
    {
        let ghost prev = s@.take(i as int);
        proof {
            assert(s@.take(i + 1).drop_last() =~= prev);
            assert(s@.take(i + 1).last() == s@[i as int]);
            lemma_split_len(prev, sep);
        }
        let ghost old_r = r@;
        let ghost old_cur = cur@;
        if s[i] == sep {
            let done = cur;
            r.push(done);
            cur = Vec::new();
            proof {
                assert(views(r@) =~= views(old_r).push(old_cur));
                assert(views(r@).push(cur@) =~= split(prev, sep).push(Seq::empty()));
            }
        } else {
            cur.push(s[i]);
            proof {
                assert(views(r@).push(cur@) =~= split(prev, sep).update(
                    split(prev, sep).len() - 1,
                    split(prev, sep).last().push(s@[i as int]),
                ));
            }
        }
        i = i + 1;
    }
    let ghost old_r = r@;
    let ghost old_cur = cur@;
    r.push(cur);
    proof {
        assert(views(r@) =~= views(old_r).push(old_cur));
        assert(s@.take(s@.len() as int) =~= s@);
    }
    r
}

/// Joins `parts` with `sep` into a new string.
pub fn join_chars(parts: &Vec<Vec<char>>, from: usize, to: usize, sep: char) -> (r: String)
    requires
        from <= to <= parts.len(),
    ensures
        r@ == join(views(parts@).subrange(from as int, to as int), sep),
{
    let mut r = String::new();
    let mut i = from;
    while i < to
        invariant
            from <= i <= to <= parts.len(),
            r@ == join(views(parts@).subrange(from as int, i as int), sep),
        decreases to - i,
    {
        let ghost before = views(parts@).subrange(from as int, i as int);
        if i > from {
            r.push(sep);
        }
        let piece = &parts[i];
        let mut k: usize = 0;
        let ghost base = r@;
        while k < piece.len()
            invariant
                k <= piece.len(),
                r@ == base + piece@.take(k as int),
            decreases piece.len() - k,
        {
            r.push(piece[k]);
            proof {
                assert(r@ =~= base + piece@.take(k + 1));
            }
            k = k + 1;
        }
        proof {
            let after = views(parts@).subrange(from as int, i + 1);
            assert(after.drop_last() =~= before);
            assert(piece@.take(piece@.len() as int) =~= piece@);
            if i == from {
                assert(after.len() == 1);
                assert(r@ =~= after[0]);
            } else {
                assert(r@ =~= join(before, sep).push(sep) + after.last());
            }
        }
        i = i + 1;
    }
    r
}

// ---------------------------------------------------------------------------
// Components
// ---------------------------------------------------------------------------
/// One component of a path, as `std::path::Component` names them on Unix.
pub enum Comp {
    Root,
    Cur,
    Parent,
    Normal(Seq<char>),
}

/// The contribution of a piece between separators that is not the first
/// piece: empty pieces and `.` vanish, `..` is the parent.
pub open spec fn piece_comps(g: Seq<char>) -> Seq<Comp> {
    if g.len() == 0 || g == seq!['.'] {
        Seq::empty()
    } else if g == seq!['.', '.'] {
        seq![Comp::Parent]
    } else {
        seq![Comp::Normal(g)]
    }
}

pub open spec fn pieces_comps(segs: Seq<Seq<char>>) -> Seq<Comp>
    decreases segs.len(),
{
    if segs.len() == 0 {
        Seq::empty()
    } else {
        pieces_comps(segs.drop_last()) + piece_comps(segs.last())
    }
}

/// The first piece of a path with no separator: a lone `.` is the current
/// directory.
pub open spec fn lone_comps(g: Seq<char>) -> Seq<Comp> {
    if g == seq!['.'] {
        seq![Comp::Cur]
    } else {
        piece_comps(g)
    }
}

/// The first piece of a path followed by a separator: an empty first piece
/// means the path starts at the root.
pub open spec fn first_comps(g: Seq<char>) -> Seq<Comp> {
    if g.len() == 0 {
        seq![Comp::Root]
    } else {
        lone_comps(g)
    }
}

/// The components of `s`, as `Path::components` yields them on Unix.
pub open spec fn components(s: Seq<char>) -> Seq<Comp> {
    let segs = split(s, '/');
    if segs.len() <= 1 {
        lone_comps(segs[0])
    } else {
        first_comps(segs[0]) + pieces_comps(segs.drop_first())
    }
}

/// A path component held by executable code.
pub enum PathPart {
    Root,
    Cur,
    Parent,
    Normal(Vec<char>),
}

impl View for PathPart {
    type V = Comp;

    open spec fn view(&self) -> Comp {
        match self {
            PathPart::Root => Comp::Root,
            PathPart::Cur => Comp::Cur,
            PathPart::Parent => Comp::Parent,
            PathPart::Normal(n) => Comp::Normal(n@),
        }
    }
}

pub open spec fn parts_view(v: Seq<PathPart>) -> Seq<Comp> {
    v.map_values(|p: PathPart| p@)
}

pub fn chars_lit_eq(v: &Vec<char>, s: &str) -> (r: bool)
    ensures
        r == (v@ == s@),
{
    let w = chars_of(s);
    chars_eq(v, &w)
}

fn is_dot(g: &Vec<char>) -> (r: bool)
    ensures
        r == (g@ == seq!['.']),
{
    if g.len() == 1 && g[0] == '.' {
        assert(g@ =~= seq!['.']);
        true
    } else {
        false
    }
}

fn is_dot_dot(g: &Vec<char>) -> (r: bool)
    ensures
        r == (g@ == seq!['.', '.']),
{
    if g.len() == 2 && g[0] == '.' && g[1] == '.' {
        assert(g@ =~= seq!['.', '.']);
        true
    } else {
        false
    }
}

fn push_piece(out: &mut Vec<PathPart>, g: &Vec<char>)
    ensures
        parts_view(final(out)@) == parts_view(old(out)@) + piece_comps(g@),
{
    if g.len() == 0 || is_dot(g) {
    } else if is_dot_dot(g) {
        out.push(PathPart::Parent);
    } else {
        out.push(PathPart::Normal(copy_chars(g)));
    }
    assert(parts_view(out@) =~= parts_view(old(out)@) + piece_comps(g@));
}

fn push_lone(out: &mut Vec<PathPart>, g: &Vec<char>)
    ensures
        parts_view(final(out)@) == parts_view(old(out)@) + lone_comps(g@),
{
    if is_dot(g) {
        out.push(PathPart::Cur);
        assert(parts_view(out@) =~= parts_view(old(out)@) + lone_comps(g@));
    } else {
        push_piece(out, g);
    }
}

/// The components of the path `s`.
pub fn path_components(s: &Vec<char>) -> (r: Vec<PathPart>)
    ensures
        parts_view(r@) == components(s@),
{
    let segs = split_chars(s, '/');
    let ghost d = views(segs@);
    proof {
        lemma_split_len(s@, '/');
        assert(d[0] == segs@[0]@);
    }
    let mut out: Vec<PathPart> = Vec::new();
    proof {
        assert(parts_view(out@) =~= Seq::<Comp>::empty());
    }
    if segs.len() == 1 {
        push_lone(&mut out, &segs[0]);
        assert(parts_view(out@) =~= components(s@));
        return out;
    }
    if segs[0].len() == 0 {
        out.push(PathPart::Root);
    } else {
        push_lone(&mut out, &segs[0]);
    }
    assert(parts_view(out@) =~= first_comps(d[0]));
    let mut i: usize = 1;
    proof {
        assert(d.subrange(1, 1) =~= Seq::<Seq<char>>::empty());
        assert(parts_view(out@) =~= first_comps(d[0]) + pieces_comps(d.subrange(1, 1)));
    }
    while i < segs.len()
        invariant
            1 <= i <= segs.len(),
            d == views(segs@),
            d == split(s@, '/'),
            parts_view(out@) == first_comps(d[0]) + pieces_comps(d.subrange(1, i as int)),
        decreases segs.len() - i,
    {
        push_piece(&mut out, &segs[i]);
        proof {
            assert(d.subrange(1, i + 1).drop_last() =~= d.subrange(1, i as int));
            assert(d.subrange(1, i + 1).last() == segs@[i as int]@);
            assert(parts_view(out@) =~= first_comps(d[0]) + pieces_comps(d.subrange(1, i + 1)));
        }
        i = i + 1;
    }
    proof {
        assert(d.subrange(1, segs.len() as int) =~= d.drop_first());
    }
    out
}

/// Whether two component lists are equal.
pub fn parts_eq(a: &Vec<PathPart>, b: &Vec<PathPart>) -> (r: bool)
    ensures
        r == (parts_view(a@) == parts_view(b@)),
{
    if a.len() != b.len() {
        proof {
            assert(parts_view(a@).len() != parts_view(b@).len());
        }
        return false;
    }
    let mut i: usize = 0;
    while i < a.len()
        invariant
            a.len() == b.len(),
            i <= a.len(),
            forall|k: int| 0 <= k < i ==> a@[k]@ == b@[k]@,
        decreases a.len() - i,
    {
        let same = match (&a[i], &b[i]) {
            (PathPart::Root, PathPart::Root) => true,
            (PathPart::Cur, PathPart::Cur) => true,
            (PathPart::Parent, PathPart::Parent) => true,
            (PathPart::Normal(x), PathPart::Normal(y)) => chars_eq(x, y),
            _ => false,
        };
        if !same {
            proof {
                assert(parts_view(a@)[i as int] != parts_view(b@)[i as int]);
            }
            return false;
        }
        i = i + 1;
    }
    proof {
        assert(parts_view(a@) =~= parts_view(b@));
    }
    true
}

/// Whether `s` starts at the root (`Path::is_absolute` on Unix).
pub open spec fn is_absolute(s: Seq<char>) -> bool {
    s.len() > 0 && s[0] == '/'
}

/// Whether every component is a normal name.
pub open spec fn all_normal(c: Seq<Comp>) -> bool {
    forall|i: int| 0 <= i < c.len() ==> c[i] is Normal
}

/// The text of a normal component.
pub open spec fn comp_name(c: Comp) -> Seq<char> {
    match c {
        Comp::Normal(n) => n,
        _ => Seq::empty(),
    }
}

pub open spec fn comp_names(c: Seq<Comp>) -> Seq<Seq<char>> {
    c.map_values(|x: Comp| comp_name(x))
}

// ---------------------------------------------------------------------------
// File name, extension and stem
// ---------------------------------------------------------------------------
/// Position of the last occurrence of `ch` in `s`, or -1.
pub open spec fn last_index(s: Seq<char>, ch: char) -> int
    decreases s.len(),
{
    if s.len() == 0 {
        -1
    } else if s.last() == ch {
        s.len() - 1
    } else {
        last_index(s.drop_last(), ch)
    }
}

pub proof fn lemma_last_index(s: Seq<char>, ch: char)
    ensures
        -1 <= last_index(s, ch) < s.len(),
        last_index(s, ch) >= 0 ==> s[last_index(s, ch)] == ch,
        forall|k: int| last_index(s, ch) < k < s.len() ==> s[k] != ch,
    decreases s.len(),
{
    if s.len() > 0 && s.last() != ch {
        let t = s.drop_last();
        lemma_last_index(t, ch);
        assert forall|k: int| last_index(s, ch) < k < s.len() implies s[k] != ch by {
            if k < t.len() {
                assert(t[k] == s[k]);
            }
        }
    }
}

pub fn find_last(s: &Vec<char>, ch: char) -> (r: Option<usize>)
    ensures
        match r {
            Some(k) => k == last_index(s@, ch),
            None => last_index(s@, ch) == -1,
        },
{
    proof {
        lemma_last_index(s@, ch);
    }
    let mut k = s.len();
    while k > 0
        invariant
            k <= s.len(),
            forall|j: int| k <= j < s.len() ==> s@[j] != ch,
            last_index(s@, ch) < k,
        decreases k,
    {
        proof {
            lemma_last_index(s@, ch);
        }
        if s[k - 1] == ch {
            return Some(k - 1);
        }
        k = k - 1;
    }
    None
}

/// Position of the last piece that names something (neither empty nor
/// `.`), or -1: this is where `Path::components` stops when read from the
/// back.
pub open spec fn last_named(segs: Seq<Seq<char>>) -> int
    decreases segs.len(),
{
    if segs.len() == 0 {
        -1
    } else if segs.last().len() != 0 && segs.last() != seq!['.'] {
        segs.len() - 1
    } else {
        last_named(segs.drop_last())
    }
}

pub proof fn lemma_last_named(segs: Seq<Seq<char>>)
    ensures
        -1 <= last_named(segs) < segs.len(),
        last_named(segs) >= 0 ==> segs[last_named(segs)].len() != 0 && segs[last_named(segs)]
            != seq!['.'],
    decreases segs.len(),
{
    if segs.len() > 0 {
        lemma_last_named(segs.drop_last());
    }
}

/// `Path::file_name`: the last component when it is a normal name.
pub open spec fn file_name(s: Seq<char>) -> Option<Seq<char>> {
    let segs = split(s, '/');
    let j = last_named(segs);
    if j >= 0 && segs[j] != seq!['.', '.'] {
        Some(segs[j])
    } else {
        None
    }
}

/// The extension of a file name (`Path::extension`): what follows its last
/// dot, unless there is no dot or the only dot is the first character.
pub open spec fn extension_of(name: Seq<char>) -> Option<Seq<char>> {
    let k = last_index(name, '.');
    if k <= 0 {
        None
    } else {
        Some(name.skip(k + 1))
    }
}

/// `Path::extension`.
pub open spec fn extension(s: Seq<char>) -> Option<Seq<char>> {
    match file_name(s) {
        Some(n) => extension_of(n),
        None => None,
    }
}

/// The stem of a file name (`Path::file_stem`): the name without its
/// extension.
pub open spec fn stem_of(name: Seq<char>) -> Seq<char> {
    let k = last_index(name, '.');
    if k <= 0 {
        name
    } else {
        name.take(k)
    }
}

/// `PathBuf::set_extension(ext)` for a non-empty `ext`: the path cut right
/// after the stem of its file name, then `.` and `ext`; unchanged when the
/// path has no file name.
pub open spec fn with_extension(s: Seq<char>, ext: Seq<char>) -> Seq<char> {
    let segs = split(s, '/');
    let j = last_named(segs);
    if file_name(s) is Some {
        join(segs.take(j).push(stem_of(segs[j])), '/').push('.') + ext
    } else {
        s
    }
}

/// The last named piece of `s` and its position, when `s` has a file name.
pub fn file_name_of(s: &Vec<char>) -> (r: Option<(Vec<Vec<char>>, usize)>)
    ensures
        match r {
            Some((segs, j)) => {
                &&& file_name(s@) is Some
                &&& views(segs@) == split(s@, '/')
                &&& j < segs.len()
                &&& j == last_named(split(s@, '/'))
                &&& file_name(s@) == Some(segs@[j as int]@)
            },
            None => file_name(s@) is None,
        },
{
    let segs = split_chars(s, '/');
    let ghost d = views(segs@);
    proof {
        lemma_last_named(d);
        assert(d.take(d.len() as int) =~= d);
    }
    let mut k = segs.len();
    while k > 0 && (segs[k - 1].len() == 0 || is_dot(&segs[k - 1]))
        invariant
            k <= segs.len(),
            d == views(segs@),
            last_named(d) == last_named(d.take(k as int)),
        decreases k,
    {
        proof {
            let t = d.take(k as int);
            assert(t.drop_last() =~= d.take(k - 1));
            assert(t.last() == segs@[k - 1]@);
        }
        k = k - 1;
    }
    if k == 0 {
        return None;
    }
    proof {
        let t = d.take(k as int);
        assert(t.last() == segs@[k - 1]@);
        assert(last_named(t) == k - 1);
        assert(d[k - 1] == segs@[k - 1]@);
    }
    if is_dot_dot(&segs[k - 1]) {
        return None;
    }
    Some((segs, k - 1))
}

/// `Path::file_name` of the path `s`.
pub fn path_file_name(s: &Vec<char>) -> (r: Option<Vec<char>>)
    ensures
        match r {
            Some(n) => file_name(s@) == Some(n@),
            None => file_name(s@) is None,
        },
{
    match file_name_of(s) {
        Some((segs, j)) => Some(copy_chars(&segs[j])),
        None => None,
    }
}

/// `Path::extension` of the file name `name`.
pub fn name_extension(name: &Vec<char>) -> (r: Option<Vec<char>>)
    ensures
        match r {
            Some(e) => extension_of(name@) == Some(e@),
            None => extension_of(name@) is None,
        },
{
    let kk = match find_last(name, '.') {
        Some(k) if k > 0 => k,
        _ => {
            return None;
        },
    };
    proof {
        lemma_last_index(name@, '.');
        assert(kk < name.len());
    }
    let mut e: Vec<char> = Vec::new();
    let mut i = kk + 1;
    while i < name.len()
        invariant
            kk + 1 <= i <= name.len(),
            e@ == name@.subrange(kk + 1, i as int),
        decreases name.len() - i,
    {
        e.push(name[i]);
        proof {
            assert(e@ =~= name@.subrange(kk + 1, i + 1));
        }
        i = i + 1;
    }
    proof {
        assert(e@ =~= name@.skip(kk + 1));
    }
    Some(e)
}

/// `s` with the file name's extension replaced by `ext`, as
/// `PathBuf::set_extension` does.
pub fn set_extension(s: &Vec<char>, ext: &str) -> (r: String)
    requires
        ext@.len() > 0,
    ensures
        r@ == with_extension(s@, ext@),
{
    match file_name_of(s) {
        None => string_of(s),
        Some((segs, j)) => {
            let name = &segs[j];
            let found = find_last(name, '.');
            proof {
                lemma_last_index(name@, '.');
            }
            let k: usize = match found {
                Some(k) => k,
                None => 0,
            };
            let stem = if k == 0 {
                copy_chars(name)
            } else {
                let mut t: Vec<char> = Vec::new();
                let mut i: usize = 0;
                while i < k
                    invariant
                        0 < k < name.len(),
                        i <= k,
                        t@ == name@.take(i as int),
                    decreases k - i,
                {
                    t.push(name[i]);
                    proof {
                        assert(t@ =~= name@.take(i + 1));
                    }
                    i = i + 1;
                }
                proof {
                    lemma_last_index(name@, '.');
                }
                t
            };
            let mut pieces: Vec<Vec<char>> = Vec::new();
            let mut i: usize = 0;
            while i < j
                invariant
                    i <= j < segs.len(),
                    views(pieces@) == views(segs@).take(i as int),
                decreases j - i,
            {
                let ghost old_pieces = pieces@;
                pieces.push(copy_chars(&segs[i]));
                proof {
                    assert(views(pieces@) =~= views(old_pieces).push(segs@[i as int]@));
                    assert(views(pieces@) =~= views(segs@).take(i + 1));
                }
                i = i + 1;
            }
            pieces.push(stem);
            let mut r = join_chars(&pieces, 0, pieces.len(), '/');
            proof {
                assert(views(pieces@).subrange(0, pieces.len() as int) =~= views(segs@).take(
                    j as int,
                ).push(stem_of(views(segs@)[j as int])));
            }
            r.push('.');
            r.append(ext);
            r
        },
    }
}

// ---------------------------------------------------------------------------
// Joining and comparing paths
// ---------------------------------------------------------------------------
/// `Path::join` on Unix: an absolute `rel` replaces `base`; otherwise `rel`
/// follows `base`, with a `/` between them unless `base` is empty or
/// already ends with one.
pub open spec fn join_path(base: Seq<char>, rel: Seq<char>) -> Seq<char> {
    if rel.len() > 0 && rel[0] == '/' {
        rel
    } else if base.len() > 0 && base.last() != '/' {
        base.push('/') + rel
    } else {
        base + rel
    }
}

pub fn path_join(base: &str, rel: &str) -> (r: String)
    ensures
        r@ == join_path(base@, rel@),
{
    let b = chars_of(base);
    let rv = chars_of(rel);
    if rv.len() > 0 && rv[0] == '/' {
        return string_of(&rv);
    }
    let mut r = string_of(&b);
    if b.len() > 0 && b[b.len() - 1] != '/' {
        r.push('/');
    }
    r.append(rel);
    r
}

/// `Path::starts_with`: the components of `base` begin those of `p`.
pub open spec fn starts_with_path(p: Seq<char>, base: Seq<char>) -> bool {
    components(base).len() <= components(p).len() && components(p).take(
        components(base).len() as int,
    ) == components(base)
}

/// Whether `p` lies strictly inside `base`: it starts with `base` and is
/// not `base` itself (paths compare by their components).
pub open spec fn is_inside(base: Seq<char>, p: Seq<char>) -> bool {
    starts_with_path(p, base) && components(p) != components(base)
}

pub fn path_starts_with(p: &str, base: &str) -> (r: bool)
    ensures
        r == starts_with_path(p@, base@),
{
    let pc = path_components(&chars_of(p));
    let bc = path_components(&chars_of(base));
    if bc.len() > pc.len() {
        return false;
    }
    let mut i: usize = 0;
    while i < bc.len()
        invariant
            i <= bc.len() <= pc.len(),
            parts_view(pc@) == components(p@),
            parts_view(bc@) == components(base@),
            forall|j: int| 0 <= j < i ==> parts_view(pc@)[j] == parts_view(bc@)[j],
        decreases bc.len() - i,
    {
        let same = match (&pc[i], &bc[i]) {
            (PathPart::Root, PathPart::Root) => true,
            (PathPart::Cur, PathPart::Cur) => true,
            (PathPart::Parent, PathPart::Parent) => true,
            (PathPart::Normal(x), PathPart::Normal(y)) => chars_eq(x, y),
            _ => false,
        };
        if !same {
            proof {
                assert(parts_view(pc@).take(bc.len() as int)[i as int] != parts_view(bc@)[i as int]);
            }
            return false;
        }
        i = i + 1;
    }
    proof {
        assert(parts_view(pc@).take(bc.len() as int) =~= parts_view(bc@));
    }
    true
}

/// Whether `p` and `q` name the same path (`Path` equality).
pub fn same_path(p: &str, q: &str) -> (r: bool)
    ensures
        r == (components(p@) == components(q@)),
{
    parts_eq(&path_components(&chars_of(p)), &path_components(&chars_of(q)))
}

/// Whether `p` lies strictly inside `base`.
pub fn path_inside(base: &str, p: &str) -> (r: bool)
    ensures
        r == is_inside(base@, p@),
{
    path_starts_with(p, base) && !same_path(p, base)
}

/// The names of the components of `p`, each copied.
pub fn component_names(parts: &Vec<PathPart>) -> (r: Vec<Vec<char>>)
    ensures
        views(r@) == comp_names(parts_view(parts@)),
{
    let mut r: Vec<Vec<char>> = Vec::new();
    let mut i: usize = 0;
    while i < parts.len()
        invariant
            i <= parts.len(),
            views(r@) == comp_names(parts_view(parts@).take(i as int)),
        decreases parts.len() - i,
    {
        let ghost before = r@;
        let n = match &parts[i] {
            PathPart::Normal(n) => copy_chars(n),
            _ => Vec::new(),
        };
        r.push(n);
        proof {
            assert(views(r@) =~= views(before).push(comp_name(parts@[i as int]@)));
            assert(comp_names(parts_view(parts@).take(i + 1)) =~= comp_names(
                parts_view(parts@).take(i as int),
            ).push(comp_name(parts@[i as int]@)));
        }
        i = i + 1;
    }
    proof {
        assert(parts_view(parts@).take(parts.len() as int) =~= parts_view(parts@));
    }
    r
}

// ---------------------------------------------------------------------------
// Facts about splitting and components
// ---------------------------------------------------------------------------
/// Splitting `a`, a separator and `b` gives the pieces of `a` followed by
/// those of `b`.
pub proof fn lemma_split_concat(a: Seq<char>, b: Seq<char>, sep: char)
    ensures
        split(a.push(sep) + b, sep) == split(a, sep) + split(b, sep),
    decreases b.len(),
{
    if b.len() == 0 {
        assert(a.push(sep) + b =~= a.push(sep));
        assert(a.push(sep).drop_last() =~= a);
        assert(split(a, sep).push(Seq::empty()) =~= split(a, sep) + seq![Seq::<char>::empty()]);
    } else {
        let c = a.push(sep) + b;
        assert(c.drop_last() =~= a.push(sep) + b.drop_last());
        assert(c.last() == b.last());
        lemma_split_concat(a, b.drop_last(), sep);
        lemma_split_len(b.drop_last(), sep);
        let sb = split(b.drop_last(), sep);
        let r = split(a, sep) + sb;
        if b.last() == sep {
            assert(r.push(Seq::empty()) =~= split(a, sep) + sb.push(Seq::empty()));
        } else {
            assert(r.update(r.len() - 1, r.last().push(b.last())) =~= split(a, sep) + sb.update(
                sb.len() - 1,
                sb.last().push(b.last()),
            ));
        }
    }
}

/// No piece of a split holds the separator.
pub proof fn lemma_split_no_sep(s: Seq<char>, sep: char)
    ensures
        forall|i: int, k: int|
            0 <= i < split(s, sep).len() && 0 <= k < split(s, sep)[i].len() ==> #[trigger] split(
                s,
                sep,
            )[i][k] != sep,
    decreases s.len(),
{
    if s.len() > 0 {
        lemma_split_no_sep(s.drop_last(), sep);
        lemma_split_len(s.drop_last(), sep);
        let r = split(s.drop_last(), sep);
        if s.last() != sep {
            let t = r.update(r.len() - 1, r.last().push(s.last()));
            assert forall|i: int, k: int| 0 <= i < t.len() && 0 <= k < t[i].len() implies #[trigger] t[i][k]
                != sep by {
                if i == r.len() - 1 && k == r.last().len() {
                    assert(t[i][k] == s.last());
                } else if i == r.len() - 1 {
                    assert(t[i][k] == r[i][k]);
                }
            }
        }
    }
}

/// Text without the separator is a single piece.
pub proof fn lemma_split_single(g: Seq<char>, sep: char)
    requires
        forall|k: int| 0 <= k < g.len() ==> g[k] != sep,
    ensures
        split(g, sep) == seq![g],
    decreases g.len(),
{
    if g.len() > 0 {
        lemma_split_single(g.drop_last(), sep);
        assert(g.drop_last().push(g.last()) =~= g);
        assert(seq![g.drop_last()].update(0, g.drop_last().push(g.last())) =~= seq![g]);
    } else {
        assert(g =~= Seq::<char>::empty());
    }
}

/// A split into a single piece gives the text itself.
pub proof fn lemma_split_one(s: Seq<char>, sep: char)
    requires
        split(s, sep).len() == 1,
    ensures
        split(s, sep)[0] == s,
    decreases s.len(),
{
    if s.len() > 0 {
        lemma_split_len(s.drop_last(), sep);
        if s.last() != sep {
            lemma_split_one(s.drop_last(), sep);
            assert(s.drop_last().push(s.last()) =~= s);
        }
    } else {
        assert(s =~= Seq::<char>::empty());
    }
}

/// Pieces without the separator, joined by it, split back into themselves.
pub proof fn lemma_join_split(ns: Seq<Seq<char>>, sep: char)
    requires
        ns.len() >= 1,
        forall|i: int, k: int| 0 <= i < ns.len() && 0 <= k < ns[i].len() ==> #[trigger] ns[i][k] != sep,
    ensures
        split(join(ns, sep), sep) == ns,
    decreases ns.len(),
{
    if ns.len() == 1 {
        assert forall|k: int| 0 <= k < ns[0].len() implies ns[0][k] != sep by {
            assert(ns[0][k] != sep);
        }
        lemma_split_single(ns[0], sep);
        assert(seq![ns[0]] =~= ns);
    } else {
        let d = ns.drop_last();
        assert forall|i: int, k: int| 0 <= i < d.len() && 0 <= k < d[i].len() implies #[trigger] d[i][k]
            != sep by {
            assert(d[i] == ns[i]);
        }
        lemma_join_split(d, sep);
        assert forall|k: int| 0 <= k < ns.last().len() implies ns.last()[k] != sep by {
            assert(ns[ns.len() - 1][k] != sep);
        }
        lemma_split_single(ns.last(), sep);
        lemma_split_concat(join(d, sep), ns.last(), sep);
        assert(d + seq![ns.last()] =~= ns);
    }
}

pub proof fn lemma_pieces_one(x: Seq<char>)
    ensures
        pieces_comps(seq![x]) == piece_comps(x),
{
    assert(seq![x].drop_last() =~= Seq::<Seq<char>>::empty());
    assert(seq![x].last() == x);
    assert(pieces_comps(Seq::<Seq<char>>::empty()) + piece_comps(x) =~= piece_comps(x));
}

pub proof fn lemma_pieces_comps_add(a: Seq<Seq<char>>, b: Seq<Seq<char>>)
    ensures
        pieces_comps(a + b) == pieces_comps(a) + pieces_comps(b),
    decreases b.len(),
{
    if b.len() == 0 {
        assert(a + b =~= a);
        assert(pieces_comps(a) + pieces_comps(b) =~= pieces_comps(a));
    } else {
        assert((a + b).drop_last() =~= a + b.drop_last());
        assert((a + b).last() == b.last());
        lemma_pieces_comps_add(a, b.drop_last());
        assert(pieces_comps(a) + pieces_comps(b.drop_last()) + piece_comps(b.last()) =~= pieces_comps(
            a,
        ) + (pieces_comps(b.drop_last()) + piece_comps(b.last())));
    }
}

/// The pieces of a path made only of plain names are those names.
pub open spec fn plain_name(n: Seq<char>) -> bool {
    &&& n.len() > 0
    &&& n != seq!['.']
    &&& n != seq!['.', '.']
    &&& forall|k: int| 0 <= k < n.len() ==> n[k] != '/'
}

pub proof fn lemma_pieces_plain(ns: Seq<Seq<char>>)
    requires
        forall|i: int| 0 <= i < ns.len() ==> plain_name(#[trigger] ns[i]),
    ensures
        pieces_comps(ns) == ns.map_values(|n: Seq<char>| Comp::Normal(n)),
    decreases ns.len(),
{
    if ns.len() > 0 {
        let d = ns.drop_last();
        assert forall|i: int| 0 <= i < d.len() implies plain_name(#[trigger] d[i]) by {
            assert(d[i] == ns[i]);
        }
        lemma_pieces_plain(d);
        assert(plain_name(ns[ns.len() - 1]));
        assert(ns.map_values(|n: Seq<char>| Comp::Normal(n)) =~= d.map_values(
            |n: Seq<char>| Comp::Normal(n),
        ) + seq![Comp::Normal(ns.last())]);
    } else {
        assert(pieces_comps(ns) =~= ns.map_values(|n: Seq<char>| Comp::Normal(n)));
    }
}

/// A separator and more text add the components of the pieces of that
/// text.
pub proof fn lemma_components_extend(a: Seq<char>, b: Seq<char>)
    ensures
        components(a.push('/') + b) == components(a.push('/')) + pieces_comps(split(b, '/')),
{
    let sa = split(a, '/');
    lemma_split_len(a, '/');
    lemma_split_concat(a, b, '/');
    lemma_split_concat(a, Seq::empty(), '/');
    assert(a.push('/') + Seq::<char>::empty() =~= a.push('/'));
    let sb = split(b, '/');
    let full = sa + sb;
    let bare = sa + seq![Seq::<char>::empty()];
    assert(split(Seq::<char>::empty(), '/') =~= seq![Seq::<char>::empty()]);
    lemma_split_len(b, '/');
    assert(full[0] == sa[0]);
    assert(bare[0] == sa[0]);
    assert(full.drop_first() =~= sa.drop_first() + sb);
    assert(bare.drop_first() =~= sa.drop_first() + seq![Seq::<char>::empty()]);
    lemma_pieces_comps_add(sa.drop_first(), sb);
    lemma_pieces_comps_add(sa.drop_first(), seq![Seq::<char>::empty()]);
    lemma_pieces_one(Seq::<char>::empty());
    assert(pieces_comps(seq![Seq::<char>::empty()]) =~= Seq::<Comp>::empty());
    assert(pieces_comps(sa.drop_first()) + Seq::<Comp>::empty() =~= pieces_comps(sa.drop_first()));
}

/// A trailing separator adds no component to a non-empty path.
pub proof fn lemma_components_slash(a: Seq<char>)
    requires
        a.len() > 0,
    ensures
        components(a.push('/')) == components(a),
{
    lemma_components_extend(a, Seq::empty());
    assert(a.push('/') + Seq::<char>::empty() =~= a.push('/'));
    let sa = split(a, '/');
    lemma_split_len(a, '/');
    lemma_split_concat(a, Seq::empty(), '/');
    assert(split(Seq::<char>::empty(), '/') =~= seq![Seq::<char>::empty()]);
    let bare = sa + seq![Seq::<char>::empty()];
    assert(bare[0] == sa[0]);
    assert(bare.drop_first() =~= sa.drop_first() + seq![Seq::<char>::empty()]);
    lemma_pieces_comps_add(sa.drop_first(), seq![Seq::<char>::empty()]);
    lemma_pieces_one(Seq::<char>::empty());
    assert(pieces_comps(seq![Seq::<char>::empty()]) =~= Seq::<Comp>::empty());
    assert(pieces_comps(sa.drop_first()) + Seq::<Comp>::empty() =~= pieces_comps(sa.drop_first()));
    if sa.len() == 1 {
        lemma_split_one(a, '/');
        assert(sa.drop_first() =~= Seq::<Seq<char>>::empty());
    }
}

/// Plain names joined with `/` and appended to any folder extend its
/// components by those names.
pub proof fn lemma_join_plain(dir: Seq<char>, ns: Seq<Seq<char>>)
    requires
        ns.len() >= 1,
        forall|i: int| 0 <= i < ns.len() ==> plain_name(#[trigger] ns[i]),
    ensures
        components(join_path(dir, join(ns, '/'))) == components(dir) + ns.map_values(
            |n: Seq<char>| Comp::Normal(n),
        ),
{
    let p = join(ns, '/');
    assert forall|i: int, k: int| 0 <= i < ns.len() && 0 <= k < ns[i].len() implies #[trigger] ns[i][k]
        != '/' by {
        assert(plain_name(ns[i]));
    }
    lemma_join_split(ns, '/');
    lemma_pieces_plain(ns);
    assert(plain_name(ns[0]));
    let normals = ns.map_values(|n: Seq<char>| Comp::Normal(n));
    if p.len() > 0 && p[0] == '/' {
        assert(split(p, '/')[0] == ns[0]);
        lemma_first_piece(p);
        assert(false);
    }
    if dir.len() == 0 {
        assert(join_path(dir, p) == p);
        // the first piece is a plain name, so it is read as a normal component
        let sp = split(p, '/');
        assert(sp == ns);
        assert(dir =~= Seq::<char>::empty());
        assert(components(dir) == Seq::<Comp>::empty()) by {
            assert(split(dir, '/') =~= seq![Seq::<char>::empty()]);
        }
        if sp.len() == 1 {
            assert(components(p) == piece_comps(ns[0]));
            assert(pieces_comps(ns) =~= pieces_comps(ns.drop_last()) + piece_comps(ns.last()));
            assert(ns.drop_last() =~= Seq::<Seq<char>>::empty());
        } else {
            assert(seq![ns[0]] + ns.drop_first() =~= ns);
            lemma_pieces_comps_add(seq![ns[0]], ns.drop_first());
            lemma_pieces_one(ns[0]);
        }
        assert(components(dir) + normals =~= normals);
    } else if dir.last() != '/' {
        assert(join_path(dir, p) == dir.push('/') + p);
        lemma_components_extend(dir, p);
        lemma_components_slash(dir);
    } else {
        let a = dir.drop_last();
        assert(a.push('/') =~= dir);
        assert(join_path(dir, p) == dir + p);
        lemma_components_extend(a, p);
    }
}

/// A path whose first piece is not empty does not start at the root.
pub proof fn lemma_first_piece(p: Seq<char>)
    requires
        p.len() > 0,
        p[0] == '/',
    ensures
        split(p, '/')[0].len() == 0,
{
    let t = p.drop_first();
    assert(seq!['/'] + t =~= p);
    assert(Seq::<char>::empty().push('/') + t =~= p);
    lemma_split_concat(Seq::empty(), t, '/');
    assert(split(Seq::<char>::empty(), '/') =~= seq![Seq::<char>::empty()]);
}

/// Every character of every piece satisfies `p`.
pub open spec fn pieces_satisfy(ps: Seq<Seq<char>>, p: spec_fn(char) -> bool) -> bool {
    forall|i: int, k: int| 0 <= i < ps.len() && 0 <= k < ps[i].len() ==> p(#[trigger] ps[i][k])
}

/// Joining pieces adds only the separator to their characters.
pub proof fn lemma_join_chars(ps: Seq<Seq<char>>, sep: char, p: spec_fn(char) -> bool)
    requires
        pieces_satisfy(ps, p),
    ensures
        forall|k: int| 0 <= k < join(ps, sep).len() ==> p(#[trigger] join(ps, sep)[k]) || join(
            ps,
            sep,
        )[k] == sep,
    decreases ps.len(),
{
    if ps.len() == 1 {
        assert forall|k: int| 0 <= k < join(ps, sep).len() implies p(#[trigger] join(ps, sep)[k])
            || join(ps, sep)[k] == sep by {
            assert(p(ps[0][k]));
        }
    } else if ps.len() > 1 {
        let d = ps.drop_last();
        assert forall|i: int, k: int| 0 <= i < d.len() && 0 <= k < d[i].len() implies p(
            #[trigger] d[i][k],
        ) by {
            assert(d[i] == ps[i]);
        }
        lemma_join_chars(d, sep, p);
        let front = join(d, sep).push(sep);
        let j = front + ps.last();
        assert forall|k: int| 0 <= k < j.len() implies p(#[trigger] j[k]) || j[k] == sep by {
            if k < front.len() - 1 {
                assert(j[k] == join(d, sep)[k]);
            } else if k >= front.len() {
                assert(j[k] == ps[ps.len() - 1][k - front.len()]);
            }
        }
    }
}

/// When every piece of a split satisfies `p`, every character of the text
/// satisfies `p` or is the separator.
pub proof fn lemma_split_chars(s: Seq<char>, sep: char, p: spec_fn(char) -> bool)
    requires
        pieces_satisfy(split(s, sep), p),
    ensures
        forall|k: int| 0 <= k < s.len() ==> p(#[trigger] s[k]) || s[k] == sep,
    decreases s.len(),
{
    if s.len() > 0 {
        let r = split(s.drop_last(), sep);
        lemma_split_len(s.drop_last(), sep);
        if s.last() == sep {
            assert forall|i: int, k: int| 0 <= i < r.len() && 0 <= k < r[i].len() implies p(
                #[trigger] r[i][k],
            ) by {
                assert(split(s, sep)[i] == r[i]);
            }
        } else {
            let t = split(s, sep);
            assert forall|i: int, k: int| 0 <= i < r.len() && 0 <= k < r[i].len() implies p(
                #[trigger] r[i][k],
            ) by {
                if i == r.len() - 1 {
                    assert(t[i][k] == r[i][k]);
                } else {
                    assert(t[i] == r[i]);
                }
            }
            assert(t[r.len() - 1][r.last().len() as int] == s.last());
        }
        lemma_split_chars(s.drop_last(), sep, p);
        assert forall|k: int| 0 <= k < s.len() implies p(#[trigger] s[k]) || s[k] == sep by {
            if k < s.len() - 1 {
                assert(s[k] == s.drop_last()[k]);
            }
        }
    }
}

/// Each component made by a piece is among the components made by the
/// pieces.
pub proof fn lemma_piece_among(segs: Seq<Seq<char>>, i: int)
    requires
        0 <= i < segs.len(),
    ensures
        forall|c: Comp| piece_comps(segs[i]).contains(c) ==> pieces_comps(segs).contains(c),
    decreases segs.len(),
{
    let d = segs.drop_last();
    let whole = pieces_comps(segs);
    if i == segs.len() - 1 {
        assert forall|c: Comp| piece_comps(segs[i]).contains(c) implies whole.contains(c) by {
            let k = choose|k: int| 0 <= k < piece_comps(segs[i]).len() && piece_comps(segs[i])[k] == c;
            assert(whole[pieces_comps(d).len() + k] == c);
        }
    } else {
        lemma_piece_among(d, i);
        assert(d[i] == segs[i]);
        assert(whole == pieces_comps(d) + piece_comps(segs.last()));
        assert forall|c: Comp| piece_comps(segs[i]).contains(c) implies whole.contains(c) by {
            assert(pieces_comps(d).contains(c));
            let k = choose|k: int| 0 <= k < pieces_comps(d).len() && pieces_comps(d)[k] == c;
            assert(whole[k] == c);
        }
    }
}

/// When every character of the text satisfies `p`, so does every
/// character of every piece of its split.
pub proof fn lemma_split_pieces_from(s: Seq<char>, sep: char, p: spec_fn(char) -> bool)
    requires
        forall|k: int| 0 <= k < s.len() ==> p(#[trigger] s[k]),
    ensures
        pieces_satisfy(split(s, sep), p),
    decreases s.len(),
{
    if s.len() > 0 {
        let t = s.drop_last();
        assert forall|k: int| 0 <= k < t.len() implies p(#[trigger] t[k]) by {
            assert(t[k] == s[k]);
        }
        lemma_split_pieces_from(t, sep, p);
        lemma_split_len(t, sep);
        let r = split(t, sep);
        assert(p(s[s.len() - 1]));
        if s.last() != sep {
            let u = split(s, sep);
            assert forall|i: int, k: int| 0 <= i < u.len() && 0 <= k < u[i].len() implies p(
                #[trigger] u[i][k],
            ) by {
                if i == r.len() - 1 && k == r.last().len() {
                    assert(u[i][k] == s.last());
                } else if i == r.len() - 1 {
                    assert(u[i][k] == r[i][k]);
                } else {
                    assert(u[i] == r[i]);
                }
            }
        } else {
            let u = split(s, sep);
            assert forall|i: int, k: int| 0 <= i < u.len() && 0 <= k < u[i].len() implies p(
                #[trigger] u[i][k],
            ) by {
                assert(u[i] == r[i]);
            }
        }
    }
}

} // verus!
