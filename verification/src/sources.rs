//! The C/C++ sources of a project: every `.c`, `.cc` and `.cpp` file under
//! `src`, found by a walk of the folder that refuses symbolic links, too
//! deep a tree, too many sources and names that make cannot handle, then
//! sorted and checked to hold `src/main.cpp` and distinct object files.
use vstd::prelude::*;
use vstd::string::StringExecFns;
use crate::confine::{is_valid_build_path, valid_build_path};
use crate::order::{
    is_ranked, lemma_names_le_total, lemma_names_le_transitive, lemma_ranked_sorted,
    lemma_ranked_sorted_members, names_le, names_no_later, rank_sort, ranked, total_order, views_of,
    Ranked,
};
use crate::path::{
    comp_names, component_names, components, extension, join_path,
    name_extension, path_components, path_file_name, path_join, same_path, set_extension,
    with_extension,
};
use crate::rules::lowercase_chars;
use crate::templates::{lemma_object_list_is_plain, object_paths};
use crate::confine::is_path_char;
use crate::text::{ascii_lowercase, chars_of, owned, strings_view};
use crate::tree::{EntryKind, TreeEntry, MAX_TREE_DEPTH};

verus! {

/// The most sources a project may have.
pub const MAX_BUILD_SOURCES: usize = 256;

pub const NO_SRC_FOLDER: &'static str = "Le dossier src requis est absent";

pub const SOURCES_TOO_DEEP: &'static str = "Les sources C++ dépassent la profondeur autorisée";

pub const SYMLINK_IN_SRC: &'static str = "Les liens symboliques sont interdits dans src";

pub const NO_SOURCES: &'static str = "Aucun fichier C/C++ trouvé dans src";

pub const NO_MAIN: &'static str = "Le point d’entrée src/main.cpp est absent";

pub const UNCOMPILABLE_START: &'static str = "Chemin source non compilable : ";

pub const UNCOMPILABLE_END: &'static str = ". Utilise lettres, chiffres, _, - et .";

pub const TOO_MANY_SOURCES: &'static str = "Maximum 256 sources C/C++";

pub const SAME_OBJECT: &'static str = "Deux sources produisent le même objet : ";

/// Whether the file at `p` is a C or C++ source: its extension, in ASCII
/// lower case, is `c`, `cc` or `cpp`.
pub open spec fn is_c_source(p: Seq<char>) -> bool {
    match extension(p) {
        Some(e) => {
            let l = ascii_lowercase(e);
            l == "c"@ || l == "cc"@ || l == "cpp"@
        },
        None => false,
    }
}

/// The walk of a listing of the folder `dir` (relative to the project) at
/// `depth`, with the sources `acc` found before it.
pub open spec fn scan_dir(
    listing: Result<Vec<TreeEntry>, String>,
    dir: Seq<char>,
    depth: int,
    acc: Seq<Seq<char>>,
) -> Result<Seq<Seq<char>>, Seq<char>>
    decreases MAX_TREE_DEPTH - depth, 1int, 0int,
{
    match listing {
        Err(m) => Err(m@),
        Ok(v) => scan_entries(v@, 0, dir, depth, acc),
    }
}

/// The walk of the entries `es[i..]` of the folder `dir` at `depth`, in
/// their order, descending into each sub-folder as it comes.
pub open spec fn scan_entries(
    es: Seq<TreeEntry>,
    i: int,
    dir: Seq<char>,
    depth: int,
    acc: Seq<Seq<char>>,
) -> Result<Seq<Seq<char>>, Seq<char>>
    decreases MAX_TREE_DEPTH - depth, 0int, es.len() - i,
{
    if i < 0 || i >= es.len() {
        Ok(acc)
    } else {
        let rel = join_path(dir, es[i].name@);
        match es[i].kind {
            EntryKind::Failed(m) => Err(m@),
            EntryKind::Symlink => Err(SYMLINK_IN_SRC@),
            EntryKind::Dir(listing) => if depth + 1 > MAX_TREE_DEPTH {
                Err(SOURCES_TOO_DEEP@)
            } else {
                match scan_dir(listing, rel, depth + 1, acc) {
                    Err(m) => Err(m),
                    Ok(a) => scan_entries(es, i + 1, dir, depth, a),
                }
            },
            EntryKind::File => if is_c_source(rel) {
                if !is_valid_build_path(rel) {
                    Err(UNCOMPILABLE_START@ + rel + UNCOMPILABLE_END@)
                } else if acc.len() + 1 > MAX_BUILD_SOURCES {
                    Err(TOO_MANY_SOURCES@)
                } else {
                    scan_entries(es, i + 1, dir, depth, acc.push(rel))
                }
            } else {
                scan_entries(es, i + 1, dir, depth, acc)
            },
            EntryKind::Other => scan_entries(es, i + 1, dir, depth, acc),
        }
    }
}

/// A source path, ordered as `Path` orders paths: name by name.
pub struct SourcePath {
    pub path: String,
}

impl View for SourcePath {
    type V = Seq<char>;

    open spec fn view(&self) -> Seq<char> {
        self.path@
    }
}

impl Ranked for SourcePath {
    open spec fn view_le(a: Seq<char>, b: Seq<char>) -> bool {
        names_le(comp_names(components(a)), comp_names(components(b)))
    }

    fn comes_no_later(&self, other: &Self) -> (r: bool) {
        let a = component_names(&path_components(&chars_of(self.path.as_str())));
        let b = component_names(&path_components(&chars_of(other.path.as_str())));
        names_no_later(&a, &b)
    }
}

/// Whether `objs[i]` names the same path as one before it.
pub open spec fn repeated_at(objs: Seq<Seq<char>>, i: int) -> bool {
    exists|j: int| 0 <= j < i && components(#[trigger] objs[j]) == components(objs[i])
}

/// The first position, from `from` on, of an object that repeats an
/// earlier one, or -1.
pub open spec fn first_repeat(objs: Seq<Seq<char>>, from: int) -> int
    decreases objs.len() - from,
{
    if from < 0 || from >= objs.len() {
        -1
    } else if repeated_at(objs, from) {
        from
    } else {
        first_repeat(objs, from + 1)
    }
}

/// The object file each source compiles to.
pub open spec fn objects_of(sources: Seq<Seq<char>>) -> Seq<Seq<char>> {
    sources.map_values(|s: Seq<char>| with_extension(s, "o"@))
}

/// The sources found, sorted; refused when there are none, when
/// `src/main.cpp` is not among them, or when two give the same object file
/// (the message names the first object, in sorted order, already seen).
pub open spec fn checked_sources(found: Seq<Seq<char>>) -> Result<Seq<Seq<char>>, Seq<char>> {
    let sorted = ranked::<SourcePath>(found);
    let objs = objects_of(sorted);
    if sorted.len() == 0 {
        Err(NO_SOURCES@)
    } else if !(exists|i: int|
        0 <= i < sorted.len() && components(#[trigger] sorted[i]) == components(
            "src/main.cpp"@,
        )) {
        Err(NO_MAIN@)
    } else if first_repeat(objs, 0) >= 0 {
        Err(SAME_OBJECT@ + objs[first_repeat(objs, 0)])
    } else {
        Ok(sorted)
    }
}

/// The sources of a project whose `src` folder is (or is not) a folder and
/// has the listing `listing`.
pub open spec fn project_sources(src_is_dir: bool, listing: Result<Vec<TreeEntry>, String>) -> Result<
    Seq<Seq<char>>,
    Seq<char>,
> {
    if !src_is_dir {
        Err(NO_SRC_FOLDER@)
    } else {
        match scan_dir(listing, "src"@, 0, Seq::empty()) {
            Err(m) => Err(m),
            Ok(found) => checked_sources(found),
        }
    }
}

pub open spec fn sources_result_view(r: Result<Vec<String>, String>) -> Result<
    Seq<Seq<char>>,
    Seq<char>,
> {
    match r {
        Ok(v) => Ok(strings_view(v@)),
        Err(e) => Err(e@),
    }
}

fn c_source(rel: &str) -> (r: bool)
    ensures
        r == is_c_source(rel@),
{
    let name = match path_file_name(&chars_of(rel)) {
        Some(n) => n,
        None => {
            return false;
        },
    };
    match name_extension(&name) {
        Some(e) => {
            let l = lowercase_chars(&e);
            crate::path::chars_lit_eq(&l, "c") || crate::path::chars_lit_eq(&l, "cc")
                || crate::path::chars_lit_eq(&l, "cpp")
        },
        None => false,
    }
}

fn scan_listing(
    listing: &Result<Vec<TreeEntry>, String>,
    dir: &str,
    depth: usize,
    acc: &mut Vec<String>,
) -> (r: Result<(), String>)
    requires
        depth <= MAX_TREE_DEPTH,
        old(acc).len() <= MAX_BUILD_SOURCES,
    ensures
        final(acc).len() <= MAX_BUILD_SOURCES,
        match scan_dir(*listing, dir@, depth as int, strings_view(old(acc)@)) {
            Ok(a) => r is Ok && strings_view(final(acc)@) == a,
            Err(m) => r matches Err(e) && e@ == m,
        },
    decreases MAX_TREE_DEPTH - depth, 1int, 0int,
{
    match listing {
        Err(m) => Err(m.clone()),
        Ok(v) => scan_list(v, dir, depth, acc),
    }
}

fn scan_list(es: &Vec<TreeEntry>, dir: &str, depth: usize, acc: &mut Vec<String>) -> (r: Result<
    (),
    String,
>)
    requires
        depth <= MAX_TREE_DEPTH,
        old(acc).len() <= MAX_BUILD_SOURCES,
    ensures
        final(acc).len() <= MAX_BUILD_SOURCES,
        match scan_entries(es@, 0, dir@, depth as int, strings_view(old(acc)@)) {
            Ok(a) => r is Ok && strings_view(final(acc)@) == a,
            Err(m) => r matches Err(e) && e@ == m,
        },
    decreases MAX_TREE_DEPTH - depth, 0int, es.len(),
{
    let ghost goal = scan_entries(es@, 0, dir@, depth as int, strings_view(acc@));
    let mut i: usize = 0;
    while i < es.len()
        invariant
            i <= es.len(),
            depth <= MAX_TREE_DEPTH,
            acc.len() <= MAX_BUILD_SOURCES,
            goal == scan_entries(es@, 0, dir@, depth as int, strings_view(old(acc)@)),
            goal == scan_entries(es@, i as int, dir@, depth as int, strings_view(acc@)),
        decreases es.len() - i,
    {
        let e = &es[i];
        let rel = path_join(dir, e.name.as_str());
        let ghost before = strings_view(acc@);
        match &e.kind {
            EntryKind::Failed(m) => {
                proof {
                    assert(es@[i as int].kind == EntryKind::Failed(*m));
                    assert(goal == Err::<Seq<Seq<char>>, Seq<char>>(m@));
                }
                return Err(m.clone());
            },
            EntryKind::Symlink => {
                proof {
                    assert(goal == Err::<Seq<Seq<char>>, Seq<char>>(SYMLINK_IN_SRC@));
                }
                return Err(owned(SYMLINK_IN_SRC));
            },
            EntryKind::Dir(listing) => {
                if depth + 1 > MAX_TREE_DEPTH {
                    return Err(owned(SOURCES_TOO_DEEP));
                }
                match scan_listing(listing, rel.as_str(), depth + 1, acc) {
                    Err(m) => {
                        return Err(m);
                    },
                    Ok(()) => {},
                }
            },
            EntryKind::File => {
                if c_source(rel.as_str()) {
                    if !valid_build_path(rel.as_str()) {
                        let mut m = owned(UNCOMPILABLE_START);
                        m.append(rel.as_str());
                        m.append(UNCOMPILABLE_END);
                        return Err(m);
                    }
                    if acc.len() + 1 > MAX_BUILD_SOURCES {
                        return Err(owned(TOO_MANY_SOURCES));
                    }
                    acc.push(rel);
                    proof {
                        assert(strings_view(acc@) =~= before.push(acc@.last()@));
                    }
                }
            },
            EntryKind::Other => {},
        }
        i = i + 1;
    }
    Ok(())
}

/// The sorted object-file check: `Err` with the first repeated object.
fn find_repeat(sorted: &Vec<String>) -> (r: Result<(), String>)
    ensures
        match r {
            Ok(()) => first_repeat(objects_of(strings_view(sorted@)), 0) < 0,
            Err(e) => {
                let objs = objects_of(strings_view(sorted@));
                &&& first_repeat(objs, 0) >= 0
                &&& e@ == SAME_OBJECT@ + objs[first_repeat(objs, 0)]
            },
        },
{
    let ghost sv = strings_view(sorted@);
    let ghost objs = objects_of(sv);
    let mut objects: Vec<String> = Vec::new();
    let mut i: usize = 0;
    proof {
        reveal_strlit("o");
    }
    while i < sorted.len()
        invariant
            i <= sorted.len(),
            sv == strings_view(sorted@),
            objs == objects_of(sv),
            strings_view(objects@) == objs.take(i as int),
            objects.len() == i,
            objs.len() == sorted.len(),
            first_repeat(objs, 0) == first_repeat(objs, i as int),
        decreases sorted.len() - i,
    {
        proof {
            reveal_strlit("o");
        }
        let o = set_extension(&chars_of(sorted[i].as_str()), "o");
        proof {
            assert(objs[i as int] == o@);
        }
        let mut j: usize = 0;
        while j < i
            invariant
                j <= i < sorted.len(),
                objs == objects_of(sv),
                sv == strings_view(sorted@),
                strings_view(objects@) == objs.take(i as int),
                objects.len() == i,
                objs.len() == sorted.len(),
                first_repeat(objs, 0) == first_repeat(objs, i as int),
                objs[i as int] == o@,
                forall|k: int| 0 <= k < j ==> components(objs[k]) != components(objs[i as int]),
            decreases i - j,
        {
            proof {
                assert(objs.take(i as int)[j as int] == objects@[j as int]@);
            }
            if same_path(objects[j].as_str(), o.as_str()) {
                proof {
                    assert(repeated_at(objs, i as int));
                    assert(first_repeat(objs, i as int) == i);
                }
                let mut m = owned(SAME_OBJECT);
                m.append(o.as_str());
                return Err(m);
            }
            j = j + 1;
        }
        proof {
            assert(!repeated_at(objs, i as int));
        }
        let ghost before = objects@;
        objects.push(o);
        proof {
            assert(strings_view(objects@) =~= strings_view(before).push(objs[i as int]));
            assert(objs.take(i + 1) =~= objs.take(i as int).push(objs[i as int]));
        }
        i = i + 1;
    }
    Ok(())
}

fn check_sources(found: Vec<String>) -> (r: Result<Vec<String>, String>)
    ensures
        sources_result_view(r) == checked_sources(strings_view(found@)),
{
    let ghost fv = strings_view(found@);
    let mut wrapped: Vec<SourcePath> = Vec::new();
    let mut rest = found;
    let ghost mut k: int = 0;
    proof {
        assert(fv.skip(0) =~= fv);
        assert(views_of(wrapped@) =~= fv.take(0));
    }
    while rest.len() > 0
        invariant
            0 <= k <= fv.len(),
            strings_view(rest@) == fv.skip(k),
            views_of(wrapped@) == fv.take(k),
        decreases rest.len(),
    {
        let ghost before_rest = rest@;
        let ghost before = wrapped@;
        let p = rest.remove(0);
        proof {
            assert(strings_view(before_rest).len() == before_rest.len());
            assert(k < fv.len());
            assert(fv[k] == fv.skip(k)[0]);
            assert(strings_view(before_rest)[0] == p@);
            assert(rest@ =~= before_rest.skip(1));
            assert forall|i: int| 0 <= i < rest@.len() implies #[trigger] strings_view(rest@)[i]
                == fv.skip(k + 1)[i] by {
                assert(rest@[i] == before_rest[i + 1]);
                assert(strings_view(before_rest)[i + 1] == fv.skip(k)[i + 1]);
            }
            assert(strings_view(rest@) =~= fv.skip(k + 1));
        }
        wrapped.push(SourcePath { path: p });
        proof {
            assert(views_of(wrapped@) =~= views_of(before).push(fv[k]));
            assert(fv.take(k + 1) =~= fv.take(k).push(fv[k]));
            k = k + 1;
        }
    }
    proof {
        assert(fv.take(k) =~= fv);
    }
    let sorted_paths = rank_sort(wrapped);
    let mut sorted: Vec<String> = Vec::new();
    let mut i: usize = 0;
    while i < sorted_paths.len()
        invariant
            i <= sorted_paths.len(),
            strings_view(sorted@) == views_of(sorted_paths@).take(i as int),
        decreases sorted_paths.len() - i,
    {
        let ghost before = sorted@;
        sorted.push(sorted_paths[i].path.clone());
        proof {
            assert(strings_view(sorted@) =~= strings_view(before).push(sorted_paths@[i as int]@));
            assert(views_of(sorted_paths@).take(i + 1) =~= views_of(sorted_paths@).take(
                i as int,
            ).push(sorted_paths@[i as int]@));
        }
        i = i + 1;
    }
    proof {
        assert(views_of(sorted_paths@).take(sorted_paths.len() as int) =~= views_of(
            sorted_paths@,
        ));
    }
    let ghost sv = strings_view(sorted@);
    if sorted.len() == 0 {
        return Err(owned(NO_SOURCES));
    }
    let main = "src/main.cpp";
    let mut found_main = false;
    let mut m: usize = 0;
    while m < sorted.len()
        invariant
            m <= sorted.len(),
            sv == strings_view(sorted@),
            found_main == exists|i: int|
                0 <= i < m && components(#[trigger] sv[i]) == components(main@),
        decreases sorted.len() - m,
    {
        if same_path(sorted[m].as_str(), main) {
            proof {
                assert(components(sv[m as int]) == components(main@));
            }
            found_main = true;
        }
        m = m + 1;
    }
    if !found_main {
        return Err(owned(NO_MAIN));
    }
    match find_repeat(&sorted) {
        Err(e) => Err(e),
        Ok(()) => Ok(sorted),
    }
}

/// The C/C++ sources of a project, from whether its `src` is a folder and
/// the listing of that folder.
pub fn collect_cpp_sources(src_is_dir: bool, listing: Result<Vec<TreeEntry>, String>) -> (r: Result<
    Vec<String>,
    String,
>)
    ensures
        sources_result_view(r) == project_sources(src_is_dir, listing),
{
    if !src_is_dir {
        return Err(owned(NO_SRC_FOLDER));
    }
    let mut found: Vec<String> = Vec::new();
    proof {
        assert(strings_view(found@) =~= Seq::<Seq<char>>::empty());
    }
    match scan_listing(&listing, "src", 0, &mut found) {
        Err(m) => Err(m),
        Ok(()) => check_sources(found),
    }
}

// ---------------------------------------------------------------------------
// Laws
// ---------------------------------------------------------------------------
/// Whether every path of `v` is a C/C++ source with a name make can build.
pub open spec fn all_buildable(v: Seq<Seq<char>>) -> bool {
    forall|i: int| 0 <= i < v.len() ==> is_valid_build_path(#[trigger] v[i]) && is_c_source(v[i])
}

proof fn lemma_scan_dir(
    listing: Result<Vec<TreeEntry>, String>,
    dir: Seq<char>,
    depth: int,
    acc: Seq<Seq<char>>,
)
    requires
        all_buildable(acc),
        acc.len() <= MAX_BUILD_SOURCES,
    ensures
        scan_dir(listing, dir, depth, acc) matches Ok(a) ==> all_buildable(a) && a.len()
            <= MAX_BUILD_SOURCES,
    decreases MAX_TREE_DEPTH - depth, 1int, 0int,
{
    match listing {
        Err(_) => {},
        Ok(v) => lemma_scan_entries(v@, 0, dir, depth, acc),
    }
}

proof fn lemma_scan_entries(
    es: Seq<TreeEntry>,
    i: int,
    dir: Seq<char>,
    depth: int,
    acc: Seq<Seq<char>>,
)
    requires
        all_buildable(acc),
        acc.len() <= MAX_BUILD_SOURCES,
    ensures
        scan_entries(es, i, dir, depth, acc) matches Ok(a) ==> all_buildable(a) && a.len()
            <= MAX_BUILD_SOURCES,
    decreases MAX_TREE_DEPTH - depth, 0int, es.len() - i,
{
    if 0 <= i < es.len() {
        let rel = join_path(dir, es[i].name@);
        match es[i].kind {
            EntryKind::Dir(listing) => {
                if depth + 1 <= MAX_TREE_DEPTH {
                    lemma_scan_dir(listing, rel, depth + 1, acc);
                    match scan_dir(listing, rel, depth + 1, acc) {
                        Ok(a) => lemma_scan_entries(es, i + 1, dir, depth, a),
                        Err(_) => {},
                    }
                }
            },
            EntryKind::File => {
                if is_c_source(rel) {
                    if is_valid_build_path(rel) && acc.len() + 1 <= MAX_BUILD_SOURCES {
                        let b = acc.push(rel);
                        assert forall|k: int| 0 <= k < b.len() implies is_valid_build_path(
                            #[trigger] b[k],
                        ) && is_c_source(b[k]) by {
                            if k < acc.len() {
                                assert(b[k] == acc[k]);
                            }
                        }
                        lemma_scan_entries(es, i + 1, dir, depth, b);
                    }
                } else {
                    lemma_scan_entries(es, i + 1, dir, depth, acc);
                }
            },
            EntryKind::Other => lemma_scan_entries(es, i + 1, dir, depth, acc),
            _ => {},
        }
    }
}

/// Source paths are ordered by a total order.
pub proof fn lemma_source_order()
    ensures
        total_order::<SourcePath>(),
{
    assert forall|a: Seq<char>, b: Seq<char>|
        SourcePath::view_le(a, b) || SourcePath::view_le(b, a) by {
        lemma_names_le_total(comp_names(components(a)), comp_names(components(b)));
    }
    assert forall|a: Seq<char>, b: Seq<char>, c: Seq<char>|
        SourcePath::view_le(a, b) && SourcePath::view_le(b, c) implies SourcePath::view_le(
        a,
        c,
    ) by {
        lemma_names_le_transitive(
            comp_names(components(a)),
            comp_names(components(b)),
            comp_names(components(c)),
        );
    }
}

proof fn lemma_no_repeat(objs: Seq<Seq<char>>, from: int)
    requires
        0 <= from,
        first_repeat(objs, from) < 0,
    ensures
        forall|j: int| from <= j < objs.len() ==> !repeated_at(objs, j),
    decreases objs.len() - from,
{
    if from < objs.len() {
        lemma_no_repeat(objs, from + 1);
    }
}

/// The sources of a project, when found, are C/C++ files with names make
/// can build, at most `MAX_BUILD_SOURCES` of them, sorted as paths are;
/// `src/main.cpp` is among them, and no two give the same object file.
pub proof fn lemma_collected_sources(
    src_is_dir: bool,
    listing: Result<Vec<TreeEntry>, String>,
    v: Seq<Seq<char>>,
)
    requires
        project_sources(src_is_dir, listing) == Ok::<Seq<Seq<char>>, Seq<char>>(v),
    ensures
        all_buildable(v),
        v.len() <= MAX_BUILD_SOURCES,
        is_ranked::<SourcePath>(v),
        exists|i: int| 0 <= i < v.len() && components(#[trigger] v[i]) == components("src/main.cpp"@),
        forall|i: int, j: int|
            0 <= i < j < v.len() ==> components(#[trigger] objects_of(v)[i]) != components(
                #[trigger] objects_of(v)[j],
            ),
{
    assert(Seq::<Seq<char>>::empty().len() == 0);
    lemma_scan_dir(listing, "src"@, 0, Seq::empty());
    let found = scan_dir(listing, "src"@, 0, Seq::empty())->Ok_0;
    lemma_source_order();
    lemma_ranked_sorted::<SourcePath>(found);
    lemma_ranked_sorted_members::<SourcePath>(found);
    assert(v == ranked::<SourcePath>(found));
    assert forall|k: int| 0 <= k < v.len() implies is_valid_build_path(#[trigger] v[k])
        && is_c_source(v[k]) by {
        assert(found.contains(v[k]));
        let m = choose|m: int| 0 <= m < found.len() && found[m] == v[k];
        assert(is_valid_build_path(found[m]));
    }
    let objs = objects_of(v);
    assert(first_repeat(objs, 0) < 0);
    lemma_no_repeat(objs, 0);
    assert forall|i: int, j: int| 0 <= i < j < v.len() implies components(
        #[trigger] objects_of(v)[i],
    ) != components(#[trigger] objects_of(v)[j]) by {
        assert(!repeated_at(objs, j));
    }
}

/// The object list of the Makefile generated for the collected sources
/// holds only name characters, `/` and spaces.
pub proof fn lemma_collected_objects_are_plain(
    src_is_dir: bool,
    listing: Result<Vec<TreeEntry>, String>,
    v: Seq<Seq<char>>,
)
    requires
        project_sources(src_is_dir, listing) == Ok::<Seq<Seq<char>>, Seq<char>>(v),
    ensures
        forall|k: int|
            0 <= k < crate::path::join(object_paths(v), ' ').len() ==> is_path_char(
                #[trigger] crate::path::join(object_paths(v), ' ')[k],
            ) || crate::path::join(object_paths(v), ' ')[k] == ' ',
{
    lemma_collected_sources(src_is_dir, listing, v);
    assert forall|i: int| 0 <= i < v.len() implies is_valid_build_path(#[trigger] v[i]) by {}
    lemma_object_list_is_plain(v);
}

} // verus!
