//! The files of a project as the editor shows them: the tree of visible
//! items, and the checks made before an item is opened, saved, created,
//! renamed or deleted.
use vstd::prelude::*;
use vstd::string::StringExecFns;
use crate::order::{
    comes_first_in_text, is_ranked, lemma_ranked_sorted, lemma_ranked_sorted_members,
    lemma_text_le_is_string_order, lemma_text_le_total, lemma_text_le_transitive, rank_sort,
    ranked, text_le, text_no_later, total_order, views_of, Ranked,
};
use crate::confine::{path_parent, strip_prefix, strip_prefix_of, with_file_name, INVALID_PATH};
use crate::path::{
    components, file_name, is_absolute, is_inside, join, join_path, lemma_join_plain,
    path_file_name, path_inside, path_join, plain_name, same_path, Comp,
};
use crate::rules::{
    editable_project_file, hidden_project_item, is_editable, is_hidden, is_protected, is_valid_item_name,
    is_valid_name, is_writable, protected_project_path, valid_item_name, valid_name, writable_project_file, CONFIG_NAME,
};
use crate::project::NAME_REFUSED;
use crate::text::{outcome_view, text_result_view, byte_len, byte_len_at_most, chars_of, decimal, owned, push_decimal, replace_char, replaced, str_eq, string_of};
use crate::tree::{counts_as_file, EntryKind, TreeEntry, MAX_TREE_DEPTH};

verus! {

/// The most items the project tree shows.
pub const MAX_TREE_ENTRIES: usize = 1000;

pub const TREE_TOO_DEEP: &'static str = "L’arborescence dépasse la profondeur autorisée";

pub const TOO_MANY_ITEMS: &'static str = "Le projet contient trop d’éléments à afficher";

/// `str::to_lowercase` of `s` (the full Unicode lower-case mapping).
pub uninterp spec fn lowercase(s: Seq<char>) -> Seq<char>;

/// `str::to_lowercase`: the text in Unicode lower case. Its result is
/// named `lowercase(s)`; nothing else is claimed of it.
#[verifier::external_body]
fn to_lowercase(s: &str) -> (r: String)
    ensures
        r@ == lowercase(s@),
{
    s.to_lowercase()
}

/// An item of the project tree.
#[derive(Debug)]
pub struct ProjectFileEntry {
    pub path: String,
    pub name: String,
    pub is_dir: bool,
    pub depth: usize,
    pub read_only: bool,
}

pub struct FileEntryView {
    pub path: Seq<char>,
    pub name: Seq<char>,
    pub is_dir: bool,
    pub depth: nat,
    pub read_only: bool,
}

impl View for ProjectFileEntry {
    type V = FileEntryView;

    open spec fn view(&self) -> FileEntryView {
        FileEntryView {
            path: self.path@,
            name: self.name@,
            is_dir: self.is_dir,
            depth: self.depth as nat,
            read_only: self.read_only,
        }
    }
}

/// The place of a child in a listing, with what it is sorted by: folders
/// (and the like) before files, then the lower-cased name.
pub struct ChildKey {
    pub is_file: bool,
    pub key: String,
    pub index: usize,
}

impl View for ChildKey {
    type V = (bool, Seq<char>, usize);

    open spec fn view(&self) -> (bool, Seq<char>, usize) {
        (self.is_file, self.key@, self.index)
    }
}

impl Ranked for ChildKey {
    open spec fn view_le(a: (bool, Seq<char>, usize), b: (bool, Seq<char>, usize)) -> bool {
        (!a.0 && b.0) || (a.0 == b.0 && text_le(a.1, b.1))
    }

    fn comes_no_later(&self, other: &Self) -> (r: bool) {
        if self.is_file != other.is_file {
            !self.is_file
        } else {
            text_no_later(&chars_of(self.key.as_str()), &chars_of(other.key.as_str()))
        }
    }
}

/// The sort keys of the children of a listing, in listing order.
pub open spec fn child_keys(es: Seq<TreeEntry>) -> Seq<(bool, Seq<char>, usize)> {
    Seq::new(es.len(), |i: int| (counts_as_file(es[i]), lowercase(es[i].name@), i as usize))
}

/// The positions of the children in the order they are shown (a stable
/// sort of the listing).
pub open spec fn child_order(es: Seq<TreeEntry>) -> Seq<usize> {
    ranked::<ChildKey>(child_keys(es)).map_values(|k: (bool, Seq<char>, usize)| k.2)
}

/// The tree of a folder `dir` (relative to the project) at `depth`, after
/// the items `acc`.
pub open spec fn tree_dir(
    listing: Result<Vec<TreeEntry>, String>,
    dir: Seq<char>,
    depth: int,
    acc: Seq<FileEntryView>,
) -> Result<Seq<FileEntryView>, Seq<char>>
    decreases MAX_TREE_DEPTH - depth, 1int, 0int,
{
    match listing {
        Err(m) => Err(m@),
        Ok(v) => tree_children(v@, child_order(v@), 0, dir, depth, acc),
    }
}

/// The tree of the children `es`, taken in the order `order` from its
/// `i`th position: hidden items and symbolic links are left out, folders
/// are shown and walked, and files are shown when the editor opens them.
pub open spec fn tree_children(
    es: Seq<TreeEntry>,
    order: Seq<usize>,
    i: int,
    dir: Seq<char>,
    depth: int,
    acc: Seq<FileEntryView>,
) -> Result<Seq<FileEntryView>, Seq<char>>
    decreases MAX_TREE_DEPTH - depth, 0int, order.len() - i,
{
    if i < 0 || i >= order.len() {
        Ok(acc)
    } else if acc.len() >= MAX_TREE_ENTRIES {
        Err(TOO_MANY_ITEMS@)
    } else {
        let e = es[order[i] as int];
        let rel = join_path(dir, e.name@);
        if is_hidden(e.name@) {
            tree_children(es, order, i + 1, dir, depth, acc)
        } else {
            match e.kind {
                EntryKind::Failed(m) => Err(m@),
                EntryKind::Symlink => tree_children(es, order, i + 1, dir, depth, acc),
                EntryKind::Dir(listing) => {
                    let item = FileEntryView {
                        path: replace_char(rel, '\\', '/'),
                        name: e.name@,
                        is_dir: true,
                        depth: depth as nat,
                        read_only: false,
                    };
                    if depth + 1 > MAX_TREE_DEPTH {
                        Err(TREE_TOO_DEEP@)
                    } else {
                        match tree_dir(listing, rel, depth + 1, acc.push(item)) {
                            Err(m) => Err(m),
                            Ok(a) => tree_children(es, order, i + 1, dir, depth, a),
                        }
                    }
                },
                EntryKind::File => if is_editable(rel) {
                    let item = FileEntryView {
                        path: replace_char(rel, '\\', '/'),
                        name: e.name@,
                        is_dir: false,
                        depth: depth as nat,
                        read_only: !is_writable(rel),
                    };
                    tree_children(es, order, i + 1, dir, depth, acc.push(item))
                } else {
                    tree_children(es, order, i + 1, dir, depth, acc)
                },
                EntryKind::Other => tree_children(es, order, i + 1, dir, depth, acc),
            }
        }
    }
}

pub open spec fn entries_view(v: Seq<ProjectFileEntry>) -> Seq<FileEntryView> {
    v.map_values(|e: ProjectFileEntry| e@)
}

/// The order in which the children of a listing are shown.
fn order_children(es: &Vec<TreeEntry>) -> (r: Vec<usize>)
    ensures
        r@ == child_order(es@),
        forall|i: int| 0 <= i < r.len() ==> r@[i] < es.len(),
{
    let mut keys: Vec<ChildKey> = Vec::new();
    let mut i: usize = 0;
    while i < es.len()
        invariant
            i <= es.len(),
            views_of(keys@) == child_keys(es@).take(i as int),
        decreases es.len() - i,
    {
        let ghost before = keys@;
        let is_file = match &es[i].kind {
            EntryKind::File => true,
            EntryKind::Failed(_) => true,
            _ => false,
        };
        let key = to_lowercase(es[i].name.as_str());
        keys.push(ChildKey { is_file, key, index: i });
        proof {
            assert(views_of(keys@) =~= views_of(before).push(child_keys(es@)[i as int]));
            assert(child_keys(es@).take(i + 1) =~= child_keys(es@).take(i as int).push(
                child_keys(es@)[i as int],
            ));
        }
        i = i + 1;
    }
    proof {
        assert(child_keys(es@).take(es.len() as int) =~= child_keys(es@));
    }
    let sorted = rank_sort(keys);
    let ghost sv = views_of(sorted@);
    proof {
        crate::order::lemma_ranked_sorted_members::<ChildKey>(child_keys(es@));
    }
    let mut r: Vec<usize> = Vec::new();
    let mut j: usize = 0;
    while j < sorted.len()
        invariant
            j <= sorted.len(),
            sv == views_of(sorted@),
            sv == ranked::<ChildKey>(child_keys(es@)),
            forall|k: int| 0 <= k < sv.len() ==> child_keys(es@).contains(#[trigger] sv[k]),
            r@ == sv.take(j as int).map_values(|k: (bool, Seq<char>, usize)| k.2),
            forall|k: int| 0 <= k < r.len() ==> r@[k] < es.len(),
        decreases sorted.len() - j,
    {
        proof {
            assert(sv[j as int] == sorted@[j as int]@);
            assert(child_keys(es@).contains(sv[j as int]));
        }
        r.push(sorted[j].index);
        proof {
            assert(sv.take(j + 1).map_values(|k: (bool, Seq<char>, usize)| k.2) =~= sv.take(
                j as int,
            ).map_values(|k: (bool, Seq<char>, usize)| k.2).push(sv[j as int].2));
        }
        j = j + 1;
    }
    proof {
        assert(sv.take(sorted.len() as int) =~= sv);
    }
    r
}

fn tree_listing(
    listing: &Result<Vec<TreeEntry>, String>,
    dir: &str,
    depth: usize,
    acc: &mut Vec<ProjectFileEntry>,
) -> (r: Result<(), String>)
    requires
        depth <= MAX_TREE_DEPTH,
        old(acc).len() <= MAX_TREE_ENTRIES,
    ensures
        final(acc).len() <= MAX_TREE_ENTRIES,
        match tree_dir(*listing, dir@, depth as int, entries_view(old(acc)@)) {
            Ok(a) => r is Ok && entries_view(final(acc)@) == a,
            Err(m) => r matches Err(e) && e@ == m,
        },
    decreases MAX_TREE_DEPTH - depth, 1int, 0int,
{
    match listing {
        Err(m) => Err(m.clone()),
        Ok(v) => {
            let order = order_children(v);
            tree_list(v, &order, dir, depth, acc)
        },
    }
}

fn tree_list(
    es: &Vec<TreeEntry>,
    order: &Vec<usize>,
    dir: &str,
    depth: usize,
    acc: &mut Vec<ProjectFileEntry>,
) -> (r: Result<(), String>)
    requires
        depth <= MAX_TREE_DEPTH,
        old(acc).len() <= MAX_TREE_ENTRIES,
        forall|i: int| 0 <= i < order.len() ==> order@[i] < es.len(),
    ensures
        final(acc).len() <= MAX_TREE_ENTRIES,
        match tree_children(es@, order@, 0, dir@, depth as int, entries_view(old(acc)@)) {
            Ok(a) => r is Ok && entries_view(final(acc)@) == a,
            Err(m) => r matches Err(e) && e@ == m,
        },
    decreases MAX_TREE_DEPTH - depth, 0int, order.len(),
{
    let ghost goal = tree_children(es@, order@, 0, dir@, depth as int, entries_view(acc@));
    let mut i: usize = 0;
    while i < order.len()
        invariant
            i <= order.len(),
            depth <= MAX_TREE_DEPTH,
            acc.len() <= MAX_TREE_ENTRIES,
            forall|k: int| 0 <= k < order.len() ==> order@[k] < es.len(),
            goal == tree_children(es@, order@, 0, dir@, depth as int, entries_view(old(acc)@)),
            goal == tree_children(es@, order@, i as int, dir@, depth as int, entries_view(acc@)),
        decreases order.len() - i,
    {
        if acc.len() >= MAX_TREE_ENTRIES {
            return Err(owned(TOO_MANY_ITEMS));
        }
        let e = &es[order[i]];
        let ghost before = entries_view(acc@);
        if !hidden_project_item(e.name.as_str()) {
            let rel = path_join(dir, e.name.as_str());
            match &e.kind {
                EntryKind::Failed(m) => {
                    proof {
                        assert(goal == Err::<Seq<FileEntryView>, Seq<char>>(m@));
                    }
                    return Err(m.clone());
                },
                EntryKind::Symlink => {},
                EntryKind::Dir(listing) => {
                    acc.push(
                        ProjectFileEntry {
                            path: replaced(rel.as_str(), '\\', '/'),
                            name: e.name.clone(),
                            is_dir: true,
                            depth,
                            read_only: false,
                        },
                    );
                    proof {
                        assert(entries_view(acc@) =~= before.push(acc@.last()@));
                    }
                    if depth + 1 > MAX_TREE_DEPTH {
                        return Err(owned(TREE_TOO_DEEP));
                    }
                    match tree_listing(listing, rel.as_str(), depth + 1, acc) {
                        Err(m) => {
                            return Err(m);
                        },
                        Ok(()) => {},
                    }
                },
                EntryKind::File => {
                    if editable_project_file(rel.as_str()) {
                        acc.push(
                            ProjectFileEntry {
                                path: replaced(rel.as_str(), '\\', '/'),
                                name: e.name.clone(),
                                is_dir: false,
                                depth,
                                read_only: !writable_project_file(rel.as_str()),
                            },
                        );
                        proof {
                            assert(entries_view(acc@) =~= before.push(acc@.last()@));
                        }
                    }
                },
                EntryKind::Other => {},
            }
        }
        i = i + 1;
    }
    Ok(())
}

/// The project tree shown by the editor, from the listing of the project
/// folder: what `collect_project_files` gathers when it starts at the top.
pub open spec fn project_tree(listing: Result<Vec<TreeEntry>, String>) -> Result<
    Seq<FileEntryView>,
    Seq<char>,
> {
    tree_dir(listing, Seq::empty(), 0, Seq::empty())
}

pub open spec fn tree_result_view(r: Result<Vec<ProjectFileEntry>, String>) -> Result<
    Seq<FileEntryView>,
    Seq<char>,
> {
    match r {
        Ok(v) => Ok(entries_view(v@)),
        Err(e) => Err(e@),
    }
}

/// The items of the project tree, walked from the listing of the project
/// folder.
pub fn collect_project_files(listing: Result<Vec<TreeEntry>, String>) -> (r: Result<
    Vec<ProjectFileEntry>,
    String,
>)
    ensures
        tree_result_view(r) == project_tree(listing),
{
    let mut entries: Vec<ProjectFileEntry> = Vec::new();
    proof {
        assert(entries_view(entries@) =~= Seq::<FileEntryView>::empty());
        reveal_strlit("");
        assert(""@ =~= Seq::<char>::empty());
    }
    match tree_listing(&listing, "", 0, &mut entries) {
        Err(m) => Err(m),
        Ok(()) => Ok(entries),
    }
}

// ---------------------------------------------------------------------------
// Checks before opening, saving, creating, renaming and deleting
// ---------------------------------------------------------------------------
/// The largest text, in bytes, that the editor opens or saves.
pub const MAX_SOURCE_SIZE: usize = 2_000_000;

pub const NOT_OPENABLE: &'static str = "Ce fichier ne peut pas être ouvert dans l’éditeur";

pub const FILE_TOO_LARGE: &'static str = "Fichier trop volumineux";

pub const NOT_WRITABLE: &'static str = "Ce fichier n’est pas modifiable";

pub const SOURCE_TOO_LARGE: &'static str = "Source trop volumineuse";

pub const SOURCE_IS_SYMLINK: &'static str = "Le fichier source ne peut pas être un lien symbolique";

pub const BAD_ITEM_NAME: &'static str = "Nom invalide : 1 à 80 caractères, sans /, \\, : ni nom caché";

pub const BAD_NEW_NAME: &'static str = "Nouveau nom invalide";

pub const PARENT_NOT_DIR: &'static str = "Le parent doit être un dossier";

pub const ALREADY_EXISTS: &'static str = "Un élément du même nom existe déjà";

pub const EDITOR_EXTENSION_REFUSED: &'static str = "Extension de fichier non autorisée dans l’éditeur";

pub const EXTENSION_REFUSED: &'static str = "Extension de fichier non autorisée";

pub const BAD_PATH: &'static str = "Chemin invalide";

pub const CANNOT_RENAME: &'static str = "Cet élément est requis par le projet et ne peut pas être renommé";

pub const CANNOT_DELETE: &'static str = "Cet élément est requis par le projet et ne peut pas être supprimé";

pub const PROJECT_OUTSIDE: &'static str = "Le projet sort du dossier autorisé";

pub const PROJECT_UNSAFE: &'static str = "Projet non sûr ou invalide";

pub const PATH_OUTSIDE: &'static str = "Le chemin sort du projet";

pub const SYMLINK_REFUSED: &'static str = "Les liens symboliques sont interdits";

pub const BAD_FILE_NAME: &'static str = "Nom de fichier invalide";

/// `Ok`, or `Err(message)` when `refused`.
pub open spec fn verdict(refused: bool, message: Seq<char>) -> Result<(), Seq<char>> {
    if refused {
        Err(message)
    } else {
        Ok(())
    }
}

fn refuse_if(refused: bool, message: &str) -> (r: Result<(), String>)
    ensures
        outcome_view(r) == verdict(refused, message@),
{
    if refused {
        Err(owned(message))
    } else {
        Ok(())
    }
}

/// The folder of the project `name` under the projects folder `root`.
pub fn project_dir(root: &str, name: &str) -> (r: Result<String, String>)
    ensures
        text_result_view(r) == if is_valid_name(name@) {
            Ok::<Seq<char>, Seq<char>>(join_path(root@, name@))
        } else {
            Err(NAME_REFUSED@)
        },
{
    if !valid_name(name) {
        return Err(owned(NAME_REFUSED));
    }
    Ok(path_join(root, name))
}

/// The folder of a project with a valid name lies strictly inside the
/// projects folder, exactly one name below it.
pub proof fn lemma_project_dir_inside(root: Seq<char>, name: Seq<char>)
    requires
        is_valid_name(name),
    ensures
        components(join_path(root, name)) == components(root).push(Comp::Normal(name)),
        is_inside(root, join_path(root, name)),
{
    let ns = seq![name];
    assert(join(ns, '/') == name);
    assert(plain_name(name)) by {
        assert(crate::rules::is_name_char(name[0]));
        if name == seq!['.'] || name == seq!['.', '.'] {
            assert(name[0] == '.');
        }
        assert forall|k: int| 0 <= k < name.len() implies name[k] != '/' by {
            assert(crate::rules::is_name_char(name[k]));
        }
    }
    assert forall|i: int| 0 <= i < ns.len() implies plain_name(#[trigger] ns[i]) by {}
    lemma_join_plain(root, ns);
    assert(ns.map_values(|n: Seq<char>| Comp::Normal(n)) =~= seq![Comp::Normal(name)]);
    let whole = components(join_path(root, name));
    assert(components(root) + seq![Comp::Normal(name)] =~= components(root).push(Comp::Normal(name)));
    assert(whole.take(components(root).len() as int) =~= components(root));
}

/// A project folder (resolved) must lie strictly inside the projects
/// folder (resolved).
pub fn check_project_location(root: &str, directory: &str) -> (r: Result<(), String>)
    ensures
        outcome_view(r) == verdict(!is_inside(root@, directory@), PROJECT_OUTSIDE@),
{
    refuse_if(!path_inside(root, directory), PROJECT_OUTSIDE)
}

/// A project folder must be a real folder, not a symbolic link.
pub fn check_project_kind(is_symlink: bool, is_dir: bool) -> (r: Result<(), String>)
    ensures
        outcome_view(r) == verdict(is_symlink || !is_dir, PROJECT_UNSAFE@),
{
    refuse_if(is_symlink || !is_dir, PROJECT_UNSAFE)
}

/// An item named by the user must not be a symbolic link.
pub fn check_not_symlink(is_symlink: bool) -> (r: Result<(), String>)
    ensures
        outcome_view(r) == verdict(is_symlink, SYMLINK_REFUSED@),
{
    refuse_if(is_symlink, SYMLINK_REFUSED)
}

/// An item named by the user, once resolved, must lie strictly inside the
/// project folder.
pub fn check_inside_project(directory: &str, resolved: &str) -> (r: Result<(), String>)
    ensures
        outcome_view(r) == verdict(!is_inside(directory@, resolved@), PATH_OUTSIDE@),
{
    refuse_if(!path_inside(directory, resolved), PATH_OUTSIDE)
}

/// The main source of a project: `script.lua` for Lua, else
/// `src/main.cpp`.
pub open spec fn main_source(language: Seq<char>) -> Seq<char> {
    if language == "lua"@ {
        "script.lua"@
    } else {
        "src/main.cpp"@
    }
}

pub fn main_source_path(language: &str) -> (r: &'static str)
    ensures
        r@ == main_source(language@),
{
    proof {
        reveal_strlit("lua");
    }
    if str_eq(language, "lua") {
        "script.lua"
    } else {
        "src/main.cpp"
    }
}

/// A main source may be saved when it has at most `MAX_SOURCE_SIZE` bytes.
pub fn check_main_source_size(source: &str) -> (r: Result<(), String>)
    ensures
        outcome_view(r) == verdict(byte_len(source@) > MAX_SOURCE_SIZE, SOURCE_TOO_LARGE@),
{
    refuse_if(!byte_len_at_most(source, MAX_SOURCE_SIZE), SOURCE_TOO_LARGE)
}

/// The main source is never written through a symbolic link.
pub fn check_main_source_target(is_symlink: bool) -> (r: Result<(), String>)
    ensures
        outcome_view(r) == verdict(is_symlink, SOURCE_IS_SYMLINK@),
{
    refuse_if(is_symlink, SOURCE_IS_SYMLINK)
}

/// A project file may be saved when the text has at most
/// `MAX_SOURCE_SIZE` bytes.
pub fn check_file_text_size(source: &str) -> (r: Result<(), String>)
    ensures
        outcome_view(r) == verdict(byte_len(source@) > MAX_SOURCE_SIZE, FILE_TOO_LARGE@),
{
    refuse_if(!byte_len_at_most(source, MAX_SOURCE_SIZE), FILE_TOO_LARGE)
}

/// A project file may be opened in the editor when it is a file the editor
/// opens and not the project configuration.
pub fn check_openable(relative: &str, is_file: bool) -> (r: Result<(), String>)
    ensures
        outcome_view(r) == verdict(
            !is_file || !is_editable(relative@) || components(relative@) == components(
                CONFIG_NAME@,
            ),
            NOT_OPENABLE@,
        ),
{
    refuse_if(
        !is_file || !editable_project_file(relative) || same_path(relative, CONFIG_NAME),
        NOT_OPENABLE,
    )
}

/// A file is opened only when it has at most `MAX_SOURCE_SIZE` bytes.
pub fn check_file_size(size: u64) -> (r: Result<(), String>)
    ensures
        outcome_view(r) == verdict(size > MAX_SOURCE_SIZE, FILE_TOO_LARGE@),
{
    refuse_if(size > MAX_SOURCE_SIZE as u64, FILE_TOO_LARGE)
}

/// A project file may be saved when it is a file the editor writes.
pub fn check_saveable(relative: &str, is_file: bool) -> (r: Result<(), String>)
    ensures
        outcome_view(r) == verdict(!is_file || !is_writable(relative@), NOT_WRITABLE@),
{
    refuse_if(!is_file || !writable_project_file(relative), NOT_WRITABLE)
}

/// The name of a new item.
pub fn check_item_name(name: &str) -> (r: Result<(), String>)
    ensures
        outcome_view(r) == verdict(!is_valid_item_name(name@), BAD_ITEM_NAME@),
{
    refuse_if(!valid_item_name(name), BAD_ITEM_NAME)
}

/// The new name of a renamed item.
pub fn check_new_name(name: &str) -> (r: Result<(), String>)
    ensures
        outcome_view(r) == verdict(!is_valid_item_name(name@), BAD_NEW_NAME@),
{
    refuse_if(!valid_item_name(name), BAD_NEW_NAME)
}

/// A new item goes into a folder.
pub fn check_parent(is_dir: bool) -> (r: Result<(), String>)
    ensures
        outcome_view(r) == verdict(!is_dir, PARENT_NOT_DIR@),
{
    refuse_if(!is_dir, PARENT_NOT_DIR)
}

/// Nothing is created or renamed over an existing item.
pub fn check_absent(exists: bool) -> (r: Result<(), String>)
    ensures
        outcome_view(r) == verdict(exists, ALREADY_EXISTS@),
{
    refuse_if(exists, ALREADY_EXISTS)
}

/// The path, relative to the project folder `directory`, of a new item at
/// `target` (an absolute path), with `\` written as `/`; a new file must
/// be one the editor opens.
pub open spec fn new_item(directory: Seq<char>, target: Seq<char>, is_dir: bool) -> Result<
    Seq<char>,
    Seq<char>,
> {
    match strip_prefix(target, directory) {
        None => Err(INVALID_PATH@),
        Some(rel) => if !is_dir && !is_editable(rel) {
            Err(EDITOR_EXTENSION_REFUSED@)
        } else {
            Ok(replace_char(rel, '\\', '/'))
        },
    }
}

pub fn new_item_path(directory: &str, target: &str, is_dir: bool) -> (r: Result<String, String>)
    requires
        is_absolute(target@),
    ensures
        text_result_view(r) == new_item(directory@, target@, is_dir),
{
    let rel = match strip_prefix_of(&chars_of(target), &chars_of(directory)) {
        Some(rel) => rel,
        None => {
            return Err(owned(INVALID_PATH));
        },
    };
    if !is_dir && !editable_project_file(rel.as_str()) {
        return Err(owned(EDITOR_EXTENSION_REFUSED));
    }
    Ok(replaced(rel.as_str(), '\\', '/'))
}

/// The items that a project cannot do without are not renamed.
pub fn check_renamable(relative: &str) -> (r: Result<(), String>)
    ensures
        outcome_view(r) == verdict(is_protected(relative@), CANNOT_RENAME@),
{
    refuse_if(protected_project_path(relative), CANNOT_RENAME)
}

/// The items that a project cannot do without are not deleted.
pub fn check_deletable(relative: &str) -> (r: Result<(), String>)
    ensures
        outcome_view(r) == verdict(is_protected(relative@), CANNOT_DELETE@),
{
    refuse_if(protected_project_path(relative), CANNOT_DELETE)
}

/// A rename of an item to the absolute `destination`: refused (outer
/// `Err`) when a file would get a path outside the project or an extension
/// the editor does not open; otherwise done, after which the answer is the
/// destination relative to the project, with `\` written as `/`.
pub open spec fn rename_plan(directory: Seq<char>, destination: Seq<char>, is_file: bool) -> Result<
    Result<Seq<char>, Seq<char>>,
    Seq<char>,
> {
    let after = match strip_prefix(destination, directory) {
        None => Err(BAD_PATH@),
        Some(rel) => Ok(replace_char(rel, '\\', '/')),
    };
    if is_file {
        match strip_prefix(destination, directory) {
            None => Err(BAD_PATH@),
            Some(rel) => if !is_editable(rel) {
                Err(EXTENSION_REFUSED@)
            } else {
                Ok(after)
            },
        }
    } else {
        Ok(after)
    }
}

pub open spec fn plan_view(r: Result<Result<String, String>, String>) -> Result<
    Result<Seq<char>, Seq<char>>,
    Seq<char>,
> {
    match r {
        Ok(inner) => Ok(text_result_view(inner)),
        Err(e) => Err(e@),
    }
}

pub fn rename_outcome(directory: &str, destination: &str, is_file: bool) -> (r: Result<
    Result<String, String>,
    String,
>)
    requires
        is_absolute(destination@),
    ensures
        plan_view(r) == rename_plan(directory@, destination@, is_file),
{
    let rel = strip_prefix_of(&chars_of(destination), &chars_of(directory));
    match rel {
        None => {
            if is_file {
                Err(owned(BAD_PATH))
            } else {
                Ok(Err(owned(BAD_PATH)))
            }
        },
        Some(rel) => {
            if is_file && !editable_project_file(rel.as_str()) {
                return Err(owned(EXTENSION_REFUSED));
            }
            Ok(Ok(replaced(rel.as_str(), '\\', '/')))
        },
    }
}

/// The temporary name under which a file at `path` is written before it
/// replaces it: `.{name}.{pid}.psp-reborn-writing` next to it.
pub open spec fn atomic_name(path: Seq<char>, pid: nat) -> Result<Seq<char>, Seq<char>> {
    match file_name(path) {
        None => Err(BAD_FILE_NAME@),
        Some(n) => Ok(
            with_file_name(path, "."@ + n + "."@ + decimal(pid) + ".psp-reborn-writing"@),
        ),
    }
}

pub fn atomic_temporary(path: &str, pid: u32) -> (r: Result<String, String>)
    requires
        is_absolute(path@),
    ensures
        text_result_view(r) == atomic_name(path@, pid as nat),
{
    let p = chars_of(path);
    let name = match path_file_name(&p) {
        Some(n) => n,
        None => {
            return Err(owned(BAD_FILE_NAME));
        },
    };
    let mut temporary = owned(".");
    temporary.append(string_of(&name).as_str());
    temporary.push('.');
    push_decimal(&mut temporary, pid as usize);
    temporary.append(".psp-reborn-writing");
    proof {
        reveal_strlit(".");
        assert(temporary@ =~= "."@ + name@ + "."@ + decimal(pid as nat) + ".psp-reborn-writing"@);
    }
    let parent = path_parent(&p);
    Ok(path_join(parent.as_str(), temporary.as_str()))
}

// ---------------------------------------------------------------------------
// Laws
// ---------------------------------------------------------------------------
/// What is true of every item of the tree: it is not hidden, it is at most
/// `MAX_TREE_DEPTH` levels down, and a folder is never read-only.
pub open spec fn shown_item(e: FileEntryView) -> bool {
    &&& !is_hidden(e.name)
    &&& e.depth <= MAX_TREE_DEPTH
    &&& (e.is_dir ==> !e.read_only)
}

pub open spec fn all_shown(v: Seq<FileEntryView>) -> bool {
    forall|i: int| 0 <= i < v.len() ==> shown_item(#[trigger] v[i])
}

proof fn lemma_tree_dir(
    listing: Result<Vec<TreeEntry>, String>,
    dir: Seq<char>,
    depth: int,
    acc: Seq<FileEntryView>,
)
    requires
        0 <= depth <= MAX_TREE_DEPTH,
        all_shown(acc),
        acc.len() <= MAX_TREE_ENTRIES,
    ensures
        tree_dir(listing, dir, depth, acc) matches Ok(a) ==> all_shown(a) && a.len()
            <= MAX_TREE_ENTRIES,
    decreases MAX_TREE_DEPTH - depth, 1int, 0int,
{
    match listing {
        Err(_) => {},
        Ok(v) => lemma_tree_children(v@, child_order(v@), 0, dir, depth, acc),
    }
}

proof fn lemma_tree_children(
    es: Seq<TreeEntry>,
    order: Seq<usize>,
    i: int,
    dir: Seq<char>,
    depth: int,
    acc: Seq<FileEntryView>,
)
    requires
        0 <= depth <= MAX_TREE_DEPTH,
        all_shown(acc),
        acc.len() <= MAX_TREE_ENTRIES,
    ensures
        tree_children(es, order, i, dir, depth, acc) matches Ok(a) ==> all_shown(a) && a.len()
            <= MAX_TREE_ENTRIES,
    decreases MAX_TREE_DEPTH - depth, 0int, order.len() - i,
{
    if 0 <= i < order.len() && acc.len() < MAX_TREE_ENTRIES {
        let e = es[order[i] as int];
        let rel = join_path(dir, e.name@);
        if is_hidden(e.name@) {
            lemma_tree_children(es, order, i + 1, dir, depth, acc);
        } else {
            match e.kind {
                EntryKind::Symlink => lemma_tree_children(es, order, i + 1, dir, depth, acc),
                EntryKind::Other => lemma_tree_children(es, order, i + 1, dir, depth, acc),
                EntryKind::Dir(listing) => {
                    let item = FileEntryView {
                        path: replace_char(rel, '\\', '/'),
                        name: e.name@,
                        is_dir: true,
                        depth: depth as nat,
                        read_only: false,
                    };
                    let b = acc.push(item);
                    assert forall|k: int| 0 <= k < b.len() implies shown_item(#[trigger] b[k]) by {
                        if k < acc.len() {
                            assert(b[k] == acc[k]);
                        }
                    }
                    if depth + 1 <= MAX_TREE_DEPTH {
                        lemma_tree_dir(listing, rel, depth + 1, b);
                        match tree_dir(listing, rel, depth + 1, b) {
                            Ok(a) => lemma_tree_children(es, order, i + 1, dir, depth, a),
                            Err(_) => {},
                        }
                    }
                },
                EntryKind::File => {
                    if is_editable(rel) {
                        let item = FileEntryView {
                            path: replace_char(rel, '\\', '/'),
                            name: e.name@,
                            is_dir: false,
                            depth: depth as nat,
                            read_only: !is_writable(rel),
                        };
                        let b = acc.push(item);
                        assert forall|k: int| 0 <= k < b.len() implies shown_item(#[trigger] b[k]) by {
                            if k < acc.len() {
                                assert(b[k] == acc[k]);
                            }
                        }
                        lemma_tree_children(es, order, i + 1, dir, depth, b);
                    } else {
                        lemma_tree_children(es, order, i + 1, dir, depth, acc);
                    }
                },
                _ => {},
            }
        }
    }
}

/// The project tree never shows a hidden item (dot files, the
/// configuration, generated outputs, runtime files, object files), never
/// more than `MAX_TREE_ENTRIES` items, never an item deeper than
/// `MAX_TREE_DEPTH`, and never a read-only folder.
pub proof fn lemma_tree_shows_visible_items(listing: Result<Vec<TreeEntry>, String>)
    ensures
        project_tree(listing) matches Ok(a) ==> all_shown(a) && a.len() <= MAX_TREE_ENTRIES,
{
    lemma_tree_dir(listing, Seq::empty(), 0, Seq::empty());
}

/// Children are ordered by a total order.
pub proof fn lemma_child_order_total()
    ensures
        total_order::<ChildKey>(),
{
    assert forall|a: (bool, Seq<char>, usize), b: (bool, Seq<char>, usize)|
        ChildKey::view_le(a, b) || ChildKey::view_le(b, a) by {
        lemma_text_le_total(a.1, b.1);
    }
    assert forall|a: (bool, Seq<char>, usize), b: (bool, Seq<char>, usize), c: (
        bool,
        Seq<char>,
        usize,
    )| ChildKey::view_le(a, b) && ChildKey::view_le(b, c) implies ChildKey::view_le(a, c) by {
        if a.0 == b.0 && b.0 == c.0 {
            lemma_text_le_transitive(a.1, b.1, c.1);
        }
    }
}

/// The children of a folder are shown folders (and links and the like)
/// first, then files; among children of the same kind, in the string order
/// of their lower-cased names. Every position shown is a child of the
/// listing, each child shown once.
pub proof fn lemma_children_shown_in_order(es: Seq<TreeEntry>)
    requires
        es.len() <= usize::MAX,
    ensures
        child_order(es).len() == es.len(),
        forall|p: int| 0 <= p < child_order(es).len() ==> #[trigger] child_order(es)[p] < es.len(),
        forall|p: int, q: int|
            0 <= p < q < child_order(es).len() ==> #[trigger] child_order(es)[p] != #[trigger] child_order(
                es,
            )[q],
        forall|p: int, q: int|
            0 <= p < q < child_order(es).len() ==> {
                let x = es[#[trigger] child_order(es)[p] as int];
                let y = es[#[trigger] child_order(es)[q] as int];
                &&& (counts_as_file(x) ==> counts_as_file(y))
                &&& (counts_as_file(x) == counts_as_file(y) ==> comes_first_in_text(
                    lowercase(x.name@),
                    lowercase(y.name@),
                ))
            },
{
    let keys = child_keys(es);
    let sv = ranked::<ChildKey>(keys);
    let order = child_order(es);
    lemma_child_order_total();
    lemma_ranked_sorted::<ChildKey>(keys);
    lemma_ranked_sorted_members::<ChildKey>(keys);
    assert forall|p: int| 0 <= p < sv.len() implies #[trigger] sv[p] == keys[sv[p].2 as int]
        && sv[p].2 < es.len() by {
        assert(keys.contains(sv[p]));
        let m = choose|m: int| 0 <= m < keys.len() && keys[m] == sv[p];
        assert(keys[m].2 == m as usize);
    }
    assert forall|p: int| 0 <= p < order.len() implies #[trigger] order[p] < es.len() by {
        assert(order[p] == sv[p].2);
        assert(sv[p] == keys[sv[p].2 as int] && sv[p].2 < es.len());
    }
    assert forall|p: int, q: int| 0 <= p < q < order.len() implies #[trigger] order[p]
        != #[trigger] order[q] by {
        assert(order[p] == sv[p].2 && order[q] == sv[q].2);
        assert(sv[p] == keys[sv[p].2 as int] && sv[q] == keys[sv[q].2 as int]);
        if order[p] == order[q] {
            // the same child twice would be counted twice by the sort
            broadcast use vstd::seq_lib::group_to_multiset_ensures;

            assert(sv[p] == sv[q]);
            lemma_keys_distinct(es);
            lemma_count_two(sv, p, q);
            let m = sv[p].2 as int;
            assert(keys.to_multiset().count(keys[m]) == 1);
        }
    }
    assert forall|p: int, q: int| 0 <= p < q < order.len() implies {
        let x = es[#[trigger] order[p] as int];
        let y = es[#[trigger] order[q] as int];
        &&& (counts_as_file(x) ==> counts_as_file(y))
        &&& (counts_as_file(x) == counts_as_file(y) ==> comes_first_in_text(
            lowercase(x.name@),
            lowercase(y.name@),
        ))
    } by {
        assert(order[p] == sv[p].2 && order[q] == sv[q].2);
        assert(sv[p] == keys[sv[p].2 as int] && sv[q] == keys[sv[q].2 as int]);
        assert(ChildKey::view_le(sv[p], sv[q]));
        lemma_text_le_is_string_order(sv[p].1, sv[q].1);
    }
}

proof fn lemma_keys_distinct(es: Seq<TreeEntry>)
    requires
        es.len() <= usize::MAX,
    ensures
        forall|i: int| 0 <= i < es.len() ==> child_keys(es).to_multiset().count(
            #[trigger] child_keys(es)[i],
        ) == 1,
{
    let keys = child_keys(es);
    assert forall|i: int| 0 <= i < es.len() implies keys.to_multiset().count(#[trigger] keys[i])
        == 1 by {
        assert forall|m: int| 0 <= m < keys.len() && keys[m] == keys[i] implies m == i by {
            assert(keys[m].2 == m as usize && keys[i].2 == i as usize);
        }
        lemma_count_unique(keys, keys[i], i);
    }
}

proof fn lemma_count_unique<A>(s: Seq<A>, x: A, i: int)
    requires
        0 <= i < s.len(),
        s[i] == x,
        forall|m: int| 0 <= m < s.len() && s[m] == x ==> m == i,
    ensures
        s.to_multiset().count(x) == 1,
    decreases s.len(),
{
    broadcast use vstd::seq_lib::group_to_multiset_ensures;

    let d = s.drop_last();
    assert(s =~= d.push(s.last()));
    if i == s.len() - 1 {
        assert(!d.contains(x)) by {
            if d.contains(x) {
                let m = choose|m: int| 0 <= m < d.len() && d[m] == x;
                assert(s[m] == x);
            }
        }
    } else {
        assert forall|m: int| 0 <= m < d.len() && d[m] == x implies m == i by {
            assert(s[m] == x);
        }
        lemma_count_unique(d, x, i);
    }
}

proof fn lemma_count_two<A>(s: Seq<A>, p: int, q: int)
    requires
        0 <= p < q < s.len(),
        s[p] == s[q],
    ensures
        s.to_multiset().count(s[p]) >= 2,
    decreases s.len(),
{
    broadcast use vstd::seq_lib::group_to_multiset_ensures;

    let d = s.drop_last();
    assert(s =~= d.push(s.last()));
    if q == s.len() - 1 {
        assert(d[p] == s[p]);
        assert(d.contains(s[p]));
    } else {
        assert(d[p] == s[p] && d[q] == s[q]);
        lemma_count_two(d, p, q);
    }
}

} // verus!
