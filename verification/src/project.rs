//! Projects: their configuration, the catalog of projects found in the
//! projects folder, and what a new project is made of.
use vstd::prelude::*;
use vstd::string::StringExecFns;
use crate::order::{
    is_ranked, lemma_ranked_sorted, lemma_text_le_total, lemma_text_le_transitive, rank_sort,
    ranked, text_le, text_no_later, total_order, views_of, Ranked,
};
use crate::rules::{is_valid_choice, is_valid_name, opt_view, valid_name, valid_project_choice};
use crate::templates::{
    cpp_source, cpp_source_template, lua_source, lua_source_template, makefile, makefile_template,
};
use crate::text::{chars_of, option_view, owned, str_eq, strings_view};

verus! {

/// The configuration of a project, as its `psp-project.json` holds it.
#[derive(Debug)]
pub struct Project {
    pub name: String,
    pub language: String,
    pub template: String,
    pub runtime_version: Option<String>,
    pub kernel_mode: bool,
}

/// What a project configuration says, as the contracts read it.
pub struct ProjectView {
    pub name: Seq<char>,
    pub language: Seq<char>,
    pub template: Seq<char>,
    pub runtime_version: Option<Seq<char>>,
    pub kernel_mode: bool,
}

impl View for Project {
    type V = ProjectView;

    open spec fn view(&self) -> ProjectView {
        ProjectView {
            name: self.name@,
            language: self.language@,
            template: self.template@,
            runtime_version: option_view(self.runtime_version),
            kernel_mode: self.kernel_mode,
        }
    }
}

/// Projects are listed by name.
impl Ranked for Project {
    open spec fn view_le(a: ProjectView, b: ProjectView) -> bool {
        text_le(a.name, b.name)
    }

    fn comes_no_later(&self, other: &Self) -> (r: bool) {
        text_no_later(&chars_of(self.name.as_str()), &chars_of(other.name.as_str()))
    }
}

/// The configuration of a new project: kernel mode is always off.
pub fn default_project(
    name: String,
    language: String,
    template: String,
    runtime_version: Option<String>,
) -> (r: Project)
    ensures
        r@ == (ProjectView {
            name: name@,
            language: language@,
            template: template@,
            runtime_version: option_view(runtime_version),
            kernel_mode: false,
        }),
{
    Project { name, language, template, runtime_version, kernel_mode: false }
}

// ---------------------------------------------------------------------------
// The catalog of projects
// ---------------------------------------------------------------------------
/// An entry of the projects folder: its name, whether it is a folder, and
/// its configuration when one could be read.
#[derive(Debug)]
pub struct ProjectFolder {
    pub name: String,
    pub is_dir: bool,
    pub config: Option<Project>,
}

/// Whether a folder entry is listed: a folder with a valid name, whose
/// configuration names it, keeps kernel mode off and makes an accepted
/// choice of language, template and runtime.
pub open spec fn is_listed(f: ProjectFolder) -> bool {
    &&& f.is_dir
    &&& is_valid_name(f.name@)
    &&& match f.config {
        Some(p) => {
            &&& p.name@ == f.name@
            &&& !p.kernel_mode
            &&& is_valid_choice(p.language@, p.template@, option_view(p.runtime_version))
        },
        None => false,
    }
}

/// The configurations of the listed entries, in the order of the entries.
pub open spec fn listed(fs: Seq<ProjectFolder>) -> Seq<Project>
    decreases fs.len(),
{
    if fs.len() == 0 {
        Seq::empty()
    } else if is_listed(fs.last()) {
        listed(fs.drop_last()).push(fs.last().config.unwrap())
    } else {
        listed(fs.drop_last())
    }
}

/// The catalog: the listed projects, sorted by name.
pub open spec fn catalog_of(fs: Seq<ProjectFolder>) -> Seq<ProjectView> {
    ranked::<Project>(views_of(listed(fs)))
}

fn listed_folder(f: &ProjectFolder) -> (r: bool)
    ensures
        r == is_listed(*f),
{
    if !f.is_dir || !valid_name(f.name.as_str()) {
        return false;
    }
    match &f.config {
        Some(p) => {
            let runtime = match &p.runtime_version {
                Some(r) => Some(r.as_str()),
                None => None,
            };
            proof {
                assert(opt_view(runtime) == option_view(p.runtime_version));
            }
            str_eq(p.name.as_str(), f.name.as_str()) && !p.kernel_mode && valid_project_choice(
                p.language.as_str(),
                p.template.as_str(),
                runtime,
            )
        },
        None => false,
    }
}

/// The projects of the projects folder that the studio lists, by name.
pub fn catalog(folders: Vec<ProjectFolder>) -> (r: Vec<Project>)
    ensures
        views_of(r@) == catalog_of(folders@),
{
    let ghost orig = folders@;
    let mut rest = folders;
    let mut kept: Vec<Project> = Vec::new();
    let ghost mut k: int = 0;
    proof {
        assert(orig.take(0) =~= Seq::<ProjectFolder>::empty());
        assert(orig.skip(0) =~= orig);
    }
    while rest.len() > 0
        invariant
            0 <= k <= orig.len(),
            rest@ == orig.skip(k),
            kept@ == listed(orig.take(k)),
        decreases rest.len(),
    {
        let f = rest.remove(0);
        proof {
            assert(f == orig[k]);
            assert(orig.take(k + 1).drop_last() =~= orig.take(k));
            assert(rest@ =~= orig.skip(k + 1));
        }
        if listed_folder(&f) {
            match f.config {
                Some(p) => {
                    kept.push(p);
                },
                None => {},
            }
        }
        proof {
            k = k + 1;
        }
    }
    proof {
        assert(orig.skip(k).len() == 0);
        assert(orig.take(k) =~= orig);
    }
    rank_sort(kept)
}

/// Projects are ordered by a total order on names.
pub proof fn lemma_project_order()
    ensures
        total_order::<Project>(),
{
    assert forall|a: ProjectView, b: ProjectView|
        Project::view_le(a, b) || Project::view_le(b, a) by {
        lemma_text_le_total(a.name, b.name);
    }
    assert forall|a: ProjectView, b: ProjectView, c: ProjectView|
        Project::view_le(a, b) && Project::view_le(b, c) implies Project::view_le(a, c) by {
        lemma_text_le_transitive(a.name, b.name, c.name);
    }
}

/// Every project of the catalog comes from a listed entry: it names its
/// folder, its kernel mode is off and its choice of language, template and
/// runtime is accepted; the catalog is sorted by name.
pub proof fn lemma_catalog_is_safe(fs: Seq<ProjectFolder>)
    ensures
        is_ranked::<Project>(catalog_of(fs)),
        forall|i: int|
            0 <= i < catalog_of(fs).len() ==> {
                let p = #[trigger] catalog_of(fs)[i];
                &&& !p.kernel_mode
                &&& is_valid_name(p.name)
                &&& is_valid_choice(p.language, p.template, p.runtime_version)
            },
{
    lemma_project_order();
    lemma_ranked_sorted::<Project>(views_of(listed(fs)));
    lemma_listed_safe(fs);
    let l = views_of(listed(fs));
    let c = catalog_of(fs);
    assert forall|i: int| 0 <= i < c.len() implies {
        let p = #[trigger] c[i];
        &&& !p.kernel_mode
        &&& is_valid_name(p.name)
        &&& is_valid_choice(p.language, p.template, p.runtime_version)
    } by {
        broadcast use vstd::seq_lib::group_to_multiset_ensures;

        assert(c.to_multiset().count(c[i]) > 0);
        assert(l.contains(c[i]));
        let k = choose|k: int| 0 <= k < l.len() && l[k] == c[i];
        assert(l[k] == listed(fs)[k]@);
    }
}

proof fn lemma_listed_safe(fs: Seq<ProjectFolder>)
    ensures
        forall|i: int|
            0 <= i < listed(fs).len() ==> {
                let p = #[trigger] listed(fs)[i];
                &&& !p.kernel_mode
                &&& is_valid_name(p.name@)
                &&& is_valid_choice(p.language@, p.template@, option_view(p.runtime_version))
            },
    decreases fs.len(),
{
    if fs.len() > 0 {
        lemma_listed_safe(fs.drop_last());
    }
}

// ---------------------------------------------------------------------------
// New projects
// ---------------------------------------------------------------------------
pub const CHOICE_REFUSED: &'static str = "Combinaison de langage, runtime et modèle non autorisée";

pub const NAME_REFUSED: &'static str = "Nom de projet invalide";

pub const PROJECT_EXISTS: &'static str = "Ce projet existe déjà";

pub const SOUND_MISSING: &'static str = "La ressource audio d’exemple est absente";

/// A file of a new project: its path inside the project, and its text.
#[derive(Debug)]
pub struct SeedFile {
    pub path: String,
    pub contents: String,
}

/// What a new project is made of.
#[derive(Debug)]
pub struct NewProject {
    /// Its configuration.
    pub project: Project,
    /// Its folders, created before its files.
    pub folders: Vec<String>,
    /// Its files.
    pub files: Vec<SeedFile>,
    /// Whether the example sound must be copied to `assets/sound.wav`.
    pub with_sound: bool,
}

/// The folders of every new project: its sources, its resources, and the
/// folder for what builds produce.
pub open spec fn seed_folders() -> Seq<Seq<char>> {
    seq!["src"@, "assets"@, "build"@]
}

pub open spec fn files_view(v: Seq<SeedFile>) -> Seq<(Seq<char>, Seq<char>)> {
    v.map_values(|f: SeedFile| (f.path@, f.contents@))
}

/// The files of a new project: a C++ project gets its `main.cpp` and its
/// Makefile, any other project its Lua script.
pub open spec fn seed_files(name: Seq<char>, language: Seq<char>, template: Seq<char>) -> Seq<
    (Seq<char>, Seq<char>),
> {
    if language == "cpp"@ {
        seq![
            ("src/main.cpp"@, cpp_source(name, template)),
            ("Makefile"@, makefile(name, template, seq!["src/main.cpp"@])),
        ]
    } else {
        seq![("script.lua"@, lua_source(template))]
    }
}

/// The folder name under which a new project is assembled before it is
/// moved into place.
pub open spec fn staging_name(name: Seq<char>) -> Seq<char> {
    "."@ + name + ".creating"@
}

pub fn staging_folder(name: &str) -> (r: String)
    ensures
        r@ == staging_name(name@),
{
    let mut r = owned(".");
    r.append(name);
    r.append(".creating");
    r
}

/// Plans a new project: the choice of language, template and runtime must
/// be accepted, then the name; the plan holds the configuration (kernel
/// mode off), the files and whether the example sound goes with it.
pub fn new_project(
    name: &str,
    language: &str,
    template: &str,
    runtime_version: Option<String>,
) -> (r: Result<NewProject, String>)
    ensures
        match r {
            Ok(plan) => {
                &&& is_valid_choice(language@, template@, option_view(runtime_version))
                &&& is_valid_name(name@)
                &&& plan.project@ == (ProjectView {
                    name: name@,
                    language: language@,
                    template: template@,
                    runtime_version: option_view(runtime_version),
                    kernel_mode: false,
                })
                &&& files_view(plan.files@) == seed_files(name@, language@, template@)
                &&& strings_view(plan.folders@) == seed_folders()
                &&& plan.with_sound == (language@ != "cpp"@ && template@ == "audio"@)
            },
            Err(e) => if !is_valid_choice(language@, template@, option_view(runtime_version)) {
                e@ == CHOICE_REFUSED@
            } else {
                !is_valid_name(name@) && e@ == NAME_REFUSED@
            },
        },
{
    let runtime = match &runtime_version {
        Some(r) => Some(r.as_str()),
        None => None,
    };
    proof {
        assert(opt_view(runtime) == option_view(runtime_version));
    }
    if !valid_project_choice(language, template, runtime) {
        return Err(owned(CHOICE_REFUSED));
    }
    if !valid_name(name) {
        return Err(owned(NAME_REFUSED));
    }
    proof {
        reveal_strlit("cpp");
        reveal_strlit("audio");
    }
    let mut files: Vec<SeedFile> = Vec::new();
    let is_cpp = str_eq(language, "cpp");
    if is_cpp {
        files.push(
            SeedFile {
                path: owned("src/main.cpp"),
                contents: cpp_source_template(name, template),
            },
        );
        files.push(SeedFile { path: owned("Makefile"), contents: makefile_template(name, template) });
    } else {
        files.push(SeedFile { path: owned("script.lua"), contents: owned(lua_source_template(template)) });
    }
    proof {
        assert(files_view(files@) =~= seed_files(name@, language@, template@));
    }
    let with_sound = !is_cpp && str_eq(template, "audio");
    let project = default_project(owned(name), owned(language), owned(template), runtime_version);
    let mut folders: Vec<String> = Vec::new();
    folders.push(owned("src"));
    folders.push(owned("assets"));
    folders.push(owned("build"));
    proof {
        assert(strings_view(folders@) =~= seed_folders());
    }
    Ok(NewProject { project, folders, files, with_sound })
}

/// The catalog lists projects in the order of their names as strings: a
/// name comes before every longer name it begins, and otherwise the name
/// with the smaller character where they first differ comes first.
pub proof fn lemma_catalog_in_name_order(fs: Seq<ProjectFolder>)
    ensures
        forall|i: int, j: int|
            0 <= i < j < catalog_of(fs).len() ==> crate::order::comes_first_in_text(
                #[trigger] catalog_of(fs)[i].name,
                #[trigger] catalog_of(fs)[j].name,
            ),
{
    lemma_catalog_is_safe(fs);
    let c = catalog_of(fs);
    assert forall|i: int, j: int| 0 <= i < j < c.len() implies crate::order::comes_first_in_text(
        #[trigger] c[i].name,
        #[trigger] c[j].name,
    ) by {
        assert(Project::view_le(c[i], c[j]));
        crate::order::lemma_text_le_is_string_order(c[i].name, c[j].name);
    }
}

} // verus!
