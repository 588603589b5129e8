//! Installing a game on a PSP and running it in the emulator: what must
//! exist first, where it goes, which files go with it, and what the user
//! is told.
use vstd::prelude::*;
use vstd::string::StringExecFns;
use crate::files::verdict;
use crate::text::outcome_view;
use crate::path::{is_inside, join_path, path_join, path_starts_with, starts_with_path};
use crate::rules::is_valid_name;
use crate::text::{owned, str_eq};

verus! {

pub const NOT_BUILT_FOR_DEPLOY: &'static str = "Compile le jeu avant de l’installer";

pub const NOT_BUILT_FOR_RUN: &'static str = "Compile le jeu avant de le tester";

pub const NO_GAME_FOLDER: &'static str = "Le volume sélectionné ne contient pas PSP/GAME";

pub const UNSAFE_DESTINATION: &'static str = "Destination PSP non sûre";

pub const INSTALLED_IN: &'static str = "Installé dans PSP/GAME/";

pub const RESOURCE_SYMLINK: &'static str = "Les liens symboliques sont interdits dans les ressources";

pub const LPP_RUNTIME: &'static str = "lpp-r163";

pub const RUNTIME_FILES_MISSING: &'static str = "Les fichiers LuaPlayer Plus r163 sont absents de l’application";

pub const NO_PPSSPP: &'static str = "PPSSPP n’est pas installé";

pub const LAUNCHED: &'static str = "Jeu lancé dans PPSSPP";

pub const LAUNCH_FAILED: &'static str = "Impossible de lancer PPSSPP : ";

pub open spec fn names_view(v: Seq<&'static str>) -> Seq<Seq<char>> {
    v.map_values(|s: &'static str| s@)
}

/// A game is installed only once it was built.
pub fn check_built_for_deploy(eboot_is_file: bool) -> (r: Result<(), String>)
    ensures
        outcome_view(r) == verdict(!eboot_is_file, NOT_BUILT_FOR_DEPLOY@),
{
    if !eboot_is_file {
        return Err(owned(NOT_BUILT_FOR_DEPLOY));
    }
    Ok(())
}

/// A game is run only once it was built.
pub fn check_built_for_run(eboot_is_file: bool) -> (r: Result<(), String>)
    ensures
        outcome_view(r) == verdict(!eboot_is_file, NOT_BUILT_FOR_RUN@),
{
    if !eboot_is_file {
        return Err(owned(NOT_BUILT_FOR_RUN));
    }
    Ok(())
}

/// The games folder of the PSP mounted at `psp_root`.
pub fn game_folder(psp_root: &str) -> (r: String)
    ensures
        r@ == join_path(join_path(psp_root@, "PSP"@), "GAME"@),
{
    let psp = path_join(psp_root, "PSP");
    path_join(psp.as_str(), "GAME")
}

/// The games folder must be a folder.
pub fn check_game_folder(is_dir: bool) -> (r: Result<(), String>)
    ensures
        outcome_view(r) == verdict(!is_dir, NO_GAME_FOLDER@),
{
    if !is_dir {
        return Err(owned(NO_GAME_FOLDER));
    }
    Ok(())
}

/// The folder a game is installed into: its project's name under the games
/// folder.
pub fn install_folder(game: &str, project: &str) -> (r: String)
    ensures
        r@ == join_path(game@, project@),
{
    path_join(game, project)
}

/// A game is installed one level below the games folder, in the folder
/// named after its project.
pub proof fn lemma_install_folder_inside(game: Seq<char>, project: Seq<char>)
    requires
        is_valid_name(project),
    ensures
        is_inside(game, join_path(game, project)),
        crate::path::components(join_path(game, project)) == crate::path::components(game).push(
            crate::path::Comp::Normal(project),
        ),
{
    crate::files::lemma_project_dir_inside(game, project);
}

/// An existing destination must resolve inside the games folder and not
/// be a symbolic link.
pub fn check_destination(game: &str, resolved: &str, is_symlink: bool) -> (r: Result<(), String>)
    ensures
        outcome_view(r) == verdict(
            !starts_with_path(resolved@, game@) || is_symlink,
            UNSAFE_DESTINATION@,
        ),
{
    if !path_starts_with(resolved, game) || is_symlink {
        return Err(owned(UNSAFE_DESTINATION));
    }
    Ok(())
}

/// The files that go with a game besides its `EBOOT.PBP`: the script and
/// the runtime settings of a Lua game.
pub open spec fn companion_files(language: Seq<char>) -> Seq<Seq<char>> {
    if language == "lua"@ {
        seq!["script.lua"@, "lpp.ini"@]
    } else {
        Seq::empty()
    }
}

pub fn lua_deploy_files(language: &str) -> (r: Vec<&'static str>)
    ensures
        names_view(r@) == companion_files(language@),
{
    let mut r: Vec<&'static str> = Vec::new();
    proof {
        reveal_strlit("lua");
    }
    if str_eq(language, "lua") {
        r.push("script.lua");
        r.push("lpp.ini");
    }
    proof {
        assert(names_view(r@) =~= companion_files(language@));
    }
    r
}

/// What the user is told once the game `project` is installed.
pub fn deploy_message(project: &str) -> (r: String)
    ensures
        r@ == INSTALLED_IN@ + project@,
{
    let mut r = owned(INSTALLED_IN);
    r.append(project);
    r
}

/// The files of the runtime a Lua project needs: only LuaPlayer Plus r163
/// is shipped; any other runtime is refused with its name.
pub open spec fn runtime_plan(runtime: Seq<char>) -> Result<Seq<Seq<char>>, Seq<char>> {
    if runtime != LPP_RUNTIME@ {
        Err("Le runtime "@ + runtime + " est référencé mais son binaire original reste à récupérer"@)
    } else {
        Ok(seq!["EBOOT.PBP"@, "lpp.ini"@, "License.txt"@])
    }
}

pub fn runtime_files(runtime: &str) -> (r: Result<Vec<&'static str>, String>)
    ensures
        match r {
            Ok(v) => runtime_plan(runtime@) == Ok::<Seq<Seq<char>>, Seq<char>>(names_view(v@)),
            Err(e) => runtime_plan(runtime@) == Err::<Seq<Seq<char>>, Seq<char>>(e@),
        },
{
    if !str_eq(runtime, LPP_RUNTIME) {
        let mut m = owned("Le runtime ");
        m.append(runtime);
        m.append(" est référencé mais son binaire original reste à récupérer");
        return Err(m);
    }
    let mut v: Vec<&'static str> = Vec::new();
    v.push("EBOOT.PBP");
    v.push("lpp.ini");
    v.push("License.txt");
    proof {
        assert(names_view(v@) =~= seq!["EBOOT.PBP"@, "lpp.ini"@, "License.txt"@]);
    }
    Ok(v)
}

/// Each runtime file must be shipped with the application.
pub fn check_runtime_file(is_file: bool) -> (r: Result<(), String>)
    ensures
        outcome_view(r) == verdict(!is_file, RUNTIME_FILES_MISSING@),
{
    if !is_file {
        return Err(owned(RUNTIME_FILES_MISSING));
    }
    Ok(())
}

/// What the user is told when the emulator could not be started.
pub fn launch_failure(error: &str) -> (r: String)
    ensures
        r@ == LAUNCH_FAILED@ + error@,
{
    let mut r = owned(LAUNCH_FAILED);
    r.append(error);
    r
}

/// What is done with an entry of a resources folder being copied.
#[derive(Debug)]
pub enum ResourceStep {
    /// Copy the folder's contents into a folder of the same name.
    Descend,
    /// Copy the file, with its digest checked.
    Copy,
    /// Leave it.
    Skip,
}

/// Symbolic links are refused; folders are walked and files copied.
pub fn resource_step(is_symlink: bool, is_dir: bool, is_file: bool) -> (r: Result<
    ResourceStep,
    String,
>)
    ensures
        match r {
            Err(e) => is_symlink && e@ == RESOURCE_SYMLINK@,
            Ok(ResourceStep::Descend) => !is_symlink && is_dir,
            Ok(ResourceStep::Copy) => !is_symlink && !is_dir && is_file,
            Ok(ResourceStep::Skip) => !is_symlink && !is_dir && !is_file,
        },
{
    if is_symlink {
        Err(owned(RESOURCE_SYMLINK))
    } else if is_dir {
        Ok(ResourceStep::Descend)
    } else if is_file {
        Ok(ResourceStep::Copy)
    } else {
        Ok(ResourceStep::Skip)
    }
}

} // verus!
