use psp_reborn::compile::{
    build_plan, compile_report, BuildPlan, lua_build_report, parse_build_diagnostics, parse_number, truncate_build_log,
    MAX_BUILD_LOG, TRUNCATION_NOTE,
};
use psp_reborn::confine::safe_relative_path;
use psp_reborn::deploy::{
    check_destination, deploy_message, game_folder, install_folder, launch_failure, lua_deploy_files,
    resource_step, runtime_files, ResourceStep,
};
use psp_reborn::env::{
    connected_psp_mounts, environment_status, ppsspp_executable, toolchain_bin, Volume,
    PPSSPP_APP, PPSSPP_SDL,
};
use psp_reborn::files::{
    atomic_temporary, check_file_size, check_file_text_size, check_inside_project,
    check_main_source_size, check_openable, check_project_location, check_saveable,
    collect_project_files, main_source_path, new_item_path, project_dir, rename_outcome,
};
use psp_reborn::pbp::validate_pbp;
use psp_reborn::path::{path_inside, path_join};
use psp_reborn::templates::{cpp_source_template, lua_source_template, makefile_for_sources};
use psp_reborn::project::{catalog, new_project, staging_folder, Project, ProjectFolder};
use psp_reborn::sources::collect_cpp_sources;
use psp_reborn::transfer::{check_overwrite, compare_digests, copy_temporary, verify_copy};
use psp_reborn::tree::{EntryKind, TreeEntry};

fn file(name: &str) -> TreeEntry {
    TreeEntry { name: name.to_string(), kind: EntryKind::File }
}

fn folder(name: &str, entries: Vec<TreeEntry>) -> TreeEntry {
    TreeEntry { name: name.to_string(), kind: EntryKind::Dir(Ok(entries)) }
}

fn project(name: &str, language: &str, template: &str, runtime: Option<&str>) -> Project {
    Project {
        name: name.to_string(),
        language: language.to_string(),
        template: template.to_string(),
        runtime_version: runtime.map(|r| r.to_string()),
        kernel_mode: false,
    }
}

#[test]
fn accepted_paths_are_normalized_names() {
    assert_eq!(safe_relative_path("src//game/./player.cpp", false).unwrap(), "src/game/player.cpp");
    assert_eq!(safe_relative_path("", true).unwrap(), "");
    assert_eq!(safe_relative_path(".", false).unwrap_err(), "Le chemin ne peut pas sortir du projet");
    assert_eq!(safe_relative_path("/etc", false).unwrap_err(), "Les chemins absolus sont interdits");
    assert_eq!(safe_relative_path(&"a".repeat(241), false).unwrap_err(), "Chemin de projet invalide");
    assert!(safe_relative_path(&"a".repeat(240), false).is_ok());
}

#[test]
fn project_folders_stay_under_the_projects_folder() {
    assert_eq!(project_dir("/Users/a/Documents/PSP Reborn/Games", "Jeu").unwrap(), "/Users/a/Documents/PSP Reborn/Games/Jeu");
    assert_eq!(project_dir("/root/", "Jeu").unwrap(), "/root/Jeu");
    assert_eq!(project_dir("/root", "../x").unwrap_err(), "Nom de projet invalide");
    assert!(check_project_location("/root/Games", "/root/Games/Jeu").is_ok());
    assert_eq!(check_project_location("/root/Games", "/root/Games").unwrap_err(), "Le projet sort du dossier autorisé");
    assert!(check_project_location("/root/Games", "/root/GamesX/Jeu").is_err());
    assert!(check_inside_project("/p", "/p/src/main.cpp").is_ok());
    assert_eq!(check_inside_project("/p", "/q/secret").unwrap_err(), "Le chemin sort du projet");
}

#[test]
fn build_log_is_cut_after_its_limit() {
    let short = "ok".to_string();
    assert_eq!(truncate_build_log(short.clone()), short);
    let long = "x".repeat(MAX_BUILD_LOG + 10);
    let kept = truncate_build_log(long);
    assert_eq!(kept.len(), MAX_BUILD_LOG + TRUNCATION_NOTE.len());
    assert!(kept.ends_with("\n… journal tronqué par PSP Reborn Studio"));
    let exact = "y".repeat(MAX_BUILD_LOG);
    assert_eq!(truncate_build_log(exact.clone()), exact);
}

#[test]
fn diagnostics_read_absolute_paths_and_skip_outside_files() {
    let log = "/home/p/Test/src/game/a.cpp:3:1: note: here\r\n\
               /home/p/Other/src/x.cpp:1:1: error: elsewhere\n\
               lib/x.cpp:1:1: error: not a source\n\
               src/b.cpp:+7:2: warning:   spaced   \n\
               src/../x.cpp:1:1: error: climbing\n\
               src/c.cpp:x:1: error: bad line\n";
    let diagnostics = parse_build_diagnostics(log, "/home/p/Test");
    assert_eq!(diagnostics.len(), 2);
    assert_eq!(diagnostics[0].severity, "note");
    assert_eq!(diagnostics[0].file, "src/game/a.cpp");
    assert_eq!(diagnostics[0].line, 3);
    assert_eq!(diagnostics[0].column, 1);
    assert_eq!(diagnostics[0].message, "here");
    assert_eq!(diagnostics[1].severity, "warning");
    assert_eq!(diagnostics[1].line, 7);
    assert_eq!(diagnostics[1].message, "spaced");
}

#[test]
fn numbers_parse_as_usize_does() {
    let parse = |s: &str| parse_number(&s.chars().collect());
    assert_eq!(parse("12"), Some(12));
    assert_eq!(parse("+5"), Some(5));
    assert_eq!(parse("+"), None);
    assert_eq!(parse(""), None);
    assert_eq!(parse("-1"), None);
    assert_eq!(parse("1a"), None);
    assert_eq!(parse("99999999999999999999999"), None);
}

#[test]
fn failed_builds_count_their_errors() {
    let report = compile_report(
        "",
        "src/main.cpp:1:1: error: a\nsrc/main.cpp:2:1: error: b\n",
        "/p",
        false,
        3,
        Ok(()),
    )
    .unwrap();
    assert!(!report.success);
    assert_eq!(report.summary, "Compilation échouée · 2 erreurs");
    assert_eq!(report.diagnostics.len(), 2);
    assert_eq!(report.source_count, 3);
    let one = compile_report("src/a.c:1:1: error: a\n", "", "/p", false, 1, Ok(())).unwrap();
    assert_eq!(one.summary, "Compilation échouée · 1 erreur");
    let silent = compile_report(" \n", "", "/p", false, 1, Ok(())).unwrap();
    assert_eq!(silent.summary, "La compilation a échoué");
    assert_eq!(silent.output, "Le compilateur n’a retourné aucun détail.");
}

#[test]
fn successful_builds_need_a_valid_eboot() {
    let report = compile_report("src/a.c:1:1: warning: w\n", "", "/p", true, 2, Ok(())).unwrap();
    assert!(report.success);
    assert_eq!(report.summary, "EBOOT.PBP prêt · 2 sources · 1 avertissement(s)");
    let quiet = compile_report("", "", "/p", true, 1, Ok(())).unwrap();
    assert_eq!(quiet.summary, "EBOOT.PBP prêt · 1 source");
    assert_eq!(quiet.output, "Compilation terminée sans message.");
    let refused = compile_report("", "", "/p", true, 1, Err("EBOOT.PBP trop petit".to_string()));
    assert_eq!(refused.unwrap_err(), "La compilation a produit un PBP invalide : EBOOT.PBP trop petit");
    let lua = lua_build_report();
    assert_eq!(lua.summary, "Projet LuaPlayer Plus r163 prêt");
    assert_eq!(lua.source_count, 1);
}

#[test]
fn pbp_sections_must_be_ordered_and_inside_the_file() {
    let mut header = vec![0_u8; 40];
    header[0..4].copy_from_slice(b"\0PBP");
    for index in 0..8 {
        let position = 8 + index * 4;
        header[position..position + 4].copy_from_slice(&(40 + index as u32).to_le_bytes());
    }
    assert!(validate_pbp(100, &header).is_ok());
    assert_eq!(validate_pbp(46, &header).unwrap_err(), "Table des sections EBOOT.PBP invalide");
    assert_eq!(validate_pbp(39, &header).unwrap_err(), "EBOOT.PBP trop petit");
    header[12..16].copy_from_slice(&39_u32.to_le_bytes());
    assert!(validate_pbp(100, &header).is_err());
    header[12..16].copy_from_slice(&41_u32.to_le_bytes());
    header[0] = b'P';
    assert_eq!(validate_pbp(100, &header).unwrap_err(), "Signature EBOOT.PBP invalide");
}

#[test]
fn copies_are_kept_only_with_the_source_digest() {
    let data = b"EBOOT contents".to_vec();
    assert!(verify_copy(&data, &data.clone()).is_ok());
    assert_eq!(verify_copy(&data, b"EBOOT contentz").unwrap_err(), "La vérification de la copie PSP a échoué");
    assert!(verify_copy(b"", b"").is_ok());
    assert_eq!(
        check_overwrite("/Volumes/PSP/PSP/GAME/Jeu/EBOOT.PBP", true, false).unwrap_err(),
        "EBOOT.PBP existe déjà. Confirme son remplacement."
    );
    assert!(check_overwrite("/x/EBOOT.PBP", true, true).is_ok());
    assert!(check_overwrite("/x/EBOOT.PBP", false, false).is_ok());
    assert_eq!(copy_temporary("/Volumes/PSP/PSP/GAME/Jeu/EBOOT.PBP"), "/Volumes/PSP/PSP/GAME/Jeu/EBOOT.copying");
    assert_eq!(copy_temporary("/x/script.lua"), "/x/script.copying");
}

#[test]
fn the_catalog_lists_safe_projects_by_name() {
    let folders = vec![
        ProjectFolder { name: "Zeta".into(), is_dir: true, config: Some(project("Zeta", "cpp", "hello", None)) },
        ProjectFolder { name: "Alpha".into(), is_dir: true, config: Some(project("Alpha", "lua", "timer", Some("lpp-r163"))) },
        ProjectFolder {
            name: "Kernel".into(),
            is_dir: true,
            config: Some(Project { kernel_mode: true, ..project("Kernel", "cpp", "hello", None) }),
        },
        ProjectFolder { name: "Other".into(), is_dir: true, config: Some(project("Renamed", "cpp", "hello", None)) },
        ProjectFolder { name: "Mixed".into(), is_dir: true, config: Some(project("Mixed", "cpp", "sprite", None)) },
        ProjectFolder { name: "file".into(), is_dir: false, config: Some(project("file", "cpp", "hello", None)) },
        ProjectFolder { name: "bad name".into(), is_dir: true, config: Some(project("bad name", "cpp", "hello", None)) },
        ProjectFolder { name: "Broken".into(), is_dir: true, config: None },
        ProjectFolder { name: "Beta".into(), is_dir: true, config: Some(project("Beta", "cpp", "audio", None)) },
    ];
    let listed = catalog(folders);
    let names = listed.iter().map(|p| p.name.as_str()).collect::<Vec<_>>();
    assert_eq!(names, vec!["Alpha", "Beta", "Zeta"]);
    assert!(listed.iter().all(|p| !p.kernel_mode));
}

#[test]
fn new_projects_get_their_files() {
    let cpp = new_project("Jeu", "cpp", "graphics", None).unwrap();
    assert!(!cpp.project.kernel_mode);
    assert_eq!(cpp.files.len(), 2);
    assert_eq!(cpp.files[0].path, "src/main.cpp");
    assert!(cpp.files[0].contents.contains("PSP_MODULE_INFO(\"Jeu\""));
    assert_eq!(cpp.files[1].path, "Makefile");
    assert!(cpp.files[1].contents.contains("LIBS = -lpspgu\n"));
    assert!(!cpp.with_sound);
    assert_eq!(cpp.folders, vec!["src", "assets", "build"]);
    let lua = new_project("Son", "lua", "audio", Some("lpp-r163".into())).unwrap();
    assert_eq!(lua.files.len(), 1);
    assert_eq!(lua.files[0].path, "script.lua");
    assert!(lua.files[0].contents.contains("assets/sound.wav"));
    assert!(lua.with_sound);
    assert_eq!(lua.folders, vec!["src", "assets", "build"]);
    assert_eq!(lua.project.runtime_version.as_deref(), Some("lpp-r163"));
    assert_eq!(
        new_project("Jeu", "lua", "audio", None).err().unwrap(),
        "Combinaison de langage, runtime et modèle non autorisée"
    );
    assert_eq!(new_project("../Jeu", "cpp", "hello", None).err().unwrap(), "Nom de projet invalide");
    assert_eq!(staging_folder("Jeu"), ".Jeu.creating");
}

#[test]
fn cpp_sources_are_checked_before_building() {
    assert_eq!(collect_cpp_sources(false, Ok(vec![])).unwrap_err(), "Le dossier src requis est absent");
    assert_eq!(collect_cpp_sources(true, Ok(vec![file("notes.txt")])).unwrap_err(), "Aucun fichier C/C++ trouvé dans src");
    assert_eq!(collect_cpp_sources(true, Ok(vec![file("game.cpp")])).unwrap_err(), "Le point d’entrée src/main.cpp est absent");
    assert_eq!(
        collect_cpp_sources(true, Ok(vec![file("main.cpp"), file("a.c"), file("a.CPP")])).unwrap_err(),
        "Deux sources produisent le même objet : src/a.o"
    );
    assert_eq!(
        collect_cpp_sources(true, Ok(vec![file("main.cpp"), file("bad name.cpp")])).unwrap_err(),
        "Chemin source non compilable : src/bad name.cpp. Utilise lettres, chiffres, _, - et ."
    );
    let link = TreeEntry { name: "link".into(), kind: EntryKind::Symlink };
    assert_eq!(collect_cpp_sources(true, Ok(vec![file("main.cpp"), link])).unwrap_err(), "Les liens symboliques sont interdits dans src");
    let mut deep = vec![file("deep.cpp")];
    for level in 0..13 {
        deep = vec![folder(&format!("d{level}"), deep)];
    }
    deep.push(file("main.cpp"));
    assert_eq!(collect_cpp_sources(true, Ok(deep)).unwrap_err(), "Les sources C++ dépassent la profondeur autorisée");
    let many = (0..257).map(|i| file(&format!("f{i}.c"))).collect::<Vec<_>>();
    assert_eq!(collect_cpp_sources(true, Ok(many)).unwrap_err(), "Maximum 256 sources C/C++");
    assert_eq!(collect_cpp_sources(true, Err("denied".into())).unwrap_err(), "denied");
    let sorted = collect_cpp_sources(true, Ok(vec![file("main.cpp"), file("a-b.cpp"), folder("a", vec![file("b.cpp")])])).unwrap();
    assert_eq!(sorted, vec!["src/a/b.cpp".to_string(), "src/a-b.cpp".to_string(), "src/main.cpp".to_string()]);
}

#[test]
fn the_tree_puts_folders_first_and_sorts_names_in_lower_case() {
    let listing = vec![
        file("b.txt"),
        file("A.md"),
        folder("Zed", vec![file("x.obj"), file("y.png"), file("game.o")]),
        folder(".git", vec![file("HEAD.txt")]),
        file("Makefile"),
        TreeEntry { name: "link.txt".into(), kind: EntryKind::Symlink },
    ];
    let entries = collect_project_files(Ok(listing)).unwrap();
    let paths = entries.iter().map(|e| e.path.as_str()).collect::<Vec<_>>();
    assert_eq!(paths, vec!["Zed", "Zed/x.obj", "A.md", "b.txt", "Makefile"]);
    assert!(entries[0].is_dir && !entries[0].read_only);
    assert_eq!(entries[1].depth, 1);
    let makefile = entries.iter().find(|e| e.name == "Makefile").unwrap();
    assert!(makefile.read_only);
    assert!(!entries[2].read_only);
    let broken = vec![TreeEntry { name: "x".into(), kind: EntryKind::Failed("io".into()) }];
    assert_eq!(collect_project_files(Ok(broken)).err().unwrap(), "io");
    let many = (0..1001).map(|i| file(&format!("f{i}.txt"))).collect::<Vec<_>>();
    assert_eq!(collect_project_files(Ok(many)).err().unwrap(), "Le projet contient trop d’éléments à afficher");
}

#[test]
fn editor_checks_refuse_what_it_cannot_handle() {
    assert_eq!(main_source_path("lua"), "script.lua");
    assert_eq!(main_source_path("cpp"), "src/main.cpp");
    assert!(check_openable("src/main.cpp", true).is_ok());
    assert_eq!(check_openable("psp-project.json", true).unwrap_err(), "Ce fichier ne peut pas être ouvert dans l’éditeur");
    assert!(check_openable("image.png", true).is_err());
    assert!(check_openable("src", false).is_err());
    assert!(check_file_size(2_000_000).is_ok());
    assert_eq!(check_file_size(2_000_001).unwrap_err(), "Fichier trop volumineux");
    assert_eq!(check_saveable("Makefile", true).unwrap_err(), "Ce fichier n’est pas modifiable");
    assert!(check_saveable("notes.MD", true).is_ok());
    assert_eq!(check_main_source_size(&"é".repeat(1_000_001)).unwrap_err(), "Source trop volumineuse");
    assert!(check_file_text_size(&"a".repeat(2_000_000)).is_ok());
    assert_eq!(new_item_path("/p", "/p/src/enemy.cpp", false).unwrap(), "src/enemy.cpp");
    assert_eq!(new_item_path("/p", "/p/src/image.png", false).unwrap_err(), "Extension de fichier non autorisée dans l’éditeur");
    assert_eq!(new_item_path("/p", "/p/levels", true).unwrap(), "levels");
    assert_eq!(new_item_path("/p", "/q/levels", true).unwrap_err(), "Chemin de projet invalide");
    assert_eq!(rename_outcome("/p", "/p/src/b.cpp", true).unwrap().unwrap(), "src/b.cpp");
    assert_eq!(rename_outcome("/p", "/p/src/b.png", true).unwrap_err(), "Extension de fichier non autorisée");
    assert_eq!(rename_outcome("/p", "/p/maps", false).unwrap().unwrap(), "maps");
    assert_eq!(atomic_temporary("/p/src/main.cpp", 42).unwrap(), "/p/src/.main.cpp.42.psp-reborn-writing");
    assert_eq!(atomic_temporary("/main.cpp", 7).unwrap(), "/.main.cpp.7.psp-reborn-writing");
    assert_eq!(atomic_temporary("/", 7).unwrap_err(), "Nom de fichier invalide");
}

#[test]
fn the_environment_reports_what_was_found() {
    assert_eq!(ppsspp_executable(&vec![false, true]).as_deref(), Some(PPSSPP_APP));
    assert_eq!(ppsspp_executable(&vec![true, true]).as_deref(), Some(PPSSPP_SDL));
    assert_eq!(ppsspp_executable(&vec![false]), None);
    assert_eq!(toolchain_bin("/h/.pspdev/v20260701", true, true).unwrap(), "/h/.pspdev/v20260701/bin");
    assert_eq!(toolchain_bin("/h", true, false).unwrap_err(), "La toolchain PSPDEV gérée est absente");
    let mounts = connected_psp_mounts(vec![
        Volume { path: "/Volumes/Zed".into(), has_game_folder: true, is_plain_folder: true },
        Volume { path: "/Volumes/Backup".into(), has_game_folder: false, is_plain_folder: true },
        Volume { path: "/Volumes/Link".into(), has_game_folder: true, is_plain_folder: false },
        Volume { path: "/Volumes/Alpha".into(), has_game_folder: true, is_plain_folder: true },
        Volume { path: "/Volumes/Beta".into(), has_game_folder: true, is_plain_folder: true },
    ]);
    assert_eq!(mounts, vec!["/Volumes/Alpha", "/Volumes/Beta", "/Volumes/Zed"]);
    let status = environment_status("/h/.pspdev/v20260701", true, true, false, None, mounts);
    assert!(status.pspdev_ready);
    assert_eq!(status.pspdev_version.as_deref(), Some("v20260701 / GCC 15.2.0"));
    assert!(!status.ppsspp_ready);
    assert_eq!(status.checks.len(), 4);
    assert_eq!(status.checks[1].detail, "Make est requis pour les projets C++");
    assert_eq!(status.checks[3].detail, "3 volumes PSP détectés");
    assert_eq!(status.checks[3].path.as_deref(), Some("/Volumes/Alpha"));
    let none = environment_status("/h", true, false, true, Some(PPSSPP_APP.into()), vec![]);
    assert_eq!(none.pspdev_version, None);
    assert_eq!(none.checks[0].detail, "psp-g++ ou psp-config est absent");
    assert_eq!(none.checks[2].path.as_deref(), Some(PPSSPP_APP));
    assert_eq!(none.checks[3].detail, "Aucun volume contenant PSP/GAME");
}

#[test]
fn deployment_stays_in_the_games_folder() {
    assert_eq!(game_folder("/Volumes/PSP"), "/Volumes/PSP/PSP/GAME");
    assert!(check_destination("/Volumes/PSP/PSP/GAME", "/Volumes/PSP/PSP/GAME/Jeu", false).is_ok());
    assert_eq!(check_destination("/Volumes/PSP/PSP/GAME", "/Users/x/Jeu", false).unwrap_err(), "Destination PSP non sûre");
    assert!(check_destination("/Volumes/PSP/PSP/GAME", "/Volumes/PSP/PSP/GAME/Jeu", true).is_err());
    assert_eq!(lua_deploy_files("lua"), vec!["script.lua", "lpp.ini"]);
    assert!(lua_deploy_files("cpp").is_empty());
    assert_eq!(deploy_message("Jeu"), "Installé dans PSP/GAME/Jeu");
    assert_eq!(runtime_files("lpp-r163").unwrap(), vec!["EBOOT.PBP", "lpp.ini", "License.txt"]);
    assert_eq!(
        runtime_files("hm-v8").unwrap_err(),
        "Le runtime hm-v8 est référencé mais son binaire original reste à récupérer"
    );
    assert_eq!(launch_failure("denied"), "Impossible de lancer PPSSPP : denied");
    assert!(matches!(resource_step(false, true, false), Ok(ResourceStep::Descend)));
    assert!(matches!(resource_step(false, false, true), Ok(ResourceStep::Copy)));
    assert!(matches!(resource_step(false, false, false), Ok(ResourceStep::Skip)));
    assert!(resource_step(true, true, false).is_err());
}

#[test]
fn digests_agree_only_when_equal() {
    let mut a = [7_u8; 32];
    assert!(compare_digests(&a, &[7_u8; 32]).is_ok());
    a[31] = 8;
    assert_eq!(compare_digests(&a, &[7_u8; 32]).unwrap_err(), "La vérification de la copie PSP a échoué");
}

#[test]
fn the_tree_stops_below_its_depth_limit() {
    let mut nested = vec![file("leaf.txt")];
    for level in 0..12 {
        nested = vec![folder(&format!("d{level}"), nested)];
    }
    let entries = collect_project_files(Ok(nested.clone_tree())).unwrap();
    assert_eq!(entries.len(), 13);
    assert_eq!(entries[12].depth, 12);
    let deeper = vec![folder("top", nested)];
    assert_eq!(
        collect_project_files(Ok(deeper)).err().unwrap(),
        "L’arborescence dépasse la profondeur autorisée"
    );
}

trait CloneTree {
    fn clone_tree(&self) -> Self;
}

impl CloneTree for Vec<TreeEntry> {
    fn clone_tree(&self) -> Self {
        self.iter()
            .map(|entry| TreeEntry {
                name: entry.name.clone(),
                kind: match &entry.kind {
                    EntryKind::Dir(Ok(children)) => EntryKind::Dir(Ok(children.clone_tree())),
                    EntryKind::Dir(Err(error)) => EntryKind::Dir(Err(error.clone())),
                    EntryKind::File => EntryKind::File,
                    EntryKind::Symlink => EntryKind::Symlink,
                    EntryKind::Other => EntryKind::Other,
                    EntryKind::Failed(error) => EntryKind::Failed(error.clone()),
                },
            })
            .collect()
    }
}

#[test]
fn accepted_paths_stay_inside_and_are_stable() {
    for value in ["src//./game/player.cpp", "notes.txt", "a/b/c", "./x/../y"] {
        if let Ok(path) = safe_relative_path(value, false) {
            assert!(path_inside("/p/Jeu", &path_join("/p/Jeu", &path)), "{value}");
            assert!(path_inside("/p/Jeu/", &path_join("/p/Jeu/", &path)), "{value}");
            assert_eq!(safe_relative_path(&path, false).unwrap(), path, "{value}");
        }
    }
    assert!(safe_relative_path("./x/../y", false).is_err());
    assert!(path_inside("/Volumes/PSP/PSP/GAME", &install_folder("/Volumes/PSP/PSP/GAME", "Jeu")));
    assert!(!path_inside("/p", "/p"));
}

#[test]
fn lower_case_decides_the_order_of_names() {
    let listing = vec![file("b.txt"), file("C.txt"), file("a.txt"), file("B.md")];
    let entries = collect_project_files(Ok(listing)).unwrap();
    let names = entries.iter().map(|e| e.name.as_str()).collect::<Vec<_>>();
    assert_eq!(names, vec!["a.txt", "B.md", "b.txt", "C.txt"]);
}

#[test]
fn makefile_objects_are_plain_paths() {
    let sources = collect_cpp_sources(
        true,
        Ok(vec![file("main.cpp"), folder("game", vec![file("hero_1-a.cc"), file("x.C")])]),
    )
    .unwrap();
    let makefile = makefile_for_sources("Jeu", "timer", &sources);
    let objects = makefile
        .lines()
        .find_map(|line| line.strip_prefix("OBJS = "))
        .unwrap();
    assert_eq!(objects, "src/game/hero_1-a.o src/game/x.o src/main.o");
    assert!(objects
        .chars()
        .all(|c| c.is_ascii_alphanumeric() || "_-./ ".contains(c)));
    assert!(makefile.contains("LIBS = -lpsprtc\n"));
    assert!(makefile.ends_with("include $(PSPSDK)/lib/build.mak\n"));
}

#[test]
fn lua_projects_are_prepared_and_others_compiled() {
    assert!(matches!(build_plan("lua", Some("lpp-r163")), BuildPlan::Lua(r) if r == "lpp-r163"));
    assert!(matches!(build_plan("lua", None), BuildPlan::Lua(r) if r.is_empty()));
    assert!(matches!(build_plan("cpp", Some("lpp-r163")), BuildPlan::Cpp));
}

#[test]
fn joined_logs_keep_the_diagnostics_of_each_part() {
    let a = "src/a.cpp:1:2: error: first\nnoise";
    let b = "include/b.hpp:3:4: note: second";
    let dir = "/p";
    let joined = parse_build_diagnostics(&format!("{a}\n{b}"), dir);
    let mut parts = parse_build_diagnostics(a, dir);
    parts.extend(parse_build_diagnostics(b, dir));
    assert_eq!(joined.len(), 2);
    for (x, y) in joined.iter().zip(parts.iter()) {
        assert_eq!((&x.severity, &x.file, x.line, x.column, &x.message), (&y.severity, &y.file, y.line, y.column, &y.message));
    }
}

#[test]
fn a_cut_log_is_not_cut_again() {
    let once = truncate_build_log("é".repeat(MAX_BUILD_LOG / 2 + 3));
    assert_eq!(truncate_build_log(once.clone()), once);
}

#[test]
fn unknown_templates_fall_back_to_hello() {
    assert_eq!(cpp_source_template("Jeu", "sprite"), cpp_source_template("Jeu", "hello"));
    assert!(cpp_source_template("Jeu", "").contains("Bonjour depuis PSP Reborn Studio !"));
    assert_eq!(lua_source_template("filesystem"), lua_source_template("hello"));
    assert!(lua_source_template("x").starts_with("while true do\n"));
    assert!(lua_source_template("x").ends_with("end\n"));
}
