use psp_reborn::compile::parse_build_diagnostics;
use psp_reborn::confine::safe_relative_path;
use psp_reborn::files::collect_project_files;
use psp_reborn::pbp::validate_pbp;
use psp_reborn::project::default_project;
use psp_reborn::rules::{
    editable_project_file, protected_project_path, valid_item_name, valid_name,
    valid_project_choice, writable_project_file, CONFIG_NAME,
};
use psp_reborn::sources::collect_cpp_sources;
use psp_reborn::templates::{makefile_for_sources, makefile_template};
use psp_reborn::tree::{EntryKind, TreeEntry};

fn file(name: &str) -> TreeEntry {
    TreeEntry { name: name.to_string(), kind: EntryKind::File }
}

fn folder(name: &str, entries: Vec<TreeEntry>) -> TreeEntry {
    TreeEntry { name: name.to_string(), kind: EntryKind::Dir(Ok(entries)) }
}

#[test]
fn project_names_are_strictly_limited() {
    for valid in ["Jeu", "Jeu_2", "psp-game", "A123"] {
        assert!(valid_name(valid), "{valid} should be valid");
    }
    for invalid in ["", "../Jeu", "Jeu/Deux", "Jeu Deux", ".cache", "évasion"] {
        assert!(!valid_name(invalid), "{invalid} should be rejected");
    }
    assert!(!valid_name(&"a".repeat(33)));
}

#[test]
fn project_file_paths_cannot_escape_the_project() {
    for valid in ["src/main.cpp", "assets/maps/level1.json", "notes.txt"] {
        assert!(safe_relative_path(valid, false).is_ok(), "{valid}");
    }
    for invalid in ["", "../secret", "src/../../secret", "/tmp/secret", "./source.lua"] {
        assert!(safe_relative_path(invalid, false).is_err(), "{invalid}");
    }
    assert!(safe_relative_path("", true).is_ok());
}

#[test]
fn file_manager_protects_required_project_files() {
    for protected in [CONFIG_NAME, "Makefile", "script.lua", "src", "src/main.cpp", "assets"] {
        assert!(protected_project_path(protected), "{protected}");
    }
    assert!(!protected_project_path("src/player.cpp"));
    assert!(valid_item_name("player.cpp"));
    assert!(!valid_item_name("../player.cpp"));
    assert!(!valid_item_name(".git"));
    assert!(editable_project_file("Makefile"));
    assert!(!writable_project_file("Makefile"));
    assert!(writable_project_file("src/player.cpp"));
}

#[test]
fn file_tree_hides_generated_outputs_and_lists_sources() {
    let listing = vec![
        folder("src", vec![file("main.cpp")]),
        folder("assets", vec![]),
        file("notes.md"),
        file("EBOOT.PBP"),
        file(CONFIG_NAME),
    ];
    let entries = collect_project_files(Ok(listing)).unwrap();
    let paths = entries.iter().map(|entry| entry.path.as_str()).collect::<Vec<_>>();
    assert!(paths.contains(&"src"));
    assert!(paths.contains(&"src/main.cpp"));
    assert!(paths.contains(&"notes.md"));
    assert!(!paths.contains(&"EBOOT.PBP"));
    assert!(!paths.contains(&CONFIG_NAME));
    assert!(safe_relative_path("../secret", false).is_err());
}

#[test]
fn generated_project_never_enables_kernel_mode() {
    let project = default_project("Test".into(), "cpp".into(), "hello".into(), None);
    assert!(!project.kernel_mode);
    assert_eq!(project.language, "cpp");
    assert_eq!(project.template, "hello");
}

#[test]
fn makefile_has_fixed_toolchain_and_no_user_command() {
    let makefile = makefile_template("Test", "hello");
    assert!(makefile.contains("psp-config --pspsdk-path"));
    assert!(!makefile.contains("sh -c"));
    assert!(!makefile.contains("sudo"));
}

#[test]
fn managed_makefile_includes_valid_recursive_sources() {
    let listing = vec![
        file("main.cpp"),
        folder("game", vec![file("player.cpp"), file("player.hpp")]),
    ];
    let sources = collect_cpp_sources(true, Ok(listing)).unwrap();
    assert_eq!(
        sources,
        vec!["src/game/player.cpp".to_string(), "src/main.cpp".to_string()]
    );
    let makefile = makefile_for_sources("Test", "hello", &sources);
    assert!(makefile.contains("OBJS = src/game/player.o src/main.o"));
    assert!(makefile.contains("-Iinclude -Isrc"));
}

#[test]
fn compiler_messages_become_clickable_diagnostics() {
    let directory = "/tmp/PSP Reborn/Games/Test";
    let log = "src/main.cpp:12:7: error: expected ';'\ninclude/game.hpp:4:2: warning: unused value";
    let diagnostics = parse_build_diagnostics(log, directory);
    assert_eq!(diagnostics.len(), 2);
    assert_eq!(diagnostics[0].severity, "error");
    assert_eq!(diagnostics[0].file, "src/main.cpp");
    assert_eq!(diagnostics[0].line, 12);
    assert_eq!(diagnostics[1].file, "include/game.hpp");
}

#[test]
fn project_catalog_rejects_unknown_or_mixed_choices() {
    assert!(valid_project_choice("cpp", "graphics", None));
    assert!(valid_project_choice("cpp", "audio", None));
    assert!(valid_project_choice("cpp", "filesystem", None));
    assert!(!valid_project_choice("cpp", "sprite", None));
    assert!(!valid_project_choice("cpp", "hello", Some("hm-v7-rc1")));
    assert!(valid_project_choice("lua", "sprite", Some("hm-v7-rc1")));
    assert!(valid_project_choice("lua", "timer", Some("lpp-r163")));
    assert!(valid_project_choice("lua", "audio", Some("lpp-r163")));
    assert!(!valid_project_choice("lua", "sprite", Some("unknown")));
}

#[test]
fn pbp_validator_accepts_a_minimal_header_and_rejects_bad_magic() {
    let mut header = vec![0_u8; 40];
    header[0..4].copy_from_slice(b"\0PBP");
    header[4..8].copy_from_slice(&0x10000_u32.to_le_bytes());
    for index in 0..8 {
        let position = 8 + index * 4;
        header[position..position + 4].copy_from_slice(&40_u32.to_le_bytes());
    }
    assert!(validate_pbp(header.len() as u64, &header).is_ok());
    header[0] = 1;
    assert!(validate_pbp(header.len() as u64, &header).is_err());
}
