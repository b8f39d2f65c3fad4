use build_supervisor::config::Config;
use build_supervisor::engines::{
    add_candidate, format_label, is_engine_root, parse_version_from_name, should_skip_directory,
    sort_installs, version_parts, EngineInstall,
};
use build_supervisor::paths::{
    build_args, build_command_line, derive_editor_target, editor_exe_path, ubt_dll_path,
};

#[test]
fn skip_list_is_case_insensitive() {
    assert!(should_skip_directory("Launcher"));
    assert!(should_skip_directory("LAUNCHER"));
    assert!(should_skip_directory("EpicGamesLauncher"));
    assert!(should_skip_directory("Epic Games Launcher"));
    assert!(should_skip_directory("Epic Online Services"));
    assert!(should_skip_directory("DirectXRedist"));
    assert!(should_skip_directory("vcredist"));
    assert!(!should_skip_directory("UE_5.3"));
    assert!(!should_skip_directory(""));
}

#[test]
fn engine_root_needs_engine_and_one_subdir() {
    assert!(is_engine_root(true, true, false));
    assert!(is_engine_root(true, false, true));
    assert!(is_engine_root(true, true, true));
    assert!(!is_engine_root(true, false, false));
    assert!(!is_engine_root(false, true, true));
}

#[test]
fn version_from_ue_marker() {
    assert_eq!(parse_version_from_name("UE_5.3"), Some("5.3".to_string()));
    assert_eq!(parse_version_from_name("ue-4.27.2"), Some("4.27.2".to_string()));
    assert_eq!(parse_version_from_name("MyUE_5.30.1Custom"), Some("5.30.1".to_string()));
    // The marker needs a digit right after the separator.
    assert_eq!(parse_version_from_name("UE_x9"), Some("9".to_string()));
}

#[test]
fn version_falls_back_to_first_number() {
    assert_eq!(parse_version_from_name("Unreal 5"), Some("5".to_string()));
    assert_eq!(parse_version_from_name("Engine4.26rc1"), Some("4.26".to_string()));
    assert_eq!(parse_version_from_name("NoDigitsHere"), None);
    assert_eq!(parse_version_from_name(""), None);
}

#[test]
fn version_stops_at_bare_dot() {
    // A dot not followed by a digit ends the version.
    assert_eq!(parse_version_from_name("UE_5."), Some("5".to_string()));
    assert_eq!(parse_version_from_name("UE_5.3.Custom"), Some("5.3".to_string()));
}

#[test]
fn labels_prefer_the_version() {
    assert_eq!(
        format_label("UE_5.3", &Some("5.3".to_string())),
        "Unreal Engine 5.3"
    );
    assert_eq!(format_label("Custom Build", &None), "Unreal Engine (Custom Build)");
    assert_eq!(format_label("", &None), "Unreal Engine");
}

#[test]
fn candidates_are_filtered_and_deduplicated() {
    let mut installs: Vec<EngineInstall> = Vec::new();
    // A skipped directory never joins.
    assert!(!add_candidate(
        &mut installs,
        "/epic/Launcher".to_string(),
        "Launcher",
        "Launcher",
        None,
        true,
    ));
    // A directory that is no engine root never joins.
    assert!(!add_candidate(
        &mut installs,
        "/epic/Empty".to_string(),
        "Empty",
        "Empty",
        None,
        false,
    ));
    assert!(installs.is_empty());
    // A real root joins, with the version mined from its name.
    assert!(add_candidate(
        &mut installs,
        "/epic/UE_5.3".to_string(),
        "UE_5.3",
        "UE_5.3",
        None,
        true,
    ));
    assert_eq!(installs.len(), 1);
    assert_eq!(installs[0].id, "/epic/UE_5.3");
    assert_eq!(installs[0].path, "/epic/UE_5.3");
    assert_eq!(installs[0].version, Some("5.3".to_string()));
    assert_eq!(installs[0].name, "Unreal Engine 5.3");
    // The same path never joins twice.
    assert!(!add_candidate(
        &mut installs,
        "/epic/UE_5.3".to_string(),
        "UE_5.3",
        "UE_5.3",
        None,
        true,
    ));
    assert_eq!(installs.len(), 1);
    // A launcher entry carries its own version and display name.
    assert!(add_candidate(
        &mut installs,
        "/epic/Custom".to_string(),
        "Custom",
        "My Engine",
        Some("5.4.1".to_string()),
        true,
    ));
    assert_eq!(installs[1].version, Some("5.4.1".to_string()));
    assert_eq!(installs[1].name, "Unreal Engine 5.4.1");
}

#[test]
fn editor_target_appends_editor() {
    assert_eq!(
        derive_editor_target("C:\\Projects\\MyGame.uproject"),
        Ok("MyGameEditor".to_string())
    );
    assert_eq!(
        derive_editor_target("/home/dev/Game.uproject"),
        Ok("GameEditor".to_string())
    );
    assert_eq!(derive_editor_target("Bare"), Ok("BareEditor".to_string()));
}

#[test]
fn editor_target_keeps_an_editor_suffix() {
    assert_eq!(
        derive_editor_target("/p/MyGameEditor.uproject"),
        Ok("MyGameEditor".to_string())
    );
    // The suffix check lowercases first; the stem keeps its own casing.
    assert_eq!(
        derive_editor_target("/p/GameEDITOR.uproject"),
        Ok("GameEDITOR".to_string())
    );
}

#[test]
fn editor_target_rejects_unusable_names() {
    let err = Err("Project file name is invalid".to_string());
    assert_eq!(derive_editor_target(""), err);
    assert_eq!(derive_editor_target("/some/dir/"), err);
    assert_eq!(derive_editor_target("/some/."), err);
    assert_eq!(derive_editor_target(".."), err);
}

#[test]
fn build_invocation_is_assembled_exactly() {
    assert_eq!(
        ubt_dll_path("/engines/UE_5.3"),
        "/engines/UE_5.3/Engine/Binaries/DotNET/UnrealBuildTool/UnrealBuildTool.dll"
    );
    let args = build_args("/e/ubt.dll", "GameEditor", "/p/Game.uproject");
    assert_eq!(
        args,
        vec![
            "/e/ubt.dll".to_string(),
            "GameEditor".to_string(),
            "Win64".to_string(),
            "Development".to_string(),
            "-Project=/p/Game.uproject".to_string(),
            "-WaitMutex".to_string(),
        ]
    );
    assert_eq!(
        build_command_line("/e/ubt.dll", "GameEditor", "/p/Game.uproject"),
        "dotnet \"/e/ubt.dll\" GameEditor Win64 Development -Project=\"/p/Game.uproject\" -WaitMutex"
    );
    assert_eq!(
        editor_exe_path("/engines/UE_5.3"),
        "/engines/UE_5.3/Engine/Binaries/Win64/UnrealEditor.exe"
    );
}

#[test]
fn version_parts_keep_the_numeric_segments() {
    assert_eq!(version_parts("5.3.2"), vec![5u32, 3, 2]);
    // A segment that is no plain number is passed over.
    assert_eq!(version_parts("5.3.2-release"), vec![5u32, 3]);
    assert_eq!(version_parts("+7.01"), vec![7u32, 1]);
    assert_eq!(version_parts(""), Vec::<u32>::new());
    assert_eq!(version_parts("abc"), Vec::<u32>::new());
    // A segment past the numeric range is passed over too.
    assert_eq!(version_parts("4294967295.4294967296"), vec![4294967295u32]);
}

fn install(id: &str, version: Option<&str>) -> EngineInstall {
    EngineInstall {
        id: id.to_string(),
        name: String::new(),
        path: id.to_string(),
        version: version.map(|v| v.to_string()),
    }
}

#[test]
fn installs_sort_newest_first() {
    let mut installs = vec![
        install("a", Some("5.1")),
        install("b", None),
        install("c", Some("5.10")),
        install("d", Some("4.27.2")),
        install("e", Some("5.1.1")),
    ];
    sort_installs(&mut installs);
    let ids: Vec<&str> = installs.iter().map(|x| x.id.as_str()).collect();
    // Entries with no version sort ahead, then versions descend.
    assert_eq!(ids, vec!["b", "c", "e", "a", "d"]);
}

#[test]
fn default_config_is_empty() {
    let c = Config::default();
    assert!(c.projects.is_empty());
    assert_eq!(c.unreal_engine_path, None);
}
