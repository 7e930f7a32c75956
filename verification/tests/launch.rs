use install_core::launch::{
    contains_text, extension, is_app_bundle, is_game_executable, launch_command, may_search,
    names_game_exe, needs_wine, pick_bundle, pick_executable, slug_pattern_of,
    strip_product_directory, Entry, Host, LaunchError,
};
use install_core::orchestrator::{
    resolve_update, BuildOs, InstallError, InstallInfo, InstalledProduct, LibraryEntry, ProductVersion,
};

fn entry(name: &str, is_file: bool) -> Entry {
    Entry { name: name.to_string(), is_file, is_dir: !is_file }
}

#[test]
fn finds_the_extension_of_a_name() {
    assert_eq!(extension("game.exe"), Some("exe".to_string()));
    assert_eq!(extension("a.b.app"), Some("app".to_string()));
    assert_eq!(extension("trailing."), Some(String::new()));
    assert_eq!(extension("none"), None);
    assert_eq!(extension(".hidden"), None);
    assert_eq!(extension(""), None);
    assert_eq!(extension(".hidden.exe"), Some("exe".to_string()));
}

#[test]
fn finds_a_text_within_another() {
    assert!(contains_text("my setup.exe", "setup"));
    assert!(contains_text("setup", "setup"));
    assert!(contains_text("xsetup", "setup"));
    assert!(!contains_text("setu", "setup"));
    assert!(!contains_text("set up", "setup"));
    assert!(contains_text("anything", ""));
    assert!(contains_text("", ""));
    assert!(!contains_text("", "a"));
}

#[test]
fn tells_game_executables_from_installers() {
    assert!(is_game_executable("Game.exe"));
    assert!(!is_game_executable("Game.EXE"));
    assert!(!is_game_executable("Setup.exe"));
    assert!(!is_game_executable("game-SETUP-1.exe"));
    assert!(!is_game_executable("Unins000.exe"));
    assert!(!is_game_executable("game.dll"));
    assert!(!is_game_executable("exe"));
    assert!(names_game_exe("Setup.exe", "harmless.exe"));
    assert!(!names_game_exe("game.exe", "setup"));
}

#[test]
fn tells_application_bundles() {
    assert!(is_app_bundle("Game.app"));
    assert!(!is_app_bundle("Game.App"));
    assert!(!is_app_bundle("Game.apps"));
    assert!(!is_app_bundle(".app"));
}

#[test]
fn picks_the_first_executable_file_of_a_listing() {
    let listing = vec![
        entry("readme.txt", true),
        entry("fake.exe", false),
        entry("setup.exe", true),
        entry("game.exe", true),
        entry("other.exe", true),
    ];
    assert_eq!(pick_executable(&listing), Some(3));
    assert_eq!(pick_executable(&listing[..3].iter().map(|e| entry(&e.name, e.is_file)).collect()), None);
    assert_eq!(pick_executable(&Vec::new()), None);
}

#[test]
fn picks_the_first_bundle_of_a_listing() {
    let listing = vec![entry("a.txt", true), entry("G.app", false), entry("H.app", true)];
    assert_eq!(pick_bundle(&listing), Some(1));
    assert_eq!(pick_bundle(&vec![entry("a.txt", true)]), None);
}

#[test]
fn strips_the_directory_named_after_the_product() {
    assert_eq!(slug_pattern_of("my-game"), "^my-game\\\\");
    assert_eq!(strip_product_directory("my-game", "my-game\\bin\\game.exe"), Ok("bin\\game.exe".to_string()));
    assert_eq!(strip_product_directory("my-game", "bin\\game.exe"), Ok("bin\\game.exe".to_string()));
    assert_eq!(
        strip_product_directory("my-game", "x\\my-game\\game.exe"),
        Ok("x\\my-game\\game.exe".to_string())
    );
    assert_eq!(strip_product_directory("my-game", "my-game/game.exe"), Ok("my-game/game.exe".to_string()));
    assert_eq!(strip_product_directory("a.b", "axb\\game.exe"), Ok("game.exe".to_string()));
    assert_eq!(strip_product_directory("a(b", "a(b\\game.exe"), Err(LaunchError::BadSlug));
}

#[test]
fn windows_games_need_wine_elsewhere() {
    assert!(needs_wine(BuildOs::Windows, Host::Linux));
    assert!(needs_wine(BuildOs::Windows, Host::Mac));
    assert!(!needs_wine(BuildOs::Windows, Host::Windows));
    assert!(!needs_wine(BuildOs::Mac, Host::Linux));
    assert_eq!(
        launch_command(BuildOs::Windows, Host::Linux, None, "g.exe".to_string()),
        Err(LaunchError::NeedsWine)
    );
    assert_eq!(
        launch_command(BuildOs::Windows, Host::Linux, Some("/usr/bin/wine".to_string()), "g.exe".to_string()),
        Ok(("/usr/bin/wine".to_string(), "g.exe".to_string()))
    );
    assert_eq!(
        launch_command(BuildOs::Windows, Host::Mac, Some("wine".to_string()), "g.exe".to_string()),
        Ok(("wine".to_string(), "g.exe".to_string()))
    );
}

#[test]
fn native_games_are_started_directly_or_opened() {
    assert_eq!(
        launch_command(BuildOs::Windows, Host::Windows, Some("wine".to_string()), "g.exe".to_string()),
        Ok(("g.exe".to_string(), String::new()))
    );
    assert_eq!(
        launch_command(BuildOs::Mac, Host::Mac, None, "G.app".to_string()),
        Ok(("open".to_string(), "G.app".to_string()))
    );
    assert_eq!(
        launch_command(BuildOs::Linux, Host::Linux, None, "game".to_string()),
        Ok(("game".to_string(), String::new()))
    );
}

#[test]
fn the_tree_is_searched_only_where_a_launch_is_possible() {
    assert_eq!(may_search(BuildOs::Windows, Host::Linux), Ok(()));
    assert_eq!(may_search(BuildOs::Windows, Host::Windows), Ok(()));
    assert_eq!(may_search(BuildOs::Mac, Host::Mac), Ok(()));
    assert_eq!(may_search(BuildOs::Mac, Host::Linux), Err(LaunchError::NeedsMac));
    assert_eq!(may_search(BuildOs::Linux, Host::Linux), Err(LaunchError::Unsupported));
}

#[test]
fn an_update_to_the_installed_build_does_nothing() {
    let library = vec![LibraryEntry {
        slugged_name: "game".to_string(),
        latest: Some(ProductVersion { version: "2".to_string(), os: BuildOs::Windows }),
    }];
    let have = |v: &str| InstalledProduct {
        slug: "game".to_string(),
        info: InstallInfo { install_path: "/g".to_string(), version: v.to_string(), os: BuildOs::Windows },
    };
    assert!(resolve_update(&library, &have("2"), None).unwrap().is_none());
    let target = resolve_update(&library, &have("1"), None).unwrap().unwrap();
    assert_eq!(target.build_version, "2");
    let older = ProductVersion { version: "1".to_string(), os: BuildOs::Windows };
    assert!(resolve_update(&library, &have("1"), Some(&older)).unwrap().is_none());
    assert_eq!(resolve_update(&library, &have("2"), Some(&older)).unwrap().unwrap().build_version, "1");
    assert_eq!(
        resolve_update(&Vec::new(), &have("1"), None).unwrap_err(),
        InstallError::NotFoundInLibrary
    );
}
