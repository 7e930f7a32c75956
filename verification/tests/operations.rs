use install_core::manifest::{ChangeTag, FileRecord};
use install_core::orchestrator::{
    check_updates, estimate_install, estimate_update, find_product, first_step, measure_disk,
    measure_download, next_step, read_leniently, resolve_build, BuildOs, InstallError, InstallInfo,
    InstalledProduct, LibraryEntry, Operation, Outcome, ProductVersion, SizeReport, Step, StepResult,
};
use install_core::store::{delta_build_key, kind_word, manifest_file_name, manifest_location, ManifestKind};
use install_core::tree_check::{file_passes, tree_passes, verification_tasks, FileState, VerifyTask};

fn version(v: &str, os: BuildOs) -> ProductVersion {
    ProductVersion { version: v.to_string(), os }
}

fn product(slug: &str, latest: Option<ProductVersion>) -> LibraryEntry {
    LibraryEntry { slugged_name: slug.to_string(), latest }
}

fn installed(slug: &str, v: &str) -> InstalledProduct {
    InstalledProduct {
        slug: slug.to_string(),
        info: InstallInfo { install_path: "/g".to_string(), version: v.to_string(), os: BuildOs::Windows },
    }
}

fn sized(name: &str, size: u64, flags: u32, tag: Option<ChangeTag>) -> FileRecord {
    FileRecord {
        sha: format!("sha-{}", name),
        file_name: name.to_string(),
        chunks: 1,
        flags,
        size_in_bytes: size,
        tag,
    }
}

#[test]
fn resolves_the_selected_or_the_latest_version() {
    let library = vec![
        product("other", Some(version("9", BuildOs::Linux))),
        product("game", Some(version("2.0", BuildOs::Mac))),
    ];
    let build = resolve_build(&library, &"game".to_string(), None).unwrap();
    assert_eq!(build.product_slug, "game");
    assert_eq!(build.build_version, "2.0");
    assert_eq!(build.os, BuildOs::Mac);
    let chosen = version("1.0", BuildOs::Windows);
    let build = resolve_build(&library, &"game".to_string(), Some(&chosen)).unwrap();
    assert_eq!(build.build_version, "1.0");
    assert_eq!(build.os, BuildOs::Windows);
}

#[test]
fn a_product_outside_the_library_is_not_found() {
    let library = vec![product("game", Some(version("2.0", BuildOs::Mac)))];
    let chosen = version("1.0", BuildOs::Windows);
    assert_eq!(
        resolve_build(&library, &"Game".to_string(), Some(&chosen)).unwrap_err(),
        InstallError::NotFoundInLibrary
    );
    assert_eq!(
        resolve_build(&Vec::new(), &"game".to_string(), None).unwrap_err(),
        InstallError::NotFoundInLibrary
    );
    assert!(find_product(&library, &"gam".to_string()).is_none());
}

#[test]
fn a_product_without_versions_has_no_such_version() {
    let library = vec![product("game", None)];
    assert_eq!(
        resolve_build(&library, &"game".to_string(), None).unwrap_err(),
        InstallError::NoSuchVersion
    );
    let chosen = version("1.0", BuildOs::Windows);
    assert!(resolve_build(&library, &"game".to_string(), Some(&chosen)).is_ok());
}

#[test]
fn the_first_product_of_a_slug_counts() {
    let library = vec![
        product("game", Some(version("1", BuildOs::Windows))),
        product("game", Some(version("2", BuildOs::Windows))),
    ];
    assert_eq!(resolve_build(&library, &"game".to_string(), None).unwrap().build_version, "1");
}

#[test]
fn lists_the_products_with_a_newer_build() {
    let library = vec![
        product("a", Some(version("2", BuildOs::Windows))),
        product("b", Some(version("5", BuildOs::Windows))),
        product("c", None),
        product("e", Some(version("7", BuildOs::Windows))),
    ];
    let have = vec![
        installed("e", "6"),
        installed("a", "2"),
        installed("b", "4"),
        installed("c", "1"),
        installed("d", "1"),
    ];
    assert_eq!(
        check_updates(&library, &have),
        vec![("e".to_string(), "7".to_string()), ("b".to_string(), "5".to_string())]
    );
    assert_eq!(check_updates(&library, &Vec::new()), Vec::<(String, String)>::new());
}

#[test]
fn install_runs_through_its_steps() {
    let op = Operation::Install;
    let mut step = first_step(op);
    let mut seen = vec![step];
    while !matches!(step, Step::Finish(_)) {
        step = next_step(op, false, step, StepResult::Done);
        seen.push(step);
    }
    assert_eq!(
        seen,
        vec![
            Step::FetchManifest,
            Step::StoreManifest,
            Step::FetchChunks,
            Step::StoreChunks,
            Step::Build,
            Step::Finish(Outcome::Installed),
        ]
    );
}

#[test]
fn install_that_only_reports_stops_after_the_file_manifest() {
    let op = Operation::Install;
    let mut step = first_step(op);
    let mut seen = vec![step];
    while !matches!(step, Step::Finish(_)) {
        step = next_step(op, true, step, StepResult::Done);
        seen.push(step);
    }
    assert_eq!(
        seen,
        vec![
            Step::FetchManifest,
            Step::StoreManifest,
            Step::ReportSizes,
            Step::Finish(Outcome::Reported),
        ]
    );
}

#[test]
fn update_uses_a_stored_delta_or_makes_one() {
    let op = Operation::Update;
    let mut step = first_step(op);
    let mut seen = vec![step];
    while !matches!(step, Step::Finish(_)) {
        let result = match step {
            Step::LoadDelta => StepResult::Missing,
            Step::LoadDeltaChunks => StepResult::Failed,
            _ => StepResult::Done,
        };
        step = next_step(op, false, step, result);
        seen.push(step);
    }
    assert_eq!(
        seen,
        vec![
            Step::ReadInstalledManifest,
            Step::FetchManifest,
            Step::StoreManifest,
            Step::FetchChunks,
            Step::StoreChunks,
            Step::LoadDelta,
            Step::MakeDelta,
            Step::LoadDeltaChunks,
            Step::MakeDeltaChunks,
            Step::Build,
            Step::Finish(Outcome::Updated),
        ]
    );
    assert_eq!(next_step(op, false, Step::LoadDelta, StepResult::Done), Step::LoadDeltaChunks);
    assert_eq!(next_step(op, false, Step::LoadDeltaChunks, StepResult::Done), Step::Build);
    assert_eq!(next_step(op, true, Step::LoadDeltaChunks, StepResult::Done), Step::ReportSizes);
    assert_eq!(next_step(op, true, Step::MakeDeltaChunks, StepResult::Done), Step::ReportSizes);
}

#[test]
fn a_step_that_goes_wrong_ends_the_operation_with_its_error() {
    let failed = |e| Step::Finish(Outcome::Failed(e));
    let op = Operation::Install;
    assert_eq!(
        next_step(op, false, Step::FetchManifest, StepResult::Unreachable),
        failed(InstallError::ManifestFetchFailed)
    );
    assert_eq!(
        next_step(op, false, Step::FetchChunks, StepResult::Failed),
        failed(InstallError::ManifestFetchFailed)
    );
    assert_eq!(next_step(op, false, Step::StoreManifest, StepResult::Failed), failed(InstallError::IoError));
    assert_eq!(next_step(op, false, Step::Build, StepResult::Failed), failed(InstallError::IoError));
    assert_eq!(
        next_step(op, false, Step::Build, StepResult::Unreachable),
        failed(InstallError::ChunkFetchFailed)
    );
    assert_eq!(
        next_step(op, false, Step::Build, StepResult::Corrupt),
        failed(InstallError::VerificationFailed)
    );
    assert_eq!(
        next_step(op, false, Step::Build, StepResult::Malformed),
        failed(InstallError::ManifestParseError)
    );
    assert_eq!(
        next_step(Operation::Update, false, Step::ReadInstalledManifest, StepResult::Missing),
        failed(InstallError::IoError)
    );
    assert_eq!(
        next_step(Operation::Update, false, Step::MakeDelta, StepResult::Malformed),
        failed(InstallError::ManifestParseError)
    );
    let end = Step::Finish(Outcome::Installed);
    assert_eq!(next_step(op, false, end, StepResult::Failed), end);
}

#[test]
fn measures_what_a_manifest_occupies_and_downloads() {
    let records = vec![
        sized("a", 10, 0, Some(ChangeTag::Added)),
        sized("b", 5, 0, Some(ChangeTag::Removed)),
        sized("c", 7, 0, Some(ChangeTag::Modified)),
        sized("d", 0, 40, None),
    ];
    assert_eq!(measure_disk(&records), 22);
    assert_eq!(measure_download(&records), 17);
    assert_eq!(measure_disk(&Vec::new()), 0);
    let big = vec![sized("x", u64::MAX, 0, None), sized("y", u64::MAX, 0, None)];
    assert_eq!(measure_disk(&big), 2 * (u64::MAX as u128));
}

#[test]
fn estimates_an_install() {
    let new = vec![sized("a", 10, 0, None), sized("b", 5, 0, None)];
    assert_eq!(
        estimate_install(&new),
        SizeReport { download: 15, disk: 15, needed: 15, shrinks: false }
    );
}

#[test]
fn estimates_an_update_that_grows_or_shrinks() {
    let old = vec![sized("a", 10, 0, None), sized("b", 50, 0, None)];
    let new = vec![sized("a", 12, 0, None), sized("c", 8, 0, None)];
    let delta = vec![
        sized("a", 12, 0, Some(ChangeTag::Modified)),
        sized("c", 8, 0, Some(ChangeTag::Added)),
        sized("b", 50, 0, Some(ChangeTag::Removed)),
    ];
    assert_eq!(
        estimate_update(&delta, &old, &new),
        SizeReport { download: 20, disk: 20, needed: 40, shrinks: true }
    );
    assert_eq!(
        estimate_update(&delta, &new, &old),
        SizeReport { download: 20, disk: 60, needed: 40, shrinks: false }
    );
    assert_eq!(
        estimate_update(&Vec::new(), &old, &old),
        SizeReport { download: 0, disk: 60, needed: 0, shrinks: false }
    );
}

#[test]
fn lenient_reading_leaves_bad_rows_out() {
    let row = |fields: &[&str]| fields.iter().map(|f| f.as_bytes().to_vec()).collect::<Vec<_>>();
    let rows = vec![
        row(&["s1", "a", "1", "0", "10"]),
        row(&["s2", "b", "x", "0", "20"]),
        row(&["s3", "c", "1", "0"]),
        row(&["s4", "d", "2", "0", "30", "Removed"]),
    ];
    let records = read_leniently(&rows);
    assert_eq!(records.len(), 2);
    assert_eq!(records[0].file_name, "a");
    assert_eq!(records[1].file_name, "d");
    assert_eq!(records[1].tag, Some(ChangeTag::Removed));
    assert_eq!(measure_disk(&records), 40);
}

#[test]
fn names_stored_manifests() {
    assert_eq!(kind_word(ManifestKind::Manifest), "manifest");
    assert_eq!(kind_word(ManifestKind::Chunks), "manifest_chunks");
    assert_eq!(kind_word(ManifestKind::Delta), "manifest_delta");
    assert_eq!(kind_word(ManifestKind::DeltaChunks), "manifest_delta_chunks");
    assert_eq!(manifest_file_name("1.2", ManifestKind::Manifest), "1.2_manifest.csv");
    assert_eq!(manifest_file_name("1.2", ManifestKind::Chunks), "1.2_manifest_chunks.csv");
    assert_eq!(delta_build_key("1.2", "1.3"), "1.2_1.3");
    assert_eq!(
        manifest_file_name(&delta_build_key("1.2", "1.3"), ManifestKind::DeltaChunks),
        "1.2_1.3_manifest_delta_chunks.csv"
    );
    assert_eq!(
        manifest_location("my-game", "1.2_1.3", ManifestKind::Delta),
        vec!["manifests", "my-game", "1.2_1.3_manifest_delta.csv"]
    );
}

#[test]
fn lists_the_files_to_hash() {
    let records = vec![
        sized("dir", 0, 40, None),
        sized("dir\\a", 3, 0, None),
        sized("b", 0, 0, None),
    ];
    let tasks = verification_tasks(&records);
    let listed: Vec<(String, String)> =
        tasks.iter().map(|t| (t.file_name.clone(), t.sha.clone())).collect();
    assert_eq!(
        listed,
        vec![("dir\\a".to_string(), "sha-dir\\a".to_string()), ("b".to_string(), "sha-b".to_string())]
    );
}

#[test]
fn a_tree_passes_only_if_every_file_does() {
    let task = |name: &str, sha: &str| VerifyTask { file_name: name.to_string(), sha: sha.to_string() };
    let tasks = vec![task("a", "aa"), task("b", "bb")];
    let good = vec![FileState::Hashed("aa".to_string()), FileState::Hashed("bb".to_string())];
    assert!(tree_passes(&tasks, &good));
    let wrong = vec![FileState::Hashed("aa".to_string()), FileState::Hashed("bc".to_string())];
    assert!(!tree_passes(&tasks, &wrong));
    let missing = vec![FileState::Missing, FileState::Hashed("bb".to_string())];
    assert!(!tree_passes(&tasks, &missing));
    let unreadable = vec![FileState::Hashed("aa".to_string()), FileState::Unreadable];
    assert!(!tree_passes(&tasks, &unreadable));
    assert!(!tree_passes(&tasks, &vec![FileState::Hashed("aa".to_string())]));
    assert!(tree_passes(&Vec::new(), &Vec::new()));
    assert!(file_passes(&tasks[0], &FileState::Hashed("aa".to_string())));
    assert!(!file_passes(&tasks[0], &FileState::Hashed("AA".to_string())));
}
