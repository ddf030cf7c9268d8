use xtask::steam::{content_tree, ensure_outside_library};

#[test]
fn a_refusal_names_the_library_and_the_way_forward() {
    let dir = tempfile::tempdir().expect("a sandbox");
    let case = dir.path().join("SteamLibrary").join("steamapps").join("common").join("Enshrouded");
    let err = match ensure_outside_library(&case.to_string_lossy(), "a server directory") {
        Ok(()) => panic!("a path inside a content tree must be refused"),
        Err(err) => err,
    };
    assert!(err.contains("Steam library"), "the refusal must name the Steam library, got {err}");
    assert!(err.contains("server fetch"), "the refusal must name the way forward, got {err}");
    assert!(err.contains("steamapps"), "the refusal must name the directory that matched, got {err}");
}

#[test]
fn ordinary_paths_are_accepted() {
    let dir = tempfile::tempdir().expect("a sandbox");
    let cases = vec![
        dir.path().join("server").join("23178631"),
        dir.path().join("steamapps-archive"),
        dir.path().join("my steamapps notes"),
        dir.path().join("SteamLibraryBackup"),
    ];
    for case in cases {
        if let Err(err) = ensure_outside_library(&case.to_string_lossy(), "a server directory") {
            panic!("{} must be accepted: {err}", case.display());
        }
    }
}

#[test]
fn the_content_tree_rule_reads_components_and_ignores_case() {
    let refused: &[&str] = &[
        r"D:\SteamLibrary\steamapps\common\Enshrouded",
        r"D:/SteamLibrary/steamapps/common/Enshrouded",
        r"D:\SteamLibrary\SteamApps\Common\Enshrouded",
        r"D:\SteamLibrary\STEAMAPPS\common\Enshrouded",
        r"C:\Program Files (x86)\Steam\steamapps\common\Enshrouded",
        r"\\fileserver\games\steamapps\common\Enshrouded",
    ];
    for case in refused {
        let marker = content_tree(case).unwrap_or_else(|| panic!("{case} is inside a Steam content tree"));
        assert!(marker.to_ascii_lowercase().ends_with("steamapps"), "{case}: got {marker}");
    }
    assert_eq!(content_tree(r"D:\SteamLibrary\steamapps\common\x").as_deref(), Some(r"D:\SteamLibrary\steamapps"));
    let accepted: &[&str] = &[
        r"Z:\repos\ember\.cache\server\23178631",
        r"Z:\repos\ember\.cache\server\23178631\steamapps",
        r"D:\SteamLibrary\steamapps",
        r"D:\SteamLibrary\steamappscommon\Enshrouded",
        r"D:\backups\steamapps-common\Enshrouded",
        r"D:\common\steamapps",
    ];
    for case in accepted {
        assert!(content_tree(case).is_none(), "{case} is not inside a Steam content tree");
    }
}

#[test]
fn a_library_root_is_refused_by_its_steamapps_child() {
    for marker in ["common", "libraryfolders.vdf"] {
        let dir = tempfile::tempdir().expect("a sandbox");
        let library = tempfile::Builder::new().prefix("SteamLibrary").rand_bytes(0).tempdir_in(dir.path()).expect("library");
        let steamapps = tempfile::Builder::new().prefix("steamapps").rand_bytes(0).tempdir_in(library.path()).expect("steamapps");
        let _mark = tempfile::Builder::new().prefix(marker).rand_bytes(0).tempfile_in(steamapps.path()).expect("marker");
        assert!(xtask::steam::ensure_outside_library(&library.path().to_string_lossy(), "a server directory").is_err(), "{marker}");
        assert!(xtask::steam::ensure_outside_library(&steamapps.path().to_string_lossy(), "a server directory").is_err(), "{marker}");
    }
}

#[test]
fn a_steamcmd_install_directory_is_accepted() {
    let dir = tempfile::tempdir().expect("a sandbox");
    let build = tempfile::Builder::new().prefix("23178631").rand_bytes(0).tempdir_in(dir.path()).expect("build");
    let steamapps = tempfile::Builder::new().prefix("steamapps").rand_bytes(0).tempdir_in(build.path()).expect("steamapps");
    let _manifest = tempfile::Builder::new()
        .prefix("appmanifest_2278520.acf")
        .rand_bytes(0)
        .tempfile_in(steamapps.path())
        .expect("manifest");
    assert!(xtask::steam::ensure_outside_library(&build.path().to_string_lossy(), "a server directory").is_ok());
    assert!(xtask::steam::ensure_outside_library(&dir.path().to_string_lossy(), "the dev root").is_ok());
}

#[test]
fn a_found_library_is_a_refusal_and_none_is_no_objection() {
    let err = match xtask::steam::library_verdict("x", "a run directory", "/r/x", Some("/r/steamapps")) {
        Ok(()) => panic!("a found library must be a refusal"),
        Err(err) => err,
    };
    assert!(err.starts_with("refusing to use x as a run directory: it resolves to /r/x, which is inside the Steam library at /r/steamapps.\n"), "{err}");
    assert!(xtask::steam::library_verdict("x", "a run directory", "/r/x", None).is_ok());
}

#[test]
fn a_relative_path_into_a_content_tree_is_refused() {
    match ensure_outside_library("SteamLibrary/steamapps/common/Enshrouded", "a server directory") {
        Ok(()) => panic!("a relative path into a content tree must be refused"),
        Err(err) => assert!(err.contains("SteamLibrary/steamapps/common/Enshrouded"), "{err}"),
    }
}

#[test]
fn candidates_are_the_steamapps_prefixes_then_each_ancestor() {
    let ancestors = vec!["/a/steamapps/b".to_string(), "/a/steamapps".to_string(), "/a".to_string(), "/".to_string()];
    let candidates = xtask::steam::library_candidates_of("/a/steamapps/b", &ancestors);
    assert_eq!(
        candidates,
        vec![
            "/a/steamapps".to_string(),
            "/a/steamapps/b/steamapps".to_string(),
            "/a/steamapps/steamapps".to_string(),
            "/a/steamapps".to_string(),
            "/steamapps".to_string(),
        ]
    );
    assert_eq!(xtask::steam::library_candidates_of("/SteamApps", &[]), vec!["/SteamApps".to_string()]);
}

#[test]
fn the_first_probe_that_holds_names_the_library() {
    let ancestors = vec!["/x/y".to_string(), "/x".to_string()];
    // Candidates: /x/y/steamapps, then /x/steamapps; two probes each.
    assert_eq!(xtask::steam::marker_from_probes("/x/y", &ancestors, &[]), None);
    assert_eq!(xtask::steam::marker_from_probes("/x/y", &ancestors, &[false, false, false, false]), None);
    assert_eq!(
        xtask::steam::marker_from_probes("/x/y", &ancestors, &[false, true]),
        Some("/x/y/steamapps".to_string())
    );
    assert_eq!(
        xtask::steam::marker_from_probes("/x/y", &ancestors, &[false, false, true]),
        Some("/x/steamapps".to_string())
    );
}

#[test]
fn peeled_names_go_back_last_first() {
    let tail = vec!["c".to_string(), "b".to_string()];
    assert_eq!(xtask::steam::rejoin("/real", &tail), "/real/b/c");
    assert_eq!(xtask::steam::rejoin("/real/", &[]), "/real/");
}
