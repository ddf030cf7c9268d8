use xtask::root::{DevRoot, check_build_id};

fn root_at(path: &std::path::Path) -> DevRoot {
    match DevRoot::resolve(Some(&path.to_string_lossy()), None, "") {
        Ok(root) => root,
        Err(err) => panic!("a sandbox is a usable root: {err}"),
    }
}

#[test]
fn a_buildid_is_one_plain_directory_name() {
    let cases: &[(&str, bool)] = &[
        ("23178631", true),
        ("23178631-local", true),
        ("build_2", true),
        ("v1.0", true),
        ("", false),
        (".", false),
        ("..", false),
        (".fetching", false),
        ("../escape", false),
        ("..\\escape", false),
        ("nested/build", false),
        ("D:current", false),
        ("C:\\absolute", false),
        ("23178631.", false),
        ("23178631 ", false),
        ("with space", false),
        ("NUL", false),
        ("nul", false),
        ("con.txt", false),
        ("COM1", false),
        ("lpt9", false),
        ("Ünïcode", false),
    ];
    for (name, want) in cases {
        assert_eq!(check_build_id(name).is_ok(), *want, "name {name:?}");
    }
}

#[test]
fn an_escaping_buildid_never_reaches_a_join() {
    let dir = tempfile::tempdir().expect("a sandbox");
    let root = root_at(dir.path());
    for name in ["..\\..\\out", "C:\\SteamLibrary", "/abs", ".fetching"] {
        assert!(root.build_dir(name).is_err(), "build_dir {name}");
        assert!(root.run_dir(name).is_err(), "run_dir {name}");
        assert!(root.schema_build_dir(name).is_err(), "schema_build_dir {name}");
        assert!(root.loca_build_dir(name).is_err(), "loca_build_dir {name}");
        assert!(root.build_id(Some(name), &[]).is_err(), "build_id {name}");
    }
}

#[test]
fn a_refused_buildid_is_named_in_the_refusal() {
    assert_eq!(check_build_id("").unwrap_err(), "a buildid cannot be empty");
    assert_eq!(
        check_build_id("../escape").unwrap_err(),
        "a buildid is one directory name, so \"../escape\" cannot carry '/'"
    );
    assert_eq!(
        check_build_id("..\\escape").unwrap_err(),
        "a buildid is one directory name, so \"..\\\\escape\" cannot carry '\\\\'"
    );
    assert_eq!(
        check_build_id(".fetching").unwrap_err(),
        "a buildid cannot start with a dot, so \".fetching\" cannot be used"
    );
    assert_eq!(
        check_build_id("23178631.").unwrap_err(),
        "a buildid cannot end in a dot or a space, so \"23178631.\" cannot be used"
    );
    assert_eq!(
        check_build_id("con.txt").unwrap_err(),
        "\"con.txt\" is a name Windows reserves for a device"
    );
}

#[test]
fn only_a_numbered_directory_is_a_fetched_build() {
    let dir = tempfile::tempdir().expect("a sandbox");
    let root = root_at(dir.path());
    let names: Vec<String> = ["23178631", ".fetching", "hand-placed", "9999999"]
        .iter()
        .map(|s| s.to_string())
        .collect();
    let fetched = root.fetched_builds(&names);
    assert_eq!(fetched, vec!["9999999", "23178631"]);
    assert_eq!(root.build_id(None, &fetched).unwrap(), "23178631");
    assert!(root.fetched_builds(&[]).is_empty());
    let err = root.build_id(None, &[]).expect_err("nothing numbered is fetched");
    assert!(err.contains("server fetch"), "{err}");
}

#[test]
fn directories_sit_under_the_cache() {
    let dir = tempfile::tempdir().expect("a sandbox");
    let root = root_at(dir.path());
    let base = root.path().to_string();
    assert_eq!(root.cache(), format!("{base}/.cache"));
    assert_eq!(root.server_dir(), format!("{base}/.cache/server"));
    assert_eq!(root.schema_dir(), format!("{base}/.cache/schema"));
    assert_eq!(root.loca_dir(), format!("{base}/.cache/loca"));
    assert_eq!(root.steamcmd(), format!("{base}/.cache/steamcmd/steamcmd.exe"));
    assert_eq!(root.build_dir("23178631").unwrap(), format!("{base}/.cache/server/23178631"));
    assert_eq!(root.run_dir("23178631").unwrap(), format!("{base}/.cache/run/23178631"));
}

#[test]
fn the_buildid_comes_from_the_app_manifest_text() {
    let text = "\"AppState\"\n{\n\t\"appid\"\t\t\"2278520\"\n\t\"name\"\t\t\"Enshrouded Dedicated Server\"\n\t\"buildid\"\t\t\"23178631\"\n}\n";
    assert_eq!(
        xtask::root::build_id_in_manifest("steamapps/appmanifest_2278520.acf", text).unwrap(),
        "23178631"
    );
}

#[test]
fn a_manifest_buildid_that_escapes_is_refused() {
    for value in ["..\\..\\x", "../../x", "C:\\SteamLibrary", ".fetching", "NUL"] {
        let text = format!("\"AppState\"\n{{\n\t\"buildid\"\t\t\"{value}\"\n}}\n");
        let err = xtask::root::build_id_in_manifest("m.acf", &text).expect_err(value);
        assert!(err.contains("not usable"), "{value}: {err}");
    }
}

#[test]
fn a_manifest_with_no_buildid_is_an_error() {
    let text = "\"AppState\"\n{\n\t\"appid\"\t\t\"2278520\"\n}\n";
    let err = xtask::root::build_id_in_manifest("m.acf", text).expect_err("no buildid to read");
    assert!(err.contains("names no buildid"), "{err}");
    assert_eq!(xtask::root::manifest_build_id("\t\"buildid\"\t\t\"\"\n\t\"buildid\" \"7\""), Some("7".to_string()));
}

#[test]
fn an_empty_root_cannot_be_made_absolute() {
    match DevRoot::resolve(Some(""), Some("/elsewhere"), "/workspace") {
        Ok(root) => panic!("an empty root resolved to {}", root.path()),
        Err(err) => assert_eq!(err, "resolving the dev root at "),
    }
}

#[test]
fn the_explicit_root_wins_over_the_environment() {
    let dir = tempfile::tempdir().unwrap();
    let explicit = dir.path().join("explicit");
    let root = match DevRoot::resolve(Some(&explicit.to_string_lossy()), Some(""), "") {
        Ok(root) => root,
        Err(err) => panic!("an explicit root beats an empty environment value: {err}"),
    };
    assert!(!root.path().is_empty());
    assert!(root.path().ends_with("explicit"));
}

#[test]
fn every_guarded_directory_holding_a_library_is_refused() {
    let dir = tempfile::tempdir().unwrap();
    let root = root_at(dir.path());
    for (kind, r) in [("server", 0), ("run", 1), ("schema", 2), ("loca", 3)] {
        let mut held = Vec::new();
        let mut at = dir.path().to_path_buf();
        for name in [".cache", kind, "23178631", "steamapps", "common"] {
            let made = if at.join(name).exists() {
                None
            } else {
                Some(tempfile::Builder::new().prefix(name).rand_bytes(0).tempdir_in(&at).unwrap())
            };
            at = at.join(name);
            held.extend(made);
        }
        let got = match r {
            0 => root.build_dir("23178631"),
            1 => root.run_dir("23178631"),
            2 => root.schema_build_dir("23178631"),
            _ => root.loca_build_dir("23178631"),
        };
        match got {
            Ok(p) => panic!("{p} holds a Steam library"),
            Err(err) => assert!(err.contains("Steam library"), "{err}"),
        }
    }
}
