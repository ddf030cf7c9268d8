use std::collections::hash_map::RandomState;
use std::hash::{BuildHasher, Hasher};

use xtask::server::{
    Recorded, StopAction, after_terminate, after_wait, default_config, json_string, password, recorded_pid, unclaimed,
};

/// Bytes that differ from run to run, standing in for the operating system's
/// random source.
fn random_bytes(count: usize) -> Vec<u8> {
    let state = RandomState::new();
    (0..count)
        .map(|i| {
            let mut hasher = state.build_hasher();
            hasher.write_usize(i);
            (hasher.finish() & 0xFF) as u8
        })
        .collect()
}

fn config_for(path: &std::path::Path) -> String {
    let mut random: Vec<u8> = Vec::new();
    for group in 0..4u8 {
        random.extend((0..20u8).map(|i| group * 20 + i));
    }
    default_config(&path.to_string_lossy(), &random)
}

#[test]
fn a_windows_path_is_escaped_for_json() {
    let cases: &[(&str, &str)] = &[
        (r"Z:\repos\ember\.cache\run\23178631", r"Z:\\repos\\ember\\.cache\\run\\23178631"),
        ("/home/zach/.cache/run", "/home/zach/.cache/run"),
    ];
    for (input, want) in cases {
        assert_eq!(json_string(input), *want, "path {input}");
    }
}

#[test]
fn the_default_config_carries_this_run_and_no_placeholders() {
    let dir = tempfile::tempdir().expect("a sandbox");
    let config = config_for(dir.path());
    assert!(!config.contains("{PASSWORD"), "every placeholder is replaced");
    assert!(!config.contains("{SAVE_DIRECTORY}"));
    assert!(!config.contains("{LOG_DIRECTORY}"));
    assert!(config.contains(&json_string(&dir.path().join("savegame").to_string_lossy())));
    assert!(config.contains(&json_string(&dir.path().join("logs").to_string_lossy())));
}

#[test]
fn the_default_config_binds_the_loopback_with_one_slot() {
    let dir = tempfile::tempdir().expect("a sandbox");
    let config = config_for(dir.path());
    let bind: Vec<&str> = config
        .lines()
        .filter(|line| line.contains("\"ip\"") || line.contains("\"slotCount\""))
        .collect();
    assert!(config.contains("\"ip\": \"127.0.0.1\""), "{bind:?}");
    assert!(config.contains("\"slotCount\": 1,"), "{bind:?}");
    assert!(!config.contains("0.0.0.0"), "{bind:?}");
}

#[test]
fn each_user_group_gets_its_own_password() {
    let dir = tempfile::tempdir().expect("a sandbox");
    let config = config_for(dir.path());
    let passwords: Vec<&str> = config
        .lines()
        .filter_map(|line| line.trim().strip_prefix("\"password\": \""))
        .filter_map(|rest| rest.strip_suffix("\","))
        .collect();
    assert_eq!(passwords.len(), 4, "one password per shipped user group");
    for value in &passwords {
        assert_eq!(value.len(), 20, "a generated password is twenty characters");
    }
    let unique: std::collections::BTreeSet<&&str> = passwords.iter().collect();
    assert_eq!(unique.len(), 4, "the four passwords differ");
}

#[test]
fn a_generated_password_uses_an_unambiguous_alphabet() {
    let value = password(&random_bytes(20));
    assert_eq!(value.len(), 20);
    for character in value.chars() {
        assert!(character.is_ascii_alphanumeric(), "unexpected character {character:?}");
        assert!(!"lIO01".contains(character), "the alphabet leaves out characters that read alike, got {character:?}");
    }
}

#[test]
fn a_byte_picks_the_alphabet_character_at_its_remainder() {
    assert_eq!(password(&[0, 1, 56, 57, 255]), "ab9aC");
}

#[test]
fn a_pid_file_reads_as_the_number_it_holds() {
    assert_eq!(recorded_pid("4242\n"), Some(4242));
    assert_eq!(recorded_pid("  17 "), Some(17));
    assert_eq!(recorded_pid("not a pid"), None);
    assert_eq!(recorded_pid("4294967296"), None);
    assert_eq!(recorded_pid(""), None);
}

#[test]
fn a_stop_reports_what_the_pid_file_named() {
    let rows = unclaimed(&Recorded::Stale { pid: 42, image: "C:\\Games\\client.exe".to_string() }).expect("a stale file stops here");
    assert_eq!(rows.len(), 2);
    assert_eq!(rows[0].value(), "42");
    assert_eq!(rows[0].note_text(), "is C:\\Games\\client.exe, not the server");
    assert_eq!(rows[1].name(), "server.pid");
    assert_eq!(unclaimed(&Recorded::Gone(7)).expect("gone")[0].value(), "7 already gone");
    assert_eq!(unclaimed(&Recorded::Absent).expect("absent")[0].value(), "none recorded");

    match after_wait(42, "23178631", true, Some("helper said no"), false, 60) {
        StopAction::Stopped(rows) => {
            assert_eq!(rows.len(), 2, "a clean stop does not report the helper's trouble");
            assert_eq!(rows[0].note_text(), "stopped cleanly");
            assert_eq!(rows[1].value(), "23178631");
        }
        _ => panic!("the server left"),
    }
    match after_wait(42, "23178631", false, Some("helper said no"), false, 60) {
        StopAction::Left(rows) => {
            assert_eq!(rows.len(), 2);
            assert_eq!(rows[0].note_text(), "helper said no");
            assert_eq!(rows[1].note_text(), "still running after 60s");
        }
        _ => panic!("no force was given"),
    }
    match after_wait(42, "23178631", false, None, true, 60) {
        StopAction::Terminate(rows) => assert!(rows.is_empty()),
        _ => panic!("force was given"),
    }
    assert_eq!(after_terminate(42)[0].note_text(), "terminated after the timeout");
}

#[test]
fn a_fixture_inside_the_run_directory_is_refused() {
    let run = tempfile::tempdir().expect("a run directory");
    let inside = run.path().join("fixture");
    match xtask::server::refuse_fixture_inside_run(&inside.to_string_lossy(), &run.path().to_string_lossy()) {
        Ok(()) => panic!("a fixture inside the run directory must be refused"),
        Err(err) => assert_eq!(
            err,
            format!(
                "the fixture {} is inside the run directory {}, which seeding overwrites",
                inside.to_string_lossy(),
                run.path().to_string_lossy()
            )
        ),
    }
    assert!(xtask::server::refuse_fixture_inside_run(&run.path().to_string_lossy(), &run.path().to_string_lossy()).is_err());
    let elsewhere = tempfile::tempdir().expect("a fixture");
    assert!(xtask::server::refuse_fixture_inside_run(&elsewhere.path().to_string_lossy(), &run.path().to_string_lossy()).is_ok());
}

#[test]
fn the_fixture_verdict_follows_where_it_lies() {
    assert_eq!(
        xtask::server::fixture_verdict("f", "r", true),
        Err("the fixture f is inside the run directory r, which seeding overwrites".to_string())
    );
    assert_eq!(xtask::server::fixture_verdict("f", "r", false), Ok(()));
}
