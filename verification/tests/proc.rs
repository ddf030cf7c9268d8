use xtask::proc::{LoadOutcome, WAIT_OBJECT_0, WAIT_TIMEOUT, judge_load, report_load};

type Case = (&'static str, u32, bool, u32, Option<u32>, bool, LoadOutcome);

#[test]
fn the_load_verdict_follows_the_evidence_in_order() {
    let cases: &[Case] = &[
        ("a wait that ran out says nothing", WAIT_TIMEOUT, true, 0, Some(1), false, LoadOutcome::TimedOut),
        (
            "a crash in DllMain ends the process and its status is the answer",
            WAIT_OBJECT_0,
            false,
            0xC000_0005,
            Some(0xC000_0005),
            false,
            LoadOutcome::ProcessExited(0xC000_0005),
        ),
        ("a module whose handle has zero low bits is still loaded", WAIT_OBJECT_0, true, 0, Some(0), true, LoadOutcome::Loaded),
        ("the module list decides even with no thread code", WAIT_OBJECT_0, true, 0, None, true, LoadOutcome::Loaded),
        ("no module and no code is its own answer", WAIT_OBJECT_0, true, 0, None, false, LoadOutcome::ThreadCodeUnreadable),
        ("a zero code with no module is a refusal", WAIT_OBJECT_0, true, 0, Some(0), false, LoadOutcome::Refused { thread_code: 0 }),
        (
            "a nonzero code with no module is still a refusal",
            WAIT_OBJECT_0,
            true,
            0,
            Some(0x7FF8_0000),
            false,
            LoadOutcome::Refused { thread_code: 0x7FF8_0000 },
        ),
    ];
    for (label, wait, alive, status, code, listed, want) in cases {
        assert_eq!(judge_load(*wait, *alive, *status, *code, *listed), *want, "{label}");
    }
}

#[test]
fn executables_compare_by_the_file_they_name() {
    let dir = tempfile::tempdir().expect("a sandbox");
    let build = tempfile::Builder::new().prefix("build").rand_bytes(0).tempdir_in(dir.path()).expect("build dir");
    let real = tempfile::Builder::new()
        .prefix("enshrouded_server.exe")
        .rand_bytes(0)
        .tempfile_in(build.path())
        .expect("the server file");
    let real_path = real.path().to_string_lossy().into_owned();
    let via_dots = dir.path().join("build").join("..").join("build").join("enshrouded_server.exe");
    assert!(xtask::proc::same_executable(&real_path, &via_dots.to_string_lossy()), "a dotted path names the same file");
    let other = tempfile::Builder::new()
        .prefix("enshrouded.exe")
        .rand_bytes(0)
        .tempfile_in(build.path())
        .expect("another file");
    assert!(
        !xtask::proc::same_executable(&real_path, &other.path().to_string_lossy()),
        "a different file is different"
    );
    let missing = dir.path().join("build").join("absent.exe");
    assert!(!xtask::proc::same_executable(&real_path, &missing.to_string_lossy()), "a file that is not there is not the server");
    assert!(xtask::proc::same_file_as("a/SERVER.exe", "a/server.EXE", None, None), "case does not separate two files on Windows");
}

#[test]
fn a_host_without_the_server_claims_nothing() {
    assert!(matches!(xtask::proc::claim(42, "server.exe"), xtask::proc::Claim::Gone));
    assert_eq!(xtask::proc::send_break(42).unwrap_err(), xtask::proc::UNSUPPORTED);
    assert_eq!(xtask::proc::inject(42, "loader.dll").unwrap_err(), xtask::proc::UNSUPPORTED);
    assert_eq!(xtask::proc::wait_milliseconds(5), 5000);
    assert_eq!(xtask::proc::wait_milliseconds(u64::MAX), u32::MAX);
    assert!(xtask::proc::exit_from_wait(xtask::proc::WAIT_TIMEOUT) == xtask::proc::Exit::Running);
    assert!(xtask::proc::exit_from_wait(xtask::proc::WAIT_OBJECT_0) == xtask::proc::Exit::Gone);
}

#[test]
fn a_load_verdict_reads_as_the_caller_sees_it() {
    assert!(report_load(7, "C:\\loader.dll", LoadOutcome::Loaded).is_ok());
    assert_eq!(
        report_load(7, "C:\\loader.dll", LoadOutcome::ProcessExited(0xC000_0005)).unwrap_err(),
        "process 7 exited with status 0xc0000005 while loading C:\\loader.dll"
    );
    assert_eq!(
        report_load(7, "x.dll", LoadOutcome::ProcessExited(1)).unwrap_err(),
        "process 7 exited with status 0x00000001 while loading x.dll"
    );
    assert_eq!(
        report_load(7, "x.dll", LoadOutcome::TimedOut).unwrap_err(),
        "the loader thread in process 7 did not finish. The load may still complete."
    );
    assert!(report_load(7, "x.dll", LoadOutcome::Refused { thread_code: 0x7FF8_0000 }).unwrap_err().contains("returned 0x7ff80000."));
    assert!(report_load(7, "x.dll", LoadOutcome::ThreadCodeUnreadable).unwrap_err().ends_with("could not be read"));
}
