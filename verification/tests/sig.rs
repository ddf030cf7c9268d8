use std::path::Path;

use xtask::sig::{
    error_log, export_path, finish, parse_address, program_name, result_path, script_lines, seed_list,
    status_text, trim_ghidra,
};
use xtask::ui::Mark;

#[test]
fn the_address_list_opens_with_the_generated_header() {
    let text = seed_list(&[0x1_4006_c1a0, 0x1_401a_ba90]);
    let mut lines = text.lines();
    assert_eq!(lines.next(), Some("# Auto-generated by `cargo xtask sig analyze`. Do not edit."));
    assert_eq!(lines.next(), Some("0x14006c1a0"));
    assert_eq!(lines.next(), Some("0x1401aba90"));
    assert_eq!(lines.next(), None);
}

#[test]
fn an_address_is_hexadecimal_with_or_without_the_prefix() {
    assert_eq!(parse_address("0x14006c1a0").unwrap(), 0x1_4006_c1a0);
    assert_eq!(parse_address("0X14006C1A0").unwrap(), 0x1_4006_c1a0);
    assert_eq!(parse_address("14006c1a0").unwrap(), 0x1_4006_c1a0);
    assert_eq!(parse_address("0b1010").unwrap(), 0x000b_1010);
    for bad in ["", "0x", "zz", "0x14006c1a0z", "-1", "1400 6c1a0"] {
        assert!(parse_address(bad).is_err(), "address {bad:?}");
    }
}

#[test]
fn a_refused_address_is_named_in_the_refusal() {
    assert_eq!(parse_address("zz").unwrap_err(), "\"zz\" is not a hexadecimal address");
    assert_eq!(parse_address("0x10000000000000000").unwrap_err(), "\"0x10000000000000000\" is not a hexadecimal address");
    assert_eq!(parse_address("0xffffffffffffffff").unwrap(), u64::MAX);
}

#[test]
fn the_pair_result_is_named_for_both_exports() {
    let project = Path::new("root").join("23178631");
    let export = export_path(&project.to_string_lossy(), "23178631");
    assert_eq!(Path::new(&export).file_name().unwrap(), "23178631.BinExport");
    let result = result_path("pair", "23178631", "5177045887918896292");
    assert_eq!(Path::new(&result).file_name().unwrap(), "23178631_vs_5177045887918896292.BinDiff");
}

#[test]
fn the_error_log_sits_beside_the_log() {
    let log = Path::new("dir").join("analyze.log");
    assert_eq!(Path::new(&error_log(&log.to_string_lossy())), Path::new("dir").join("analyze.err.log"));
}

#[test]
fn each_script_line_reaches_a_result_row() {
    let log = "INFO  Using log config file (Headless)\n\
               INFO  seed read=3 already=1 created=2 refused=0 (HeadlessAnalyzer)\n\
               INFO  binexport wrote out.BinExport bytes=66394294 functions=26291 (HeadlessAnalyzer)\n\
               INFO  Save succeeded (HeadlessAnalyzer)\n";
    let rows = script_lines(log);
    assert_eq!(rows.len(), 2, "the seed line and the export line, and no other");
    assert_eq!(rows[0].name(), "seeded");
    assert_eq!(rows[0].value(), "read=3 already=1 created=2 refused=0");
    assert_eq!(rows[1].name(), "exported");
    assert_eq!(rows[1].value(), "wrote out.BinExport bytes=66394294 functions=26291");
}

#[test]
fn a_script_line_drops_ghidras_own_tag() {
    assert_eq!(trim_ghidra("read=1 created=1 (HeadlessAnalyzer)"), "read=1 created=1");
    assert_eq!(trim_ghidra("read=1 created=1"), "read=1 created=1");
}

#[test]
fn an_exit_status_reads_as_its_code() {
    assert_eq!(status_text(Some(0)), "exit 0");
    assert_eq!(status_text(Some(-1073741819)), "exit -1073741819");
    assert_eq!(status_text(None), "killed");
}

#[test]
fn a_run_that_saved_nothing_is_refused() {
    match finish(true, Some(0), "INFO  analysis done\n", "a.log", "analysis", true) {
        Err(text) => assert_eq!(
            text,
            "the analysis run exited zero and its log holds no \"Save succeeded\", so nothing was written to the project. Read a.log."
        ),
        Ok(_) => panic!("a run with no save must be refused"),
    }
    match finish(true, Some(0), "INFO  Save succeeded (x)\n", "a.log", "analysis", true) {
        Ok((passed, rows)) => {
            assert!(passed);
            assert_eq!(rows.len(), 1);
            assert!(rows[0].mark() == Mark::Pass);
            assert_eq!(rows[0].value(), "exit 0");
            assert_eq!(rows[0].note_text(), "a.log");
        }
        Err(text) => panic!("{text}"),
    }
    match finish(false, Some(3), "", "a.log", "export", false) {
        Ok((passed, rows)) => {
            assert!(!passed);
            assert_eq!(rows[0].value(), "exit 3");
        }
        Err(text) => panic!("{text}"),
    }
}

#[test]
fn a_program_is_known_by_its_file_name() {
    assert_eq!(program_name("dir/build/enshrouded_server.exe"), "enshrouded_server.exe");
    assert_eq!(program_name("dir/other.exe/"), "other.exe");
    assert_eq!(program_name("dir/.."), "enshrouded_server.exe");
    assert_eq!(program_name(""), "enshrouded_server.exe");
}

#[test]
fn a_tool_home_that_names_no_directory_is_refused_by_name() {
    for (value, wanted) in [(None, "is not set"), (Some(""), "is not set"), (Some("Z:\\nothing-is-installed-here"), "not a directory")] {
        let err = xtask::sig::tool_home("A_TEST_TOOL_HOME", "a test tool", value).expect_err(wanted);
        assert!(err.contains("A_TEST_TOOL_HOME"), "{err}");
        assert!(err.contains(wanted), "{err}");
    }
    let dir = tempfile::tempdir().expect("a sandbox");
    let home = dir.path().to_string_lossy().into_owned();
    assert_eq!(xtask::sig::tool_home("A_TEST_TOOL_HOME", "a test tool", Some(&home)).unwrap(), home);
    let err = xtask::sig::under(&home, "A_TEST_TOOL_HOME", "bin/bindiff").expect_err("nothing is installed");
    assert_eq!(err, format!("A_TEST_TOOL_HOME names {home}, which holds no bin/bindiff"));
}

#[test]
fn a_headless_run_carries_the_launcher_arguments_first() {
    let args = xtask::sig::launch_args("4G", &["proj".to_string(), "23178631".to_string()]);
    assert_eq!(
        args,
        ["fg", "jdk", "Ghidra-Headless", "4G", "-XX:ParallelGCThreads=2 -XX:CICompilerCount=2", "ghidra.app.util.headless.AnalyzeHeadless", "proj", "23178631"]
    );
    let post = xtask::sig::post_script("SeedFunctions.java", "list.txt", "/ws");
    assert_eq!(post, ["-scriptPath", "/ws/xtask/ghidra", "-postScript", "SeedFunctions.java", "list.txt"]);
}

#[test]
fn every_seed_the_list_writes_reads_back() {
    let addresses = [0_u64, 0xf, 0x10, 0x1_4006_c1a0, u64::MAX];
    let text = seed_list(&addresses);
    let read: Vec<u64> = text.lines().skip(1).map(|line| parse_address(line).expect("a seed reads back")).collect();
    assert_eq!(read, addresses);
}
