use xtask::check::{CRATE_ENV, Outcome, Program, canary_passed, rows, steps, summary};
use xtask::ui::Mark;

#[test]
fn the_gate_runs_its_rows_in_the_documented_order() {
    let steps = steps(false);
    let names: Vec<&str> = steps.iter().map(|step| step.name).collect();
    assert_eq!(
        names,
        [
            "fmt",
            "taplo",
            "clippy",
            "tests",
            "doctests",
            "doc",
            "deny",
            "machete",
            "prettier",
            "typecheck",
            "tools",
            "actionlint",
            "zizmor",
        ]
    );
    for step in &steps {
        assert!(!step.covers.is_empty(), "{} says nothing about what it covers", step.name);
        assert!(!step.install.is_empty(), "{} names no install command", step.name);
    }
}

#[test]
fn every_cargo_row_that_resolves_dependencies_is_locked() {
    for step in steps(false) {
        let resolves = match step.program {
            Program::Path("cargo") => step.args[0] != "fmt",
            Program::Mise("cargo-nextest" | "cargo-deny") => true,
            _ => false,
        };
        if resolves {
            assert!(step.args.contains(&"--locked"), "{} runs without --locked", step.name);
        }
    }
}

#[test]
fn the_canary_passes_only_on_its_own_finding() {
    assert!(canary_passed(
        "canary.yml:6:9: shellcheck reported issue in this script: SC2086:info:1:6: Double quote"
    ));
    assert!(!canary_passed(""));
    assert!(!canary_passed("canary.yml:6:9: shellcheck reported issue in this script: SC2046:warning"));
}

#[test]
fn the_scrubbed_set_is_cargo_build_metadata_with_no_repeats() {
    assert!(CRATE_ENV.contains(&"CARGO_PKG_NAME"));
    let mut sorted = CRATE_ENV.to_vec();
    sorted.sort_unstable();
    sorted.dedup();
    assert_eq!(sorted.len(), CRATE_ENV.len());
    for name in CRATE_ENV {
        assert!(name.starts_with("CARGO_"), "{name} is not cargo metadata");
        assert_ne!(name, "CARGO_MAKEFLAGS", "the job slots have to reach a nested cargo");
    }
}

#[test]
fn only_the_test_rows_get_a_target_directory_of_their_own_on_windows() {
    for step in steps(true) {
        let wanted = step.name == "tests" || step.name == "doctests";
        assert_eq!(step.env.contains(&("CARGO_TARGET_DIR", "target/check")), wanted, "{}", step.name);
    }
    for step in steps(false) {
        assert!(!step.env.contains(&("CARGO_TARGET_DIR", "target/check")), "{}", step.name);
    }
}

#[test]
fn a_row_reads_as_its_outcome() {
    let passed = Outcome::from_run(true, Some(0), false, true);
    assert!(!passed.stops());
    let row = passed.row("zizmor");
    assert!(row.mark() == Mark::Pass);
    assert_eq!(row.value(), "ok");
    assert_eq!(row.note_text(), "offline");
    let failed = Outcome::from_run(false, Some(101), false, false);
    assert!(failed.stops());
    assert_eq!(failed.row("clippy").note_text(), "exit 101");
    assert_eq!(Outcome::from_run(false, None, false, false).row("x").note_text(), "no exit code");
    let unrun = Outcome::Unrun("cargo-deny is not installed: mise install --locked".to_string());
    assert!(unrun.stops());
    assert_eq!(unrun.row("deny").value(), "did not run");
}

#[test]
fn the_row_table_opens_with_the_pin_rules() {
    let steps = steps(false);
    let table = rows(&steps);
    assert_eq!(table.len(), steps.len() + 1);
    assert_eq!(table[0].name(), "pins");
    assert_eq!(table[1].name(), "fmt");
    assert_eq!(table[1].note_text(), "Rust formatting");
    assert_eq!(summary(14, None), ("14 steps passed".to_string(), false));
    assert_eq!(summary(3, Some("clippy")), ("the check failed at clippy".to_string(), true));
}
