use xtask::ui::{Mark, Row, Ui};

#[test]
fn color_is_an_accent_that_only_a_terminal_gets() {
    let plain = Ui::new(false, false, false);
    assert_eq!(plain.paint(Mark::Pass, "ok"), "ok");
    let color = Ui::new(false, false, true);
    assert_eq!(color.paint(Mark::Pass, "ok"), "\u{1b}[32mok\u{1b}[39m");
    assert_eq!(color.paint(Mark::Removed, "x"), "\u{1b}[31mx\u{1b}[39m");
    assert_eq!(color.paint(Mark::Changed, "x"), "\u{1b}[33mx\u{1b}[39m");
    assert_eq!(color.paint(Mark::Note, "x"), "\u{1b}[2mx\u{1b}[0m");
    assert!(!Ui::new(true, false, true).color(), "a quiet run emits no color");
    assert!(!Ui::new(false, true, true).color(), "NO_COLOR turns color off");
}

#[test]
fn a_quiet_run_prints_failures_alone() {
    let quiet = Ui::new(true, false, false);
    assert_eq!(quiet.section("check"), None);
    assert_eq!(quiet.line("running fmt"), None);
    assert_eq!(quiet.divider(48), None);
    assert_eq!(quiet.summary("13 steps passed", false), None);
    assert_eq!(quiet.summary("the check failed at fmt", true), Some("  the check failed at fmt".to_string()));
    assert_eq!(quiet.error("boom"), "error: boom");
    let loud = Ui::new(false, false, false);
    assert_eq!(loud.section("check"), Some("\ncheck".to_string()));
    assert_eq!(loud.line("running fmt"), Some("  running fmt".to_string()));
    assert_eq!(loud.divider(3), Some(format!("  {}", "\u{2500}".repeat(8))));
    assert_eq!(loud.divider(100), Some(format!("  {}", "\u{2500}".repeat(72))));
}

#[test]
fn a_row_carries_its_columns() {
    let row = Row::new(Mark::Warn, "process", "4242").note("still running");
    assert!(row.mark() == Mark::Warn);
    assert_eq!(row.name(), "process");
    assert_eq!(row.value(), "4242");
    assert_eq!(row.note_text(), "still running");
    assert_eq!(Mark::Pass.glyph(), "\u{2713}");
    assert_eq!(Mark::Added.glyph(), "+");
}
