//! The single check.
//!
//! `CONTRIBUTING.md`, continuous integration and the pre-push hook all call
//! `cargo xtask check` and nothing else, which is what keeps them from drifting
//! apart. The rows run in order and the run stops at the first failure, naming
//! the row. `cargo xtask check --rows` prints the same table.
//!
//! A tool that is not installed is reported by name with the command that
//! installs it, and the run stops there. It is never skipped quietly, because
//! a check that reports a pass for a row it did not run is worse than none.
//!
//! Every child runs with this crate's own build metadata removed from its
//! environment. Cargo sets `CARGO_PKG_NAME` and its siblings for a binary it
//! launches, and `cargo-machete` reads that one to decide whether its first
//! argument is its own subcommand name, so a child that inherits it scans
//! nothing and exits zero.
//!
//! This module holds the rows and how each is judged; starting the tools is
//! the binary's part.

use vstd::prelude::*;

use crate::text::{chars_of, find_chars, find_from, push_str, signed_decimal, signed_decimal_string};
use crate::ui::{Mark, Row, RowView, owned};

verus! {

/// Where a row's program comes from.
#[derive(Debug, Clone, Copy, PartialEq, Eq)]
pub enum Program {
    /// A tool mise installs, run by the path `mise which` resolves, so the
    /// binary the lockfile records is the binary that runs.
    Mise(&'static str),
    /// A program the toolchain or the package manager puts on `PATH`.
    Path(&'static str),
}

/// One row of the check.
pub struct Step {
    /// The name the result row carries.
    pub name: &'static str,
    /// What the row checks, as `check --rows` prints it.
    pub covers: &'static str,
    /// The program the row runs.
    pub program: Program,
    /// Its arguments.
    pub args: Vec<&'static str>,
    /// What to run when the program is absent.
    pub install: &'static str,
    /// Variables set for the child, on top of the scrubbed environment.
    pub env: Vec<(&'static str, &'static str)>,
}

/// Which program a row runs, as plain values.
pub enum ProgramView {
    Mise(Seq<char>),
    Path(Seq<char>),
}

/// A row of the check as plain values.
pub struct StepView {
    pub name: Seq<char>,
    pub covers: Seq<char>,
    pub program: ProgramView,
    pub args: Seq<Seq<char>>,
    pub install: Seq<char>,
    pub env: Seq<(Seq<char>, Seq<char>)>,
}

impl View for Step {
    type V = StepView;

    open spec fn view(&self) -> StepView {
        StepView {
            name: self.name@,
            covers: self.covers@,
            program: match self.program {
                Program::Mise(t) => ProgramView::Mise(t@),
                Program::Path(t) => ProgramView::Path(t@),
            },
            args: Seq::new(self.args@.len(), |i: int| self.args@[i]@),
            install: self.install@,
            env: Seq::new(self.env@.len(), |i: int| (self.env@[i].0@, self.env@[i].1@)),
        }
    }
}

/// What to run when a tool mise owns is absent. One command covers every one
/// of them, because `mise.toml` names them all and mise reads it.
pub const MISE_INSTALL: &'static str = "mise install --locked";

/// The rustup command that installs the toolchain a cargo row needs.
pub const RUSTUP: &'static str = "rustup toolchain install";

/// The install command for a row that runs out of `node_modules`.
pub const BUN_INSTALL: &'static str = "bun install";

/// The name the row for the pin rules carries.
pub const PINS_STEP: &'static str = "pins";

/// The variable that gives the rows building test artifacts a target
/// directory of their own on Windows, where a test build cannot replace the
/// running `xtask.exe` under `target/debug`.
pub const TEST_TARGET_DIR: (&'static str, &'static str) = ("CARGO_TARGET_DIR", "target/check");

/// The names of the rows, in the order they run.
pub open spec fn step_names() -> Seq<Seq<char>> {
    seq![
        "fmt"@,
        "taplo"@,
        "clippy"@,
        "tests"@,
        "doctests"@,
        "doc"@,
        "deny"@,
        "machete"@,
        "prettier"@,
        "typecheck"@,
        "tools"@,
        "actionlint"@,
        "zizmor"@,
    ]
}

/// Text for a list of literals.
fn strs(items: &[&'static str]) -> (r: Vec<&'static str>)
    ensures
        r@ == items@,
{
    let mut r: Vec<&'static str> = Vec::new();
    let mut i: usize = 0;
    while i < items.len()
        invariant
            i <= items@.len(),
            r@ == items@.take(i as int),
        decreases items@.len() - i,
    {
        r.push(items[i]);
        i = i + 1;
        assert(r@ =~= items@.take(i as int));
    }
    assert(items@.take(items@.len() as int) == items@);
    r
}

/// Whether a row runs a cargo command that resolves dependencies: every
/// cargo row but the formatter's, and the nextest and deny rows.
pub open spec fn resolves_dependencies(step: StepView) -> bool {
    match step.program {
        ProgramView::Path(p) => p == "cargo"@ && step.args.len() > 0 && step.args[0] != "fmt"@,
        ProgramView::Mise(t) => t == "cargo-nextest"@ || t == "cargo-deny"@,
    }
}

/// Every row, in the order they run. `windows` says whether the host is
/// Windows, where the rows that build test artifacts get a target directory
/// of their own.
pub fn steps(windows: bool) -> (r: Vec<Step>)
    ensures
        r@.len() == step_names().len(),
        forall|i: int| 0 <= i < r@.len() ==> (#[trigger] r@[i])@.name == step_names()[i],
        forall|i: int| 0 <= i < r@.len() ==> (#[trigger] r@[i])@.covers.len() > 0 && r@[i]@.install.len() > 0,
        forall|i: int| 0 <= i < r@.len() && resolves_dependencies((#[trigger] r@[i])@) ==> r@[i]@.args.contains("--locked"@),
{
    let test_env: Vec<(&'static str, &'static str)> = if windows {
        let mut v: Vec<(&'static str, &'static str)> = Vec::new();
        v.push(TEST_TARGET_DIR);
        v
    } else {
        Vec::new()
    };
    let mut r: Vec<Step> = Vec::new();
    r.push(Step {
        name: "fmt",
        covers: "Rust formatting",
        program: Program::Path("cargo"),
        args: strs(&["fmt", "--check"]),
        install: "rustup component add rustfmt",
        env: Vec::new(),
    });
    r.push(Step {
        name: "taplo",
        covers: "TOML formatting, over the files .taplo.toml names",
        program: Program::Mise("taplo"),
        args: strs(&["fmt", "--check", "--config", ".taplo.toml"]),
        install: MISE_INSTALL,
        env: Vec::new(),
    });
    r.push(Step {
        name: "clippy",
        covers: "Lints on every target, warnings denied",
        program: Program::Path("cargo"),
        args: strs(&["clippy", "--workspace", "--all-targets", "--locked", "--", "-D", "warnings"]),
        install: "rustup component add clippy",
        env: Vec::new(),
    });
    r.push(Step {
        name: "tests",
        covers: "The test suites, under cargo-nextest",
        program: Program::Mise("cargo-nextest"),
        args: strs(&["nextest", "run", "--workspace", "--locked"]),
        install: MISE_INSTALL,
        env: test_env.clone(),
    });
    r.push(Step {
        name: "doctests",
        covers: "Every documented example, which nextest runs none of",
        program: Program::Path("cargo"),
        args: strs(&["test", "--workspace", "--doc", "--locked"]),
        install: RUSTUP,
        env: test_env,
    });
    let mut doc_env: Vec<(&'static str, &'static str)> = Vec::new();
    doc_env.push(("RUSTDOCFLAGS", "-D warnings"));
    r.push(Step {
        name: "doc",
        covers: "rustdoc over every crate, warnings denied",
        program: Program::Path("cargo"),
        args: strs(&["doc", "--workspace", "--no-deps", "--locked"]),
        install: RUSTUP,
        env: doc_env,
    });
    r.push(Step {
        name: "deny",
        covers: "Licenses, bans and sources, per deny.toml",
        program: Program::Mise("cargo-deny"),
        args: strs(&["--locked", "check", "licenses", "bans", "sources"]),
        install: MISE_INSTALL,
        env: Vec::new(),
    });
    // The one path is the workspace root. With no argument at all, the binary
    // indexes an argument that is not there and panics.
    r.push(Step {
        name: "machete",
        covers: "Dependencies a crate declares and never uses",
        program: Program::Mise("cargo-machete"),
        args: strs(&["."]),
        install: MISE_INSTALL,
        env: Vec::new(),
    });
    r.push(Step {
        name: "prettier",
        covers: "Markup, JavaScript and TypeScript formatting",
        program: Program::Path("bunx"),
        args: strs(&["--no-install", "--bun", "prettier", "--check", "."]),
        install: BUN_INSTALL,
        env: Vec::new(),
    });
    r.push(Step {
        name: "typecheck",
        covers: "The types in tools/, which Bun strips rather than checks",
        program: Program::Path("bunx"),
        args: strs(&["--no-install", "--bun", "tsc", "--noEmit"]),
        install: BUN_INSTALL,
        env: Vec::new(),
    });
    r.push(Step {
        name: "tools",
        covers: "The tests in tools/",
        program: Program::Path("bun"),
        args: strs(&["test", "tools"]),
        install: "install Bun from https://bun.sh",
        env: Vec::new(),
    });
    r.push(Step {
        name: "actionlint",
        covers: "Workflow syntax, runner labels, expressions, and run: blocks through ShellCheck",
        program: Program::Mise("actionlint"),
        args: strs(&["-pyflakes="]),
        install: MISE_INSTALL,
        env: Vec::new(),
    });
    // .github whole, with ignore handling off. A directory input honors
    // .gitignore files, .git/info/exclude and the global excludes, so a
    // committed ignore line could hide a workflow, and --collect=all turns all
    // of them off. The input stays .github, which collects dependabot.yml and
    // never reaches node_modules, target or a worktree.
    r.push(Step {
        name: "zizmor",
        covers: "Workflow pinning, credentials, permissions and injection",
        program: Program::Mise("zizmor"),
        args: strs(&["--no-progress", "--strict-collection", "--collect=all", "--config", ".github/zizmor.yml", ".github"]),
        install: MISE_INSTALL,
        env: Vec::new(),
    });
    proof {
        reveal_strlit("fmt");
        reveal_strlit("cargo");
        reveal_strlit("--locked");
        reveal_strlit("cargo-nextest");
        reveal_strlit("cargo-deny");
        reveal_strlit("taplo");
        reveal_strlit("cargo-machete");
        reveal_strlit("bunx");
        reveal_strlit("bun");
        reveal_strlit("actionlint");
        reveal_strlit("zizmor");
        reveal_strlit("clippy");
        reveal_strlit("test");
        reveal_strlit("doc");
        reveal_strlit("Rust formatting");
        reveal_strlit("rustup component add rustfmt");
        reveal_strlit("TOML formatting, over the files .taplo.toml names");
        reveal_strlit("mise install --locked");
        reveal_strlit("Lints on every target, warnings denied");
        reveal_strlit("rustup component add clippy");
        reveal_strlit("The test suites, under cargo-nextest");
        reveal_strlit("Every documented example, which nextest runs none of");
        reveal_strlit("rustup toolchain install");
        reveal_strlit("rustdoc over every crate, warnings denied");
        reveal_strlit("Licenses, bans and sources, per deny.toml");
        reveal_strlit("Dependencies a crate declares and never uses");
        reveal_strlit("Markup, JavaScript and TypeScript formatting");
        reveal_strlit("bun install");
        reveal_strlit("The types in tools/, which Bun strips rather than checks");
        reveal_strlit("The tests in tools/");
        reveal_strlit("install Bun from https://bun.sh");
        reveal_strlit("Workflow syntax, runner labels, expressions, and run: blocks through ShellCheck");
        reveal_strlit("Workflow pinning, credentials, permissions and injection");
        reveal_strlit("nextest");
        reveal_strlit("--check");
        reveal_strlit("--no-install");
        reveal_strlit("-pyflakes=");
        reveal_strlit("--no-progress");
        reveal_strlit(".");
        assert(r@[0]@.args[0] == "fmt"@);
        assert(r@[2]@.args[3] == "--locked"@);
        assert(r@[3]@.args[3] == "--locked"@);
        assert(r@[4]@.args[3] == "--locked"@);
        assert(r@[5]@.args[3] == "--locked"@);
        assert(r@[6]@.args[0] == "--locked"@);
        assert forall|i: int| 0 <= i < r@.len() && resolves_dependencies((#[trigger] r@[i])@) implies r@[i]@.args.contains("--locked"@) by {
            if i == 2 || i == 3 || i == 4 || i == 5 {
                assert(r@[i]@.args[3] == "--locked"@);
            } else if i == 6 {
                assert(r@[i]@.args[0] == "--locked"@);
            } else if i == 0 {
                assert(r@[i]@.args[0] == "fmt"@);
            } else if i == 1 {
                assert(r@[i]@.program == ProgramView::Mise("taplo"@));
                assert("taplo"@[0] != "cargo-nextest"@[0] && "taplo"@[0] != "cargo-deny"@[0]);
            } else if i == 7 {
                assert(r@[i]@.program == ProgramView::Mise("cargo-machete"@));
                assert("cargo-machete"@[6] != "cargo-nextest"@[6]);
                assert("cargo-machete"@ != "cargo-deny"@);
            } else if i == 8 || i == 9 {
                assert(r@[i]@.program == ProgramView::Path("bunx"@));
                assert("bunx"@[0] != "cargo"@[0]);
            } else if i == 10 {
                assert(r@[i]@.program == ProgramView::Path("bun"@));
                assert("bun"@[0] != "cargo"@[0]);
            } else if i == 11 {
                assert(r@[i]@.program == ProgramView::Mise("actionlint"@));
                assert("actionlint"@[0] != "cargo-nextest"@[0] && "actionlint"@[0] != "cargo-deny"@[0]);
            } else {
                assert(r@[i]@.program == ProgramView::Mise("zizmor"@));
                assert("zizmor"@[0] != "cargo-nextest"@[0] && "zizmor"@[0] != "cargo-deny"@[0]);
            }
        }
    }
    r
}

/// A workflow with one unquoted expansion, which `ShellCheck` reports as `SC2086`.
pub const CANARY: &'static str = "on: push\njobs:\n  canary:\n    runs-on: ubuntu-latest\n    steps:\n      - run: echo $GITHUB_REF\n";

/// The finding the canary workflow is written to trigger.
pub const CANARY_FINDING: &'static str = "SC2086";

/// Whether the canary run reported the finding it was written to trigger.
pub fn canary_passed(heard: &str) -> (r: bool)
    ensures
        r == (find_from(heard@, CANARY_FINDING@, 0) is Some),
{
    let h = chars_of(heard);
    let f = chars_of(CANARY_FINDING);
    find_chars(h.as_slice(), f.as_slice(), 0).is_some()
}

/// Environment variables that describe this crate rather than the workspace
/// under check.
///
/// `CARGO_MAKEFLAGS` is deliberately absent, so a nested cargo still shares the
/// job slots this process was given.
pub const CRATE_ENV: [&'static str; 17] = [
    "CARGO_BIN_NAME",
    "CARGO_CRATE_NAME",
    "CARGO_MANIFEST_DIR",
    "CARGO_MANIFEST_PATH",
    "CARGO_PKG_AUTHORS",
    "CARGO_PKG_DESCRIPTION",
    "CARGO_PKG_HOMEPAGE",
    "CARGO_PKG_LICENSE",
    "CARGO_PKG_NAME",
    "CARGO_PKG_REPOSITORY",
    "CARGO_PKG_RUST_VERSION",
    "CARGO_PKG_VERSION",
    "CARGO_PKG_VERSION_MAJOR",
    "CARGO_PKG_VERSION_MINOR",
    "CARGO_PKG_VERSION_PATCH",
    "CARGO_PKG_VERSION_PRE",
    "CARGO_PRIMARY_PACKAGE",
];

/// What one row did.
pub enum Outcome {
    /// The row ran and passed, with the note its row carries.
    Passed(String),
    /// The row ran and failed, with the exit code.
    Failed(String),
    /// The row could not start, with the sentence saying why.
    Unrun(String),
}

/// The result row an outcome reports for a step.
pub open spec fn outcome_row(outcome: Outcome, name: Seq<char>) -> RowView {
    match outcome {
        Outcome::Passed(note) => RowView { mark: Mark::Pass, name, value: "ok"@, note: note@ },
        Outcome::Failed(note) => RowView { mark: Mark::Fail, name, value: "failed"@, note: note@ },
        Outcome::Unrun(note) => RowView { mark: Mark::Fail, name, value: "did not run"@, note: note@ },
    }
}

impl Outcome {
    /// How a row that ran reads: passed, noting whether it ran online or
    /// offline, or failed with its exit code.
    pub fn from_run(success: bool, code: Option<i32>, online: bool, offline: bool) -> (r: Outcome)
        ensures
            success ==> (r matches Outcome::Passed(note) && note@ == (if online {
                "online"@
            } else if offline {
                "offline"@
            } else {
                Seq::empty()
            })),
            !success ==> (r matches Outcome::Failed(note) && note@ == match code {
                Some(c) => "exit "@ + signed_decimal(c as int),
                None => "no exit code"@,
            }),
    {
        if success {
            let note = if online {
                owned("online")
            } else if offline {
                owned("offline")
            } else {
                String::new()
            };
            Outcome::Passed(note)
        } else {
            let note = match code {
                Some(c) => {
                    let mut n = owned("exit ");
                    push_str(&mut n, signed_decimal_string(c).as_str());
                    n
                },
                None => owned("no exit code"),
            };
            Outcome::Failed(note)
        }
    }

    /// Whether the run stops here.
    pub fn stops(&self) -> (r: bool)
        ensures
            r == !(self is Passed),
    {
        !matches!(self, Outcome::Passed(_))
    }

    /// The result row for this step.
    pub fn row(&self, name: &str) -> (r: Row)
        ensures
            r@ == outcome_row(*self, name@),
    {
        match self {
            Outcome::Passed(note) => Row::new(Mark::Pass, name, "ok").note(note.as_str()),
            Outcome::Failed(note) => Row::new(Mark::Fail, name, "failed").note(note.as_str()),
            Outcome::Unrun(note) => Row::new(Mark::Fail, name, "did not run").note(note.as_str()),
        }
    }
}

/// The note the row for the pin rules carries in the row table.
pub const PINS_COVERS: &'static str = "both mise pin files and their lockfiles against pins.rs, before any tool runs";

/// The row table: the pin rules, then every row and what it covers.
pub fn rows(steps: &[Step]) -> (r: Vec<Row>)
    ensures
        r@.len() == steps@.len() + 1,
        r@[0]@ == (RowView { mark: Mark::Note, name: PINS_STEP@, value: ""@, note: PINS_COVERS@ }),
        forall|i: int| 0 <= i < steps@.len() ==> (#[trigger] r@[i + 1])@ == (RowView {
            mark: Mark::Note,
            name: steps@[i]@.name,
            value: ""@,
            note: steps@[i]@.covers,
        }),
{
    let mut table: Vec<Row> = Vec::new();
    table.push(Row::new(Mark::Note, PINS_STEP, "").note(PINS_COVERS));
    let mut i: usize = 0;
    while i < steps.len()
        invariant
            i <= steps@.len(),
            table@.len() == i + 1,
            table@[0]@ == (RowView { mark: Mark::Note, name: PINS_STEP@, value: ""@, note: PINS_COVERS@ }),
            forall|k: int| 0 <= k < i ==> (#[trigger] table@[k + 1])@ == (RowView {
                mark: Mark::Note,
                name: steps@[k]@.name,
                value: ""@,
                note: steps@[k]@.covers,
            }),
        decreases steps@.len() - i,
    {
        table.push(Row::new(Mark::Note, steps[i].name, "").note(steps[i].covers));
        i = i + 1;
    }
    table
}

/// The closing line of a check run and whether it reports a failure: the row
/// it failed at, or how many rows passed.
pub fn summary(rows: usize, failed: Option<&str>) -> (r: (String, bool))
    ensures
        match failed {
            Some(step) => r.0@ == "the check failed at "@ + step@ && r.1,
            None => r.0@ == crate::text::decimal(rows as nat) + " steps passed"@ && !r.1,
        },
{
    match failed {
        Some(step) => {
            let mut t = owned("the check failed at ");
            push_str(&mut t, step);
            (t, true)
        },
        None => {
            let mut t = crate::text::decimal_string(rows as u64);
            push_str(&mut t, " steps passed");
            (t, false)
        },
    }
}

/// The scrubbed set carries the variable `cargo-machete` reads, has no
/// repeats, and names nothing but cargo's build metadata: every name starts
/// with `CARGO_`, and `CARGO_MAKEFLAGS`, which carries the job slots a nested
/// cargo shares, is not among them.
pub proof fn lemma_crate_env_is_build_metadata()
    ensures
        exists|i: int| 0 <= i < 17 && CRATE_ENV@[i]@ == "CARGO_PKG_NAME"@,
        forall|i: int| 0 <= i < 17 ==> crate::text::occurs_at(#[trigger] CRATE_ENV@[i]@, "CARGO_"@, 0),
        forall|i: int| 0 <= i < 17 ==> #[trigger] CRATE_ENV@[i]@ != "CARGO_MAKEFLAGS"@,
        forall|i: int, j: int| 0 <= i < j < 17 ==> #[trigger] CRATE_ENV@[i]@ != #[trigger] CRATE_ENV@[j]@,
{
    reveal_strlit("CARGO_BIN_NAME");
    reveal_strlit("CARGO_CRATE_NAME");
    reveal_strlit("CARGO_MANIFEST_DIR");
    reveal_strlit("CARGO_MANIFEST_PATH");
    reveal_strlit("CARGO_PKG_AUTHORS");
    reveal_strlit("CARGO_PKG_DESCRIPTION");
    reveal_strlit("CARGO_PKG_HOMEPAGE");
    reveal_strlit("CARGO_PKG_LICENSE");
    reveal_strlit("CARGO_PKG_NAME");
    reveal_strlit("CARGO_PKG_REPOSITORY");
    reveal_strlit("CARGO_PKG_RUST_VERSION");
    reveal_strlit("CARGO_PKG_VERSION");
    reveal_strlit("CARGO_PKG_VERSION_MAJOR");
    reveal_strlit("CARGO_PKG_VERSION_MINOR");
    reveal_strlit("CARGO_PKG_VERSION_PATCH");
    reveal_strlit("CARGO_PKG_VERSION_PRE");
    reveal_strlit("CARGO_PRIMARY_PACKAGE");
    reveal_strlit("CARGO_");
    reveal_strlit("CARGO_MAKEFLAGS");
    assert(CRATE_ENV@[8]@ == "CARGO_PKG_NAME"@);
    assert forall|i: int| 0 <= i < 17 implies crate::text::occurs_at(#[trigger] CRATE_ENV@[i]@, "CARGO_"@, 0) by {
        assert(CRATE_ENV@[i]@.subrange(0, 6) =~= "CARGO_"@);
    }
    assert forall|i: int| 0 <= i < 17 implies #[trigger] CRATE_ENV@[i]@ != "CARGO_MAKEFLAGS"@ by {
        assert(CRATE_ENV@[i]@[6] != 'M' || CRATE_ENV@[i]@[7] != 'A' || CRATE_ENV@[i]@[8] != 'K');
    }
    assert forall|i: int, j: int| 0 <= i < j < 17 implies #[trigger] CRATE_ENV@[i]@ != #[trigger] CRATE_ENV@[j]@ by {
        crate::order::lemma_lex_irreflexive(CRATE_ENV@[i]@, 0);
        assert(crate::order::lex_lt(CRATE_ENV@[i]@, CRATE_ENV@[j]@)) by {
            lemma_crate_env_sorted(i, j);
        }
    }
}

/// The scrubbed set is in string order.
proof fn lemma_crate_env_sorted(i: int, j: int)
    requires
        0 <= i < j < 17,
    ensures
        crate::order::lex_lt(CRATE_ENV@[i]@, CRATE_ENV@[j]@),
    decreases j - i,
{
    reveal_strlit("CARGO_BIN_NAME");
    reveal_strlit("CARGO_CRATE_NAME");
    reveal_strlit("CARGO_MANIFEST_DIR");
    reveal_strlit("CARGO_MANIFEST_PATH");
    reveal_strlit("CARGO_PKG_AUTHORS");
    reveal_strlit("CARGO_PKG_DESCRIPTION");
    reveal_strlit("CARGO_PKG_HOMEPAGE");
    reveal_strlit("CARGO_PKG_LICENSE");
    reveal_strlit("CARGO_PKG_NAME");
    reveal_strlit("CARGO_PKG_REPOSITORY");
    reveal_strlit("CARGO_PKG_RUST_VERSION");
    reveal_strlit("CARGO_PKG_VERSION");
    reveal_strlit("CARGO_PKG_VERSION_MAJOR");
    reveal_strlit("CARGO_PKG_VERSION_MINOR");
    reveal_strlit("CARGO_PKG_VERSION_PATCH");
    reveal_strlit("CARGO_PKG_VERSION_PRE");
    reveal_strlit("CARGO_PRIMARY_PACKAGE");
    if j == i + 1 {
        reveal_with_fuel(crate::order::lex_lt_from, 24);
        if i == 0 {
            assert(crate::order::lex_lt(CRATE_ENV@[0]@, CRATE_ENV@[1]@));
        } else if i == 1 {
            assert(crate::order::lex_lt(CRATE_ENV@[1]@, CRATE_ENV@[2]@));
        } else if i == 2 {
            assert(crate::order::lex_lt(CRATE_ENV@[2]@, CRATE_ENV@[3]@));
        } else if i == 3 {
            assert(crate::order::lex_lt(CRATE_ENV@[3]@, CRATE_ENV@[4]@));
        } else if i == 4 {
            assert(crate::order::lex_lt(CRATE_ENV@[4]@, CRATE_ENV@[5]@));
        } else if i == 5 {
            assert(crate::order::lex_lt(CRATE_ENV@[5]@, CRATE_ENV@[6]@));
        } else if i == 6 {
            assert(crate::order::lex_lt(CRATE_ENV@[6]@, CRATE_ENV@[7]@));
        } else if i == 7 {
            assert(crate::order::lex_lt(CRATE_ENV@[7]@, CRATE_ENV@[8]@));
        } else if i == 8 {
            assert(crate::order::lex_lt(CRATE_ENV@[8]@, CRATE_ENV@[9]@));
        } else if i == 9 {
            assert(crate::order::lex_lt(CRATE_ENV@[9]@, CRATE_ENV@[10]@));
        } else if i == 10 {
            assert(crate::order::lex_lt(CRATE_ENV@[10]@, CRATE_ENV@[11]@));
        } else if i == 11 {
            assert(crate::order::lex_lt(CRATE_ENV@[11]@, CRATE_ENV@[12]@));
        } else if i == 12 {
            assert(crate::order::lex_lt(CRATE_ENV@[12]@, CRATE_ENV@[13]@));
        } else if i == 13 {
            assert(crate::order::lex_lt(CRATE_ENV@[13]@, CRATE_ENV@[14]@));
        } else if i == 14 {
            assert(crate::order::lex_lt(CRATE_ENV@[14]@, CRATE_ENV@[15]@));
        } else {
            assert(crate::order::lex_lt(CRATE_ENV@[15]@, CRATE_ENV@[16]@));
        }
    } else {
        lemma_crate_env_sorted(i, j - 1);
        lemma_crate_env_sorted(j - 1, j);
        crate::order::lemma_lex_transitive(CRATE_ENV@[i]@, CRATE_ENV@[j - 1]@, CRATE_ENV@[j]@, 0);
    }
}

} // verus!
