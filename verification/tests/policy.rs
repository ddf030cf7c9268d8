use xtask::policy::{
    ProseKind, cargo_install_package, identifier_uses, prose_kind, prose_paragraphs, references_crate, stated_counts,
};

#[test]
fn identifier_uses_reads_a_name_and_nothing_holding_it() {
    let cases = [
        ("const scopes = 1;", 1),
        ("[2, \"always\", scopes]", 1),
        ("[...scopes, \"docs\"]", 1),
        ("scopes.push(\"docs\")", 1),
        ("\".github/commit-scopes.json\"", 0),
        ("const allScopes = scopesList;", 0),
        ("", 0),
    ];
    for (code, expected) in cases {
        assert_eq!(identifier_uses(code, "scopes"), expected, "{code}");
    }
}

#[test]
fn references_crate_ends_the_name_at_a_word_boundary() {
    let cases = [
        ("use serde_json::Value;", "serde", false),
        ("use serde_json::Value;", "serde_json", true),
        ("use serde::Serialize;", "serde", true),
        ("use serde;", "serde", true),
        ("pub use ember_enshrouded as game;", "ember_enshrouded", true),
        ("#[derive(thiserror::Error)]", "thiserror", true),
        ("extern crate serde;", "serde", true),
        ("/// derives serde::Serialize", "serde", true),
        ("let my_serde = 1;", "serde", false),
        ("use tracing_subscriber::fmt;", "tracing", false),
        ("use tracing_subscriber::fmt;", "tracing_subscriber", true),
        ("// serde is not used here", "serde", false),
        ("", "serde", false),
    ];
    for (text, ident, expected) in cases {
        assert_eq!(references_crate(text, ident), expected, "{text:?} against {ident:?}");
    }
}

#[test]
fn cargo_install_package_reads_either_argument_order() {
    let cases = [
        ("cargo install --locked cargo-deny", Some("cargo-deny")),
        ("cargo install cargo-deny --locked", Some("cargo-deny")),
        ("cargo install --locked taplo-cli", Some("taplo-cli")),
        ("rustup component add rustfmt", None),
        ("rustup toolchain install", None),
        ("install Bun from https://bun.sh", None),
        ("cargo install", None),
        ("cargo install --locked", None),
        ("", None),
    ];
    for (install, expected) in cases {
        assert_eq!(cargo_install_package(install).as_deref(), expected, "{install:?}");
    }
}

#[test]
fn a_name_is_counted_once_per_use() {
    assert_eq!(identifier_uses("scopes(scopes)", "scopes"), 2);
    assert_eq!(identifier_uses("$scopes scopes_ -scopes", "scopes"), 0);
    assert_eq!(identifier_uses("ab", ""), 0, "every position sits beside an identifier character");
}

#[test]
fn stated_counts_reads_the_shapes_it_names() {
    let cases: &[(&str, &[&str])] = &[
        ("Eleven steps, in order", &["eleven steps"]),
        ("The run calls seven\ntools that rustup", &["seven tools"]),
        ("13 steps passed", &["13 steps"]),
        ("Ember's two extra steps", &["two extra steps"]),
        ("the three supply chain steps", &["three supply chain steps"]),
        ("an eleven-step run", &["eleven-step"]),
        ("five pinned tools", &["five pinned tools"]),
        ("Steps: 13", &["steps 13"]),
        ("| Steps | 13 |", &["steps 13"]),
        ("the run's step count is thirteen", &["step count is thirteen"]),
        ("all 13 `cargo xtask check` steps pass", &["13 code steps"]),
        ("the six crates.io tools", &["six crates io tools"]),
        ("twenty-one steps", &["twenty-one steps"]),
        ("thirty stages", &["thirty stages"]),
        ("a twenty-one-step run", &["twenty-one-step"]),
        ("The run has thirteen checks", &["thirteen checks"]),
        ("nine commands run in order", &["nine commands"]),
        ("Step 1 installs Rust", &[]),
        ("The run checks two things", &[]),
        ("The scan steps through `.rdata` eight bytes at a time", &[]),
        ("bun run tools/watch-builds.ts 2278520 appinfo.txt", &[]),
        ("See docs/dev.md. Steps run in order", &[]),
        ("one step at a time", &[]),
        ("the first step", &[]),
        ("It has nine. Steps run in order", &[]),
        ("two of the many tools", &[]),
        ("13 libraries and 344 functions", &[]),
        ("the four before it", &[]),
        ("a three-way merge", &[]),
        ("the steps cargo xtask check runs", &[]),
        ("", &[]),
    ];
    for (prose, expected) in cases {
        assert_eq!(stated_counts(prose), *expected, "{prose:?}");
    }
}

#[test]
fn prose_paragraphs_reads_each_kind_of_file() {
    let cases: &[(&str, &str, &[&str])] = &[
        ("a.rs", "/// runs eleven\n/// steps\nconst NINE: &str = \"nine steps\";\n", &["eleven steps"]),
        ("a.yml", "# seven tools\nrun: echo nine steps\n", &["seven tools"]),
        ("a.toml", "key = 1 # five tools\n", &["five tools"]),
        (
            "ci.yml",
            "      - name: Run the eleven build steps # the build\n        run: echo nine steps\n",
            &["eleven build steps"],
        ),
        ("a.md", "Nine\nsteps.\n\n```text\n13 steps passed\n```\n", &["nine steps", "13 steps"]),
        (".github/ISSUE_TEMPLATE/bug.yml", "description: the run's nine steps\n", &["nine steps"]),
        ("a.json", "{\"note\": \"nine steps\"}", &[]),
    ];
    for (path, text, expected) in cases {
        let found: Vec<String> =
            prose_paragraphs(path, text).iter().flat_map(|paragraph| stated_counts(paragraph)).collect();
        assert_eq!(found, *expected, "{path}");
    }
}

#[test]
fn each_kind_of_file_is_read_its_own_way() {
    assert!(prose_kind("docs/dev.md") == Some(ProseKind::Whole));
    assert!(prose_kind(".github/ISSUE_TEMPLATE/bug.yml") == Some(ProseKind::Whole));
    assert!(prose_kind("src/main.rs") == Some(ProseKind::SlashComments));
    assert!(prose_kind(".github/workflows/ci.yaml") == Some(ProseKind::Yaml));
    assert!(prose_kind(".githooks/commit-msg") == Some(ProseKind::HashComments));
    assert!(prose_kind("Cargo.toml") == Some(ProseKind::HashComments));
    assert!(prose_kind("package.json").is_none());
}
