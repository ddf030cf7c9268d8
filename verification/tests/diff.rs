use xtask::schema::diff::{Extraction, WATCHLIST, compare, count, is_watched, parse_schema, section_rows, watchlist_rows};
use xtask::ui::Mark;

fn chars(s: &str) -> Vec<char> {
    s.chars().collect()
}

/// Build a schema dump body from header and member lines.
fn schema(blocks: &[(&str, &str, &[&str])]) -> String {
    let mut out = String::new();
    for (name, header, members) in blocks {
        out.push_str(&format!("{name}  @0x140000000 {header}\n"));
        for member in *members {
            out.push_str(member);
            out.push('\n');
        }
        out.push('\n');
    }
    out
}

/// A field line in the dump's exact column layout.
fn field(offset: &str, name: &str, member_type: &str, size: &str) -> String {
    format!("    +{offset}  {name:<44} : {member_type}  [{size}]")
}

fn extraction(types: &str, programs: &[&str], messages: &[&str], ui: &[&str]) -> Extraction {
    let mut table = String::from("offset\tname\tentry\n");
    for name in programs {
        table.push_str(&format!("0x0\t{name}\t0x0\n"));
    }
    let messages: String = messages.iter().map(|m| format!("{m}\n")).collect();
    let ui: String = ui.iter().map(|m| format!("{m}\n")).collect();
    Extraction::parse(types, &table, &messages, &ui)
}

#[test]
fn a_field_line_round_trips_through_the_parser() {
    let dump = schema(&[(
        "keen::ecs::Inventory",
        "size=0x20 align=4 nfields=1 flags=0x12 hash=0x0000000000000001",
        &[&field("0x0010", "slotCount", "keen::uint32", "4")],
    )]);
    let parsed = parse_schema(&dump);
    let shape = parsed.get(&chars("keen::ecs::Inventory")).expect("the type parses");
    assert_eq!(shape.size, "0x20");
    assert_eq!(shape.align, "4");
    assert_eq!(shape.members.len(), 1);
    assert_eq!(shape.members[0].name, "slotCount");
    assert_eq!(shape.members[0].key, "0x0010");
    assert_eq!(shape.members[0].member_type, "keen::uint32");
}

#[test]
fn every_kind_of_difference_is_reported() {
    let header = "size=0x20 align=4 nfields=1 flags=0x12 hash=0x0000000000000001";
    let before = extraction(
        &schema(&[
            ("keen::ecs::Inventory", header, &[&field("0x0010", "slotCount", "keen::uint32", "4")]),
            ("keen::ecs::Retired", header, &[]),
        ]),
        &["player_crafting", "cache_building_stock"],
        &["ChatMessageServerMessage", "RetiredMessage"],
        &["keen::ecs::UiWorldEvent", "keen::ecs::UiRetiredEvent"],
    );
    let after = extraction(
        &schema(&[
            ("keen::ecs::Inventory", header, &[&field("0x0014", "slotCount", "keen::uint64", "8")]),
            ("keen::ecs::ContainerScope", header, &[]),
        ]),
        &["player_crafting", "container_permission"],
        &["ChatMessageServerMessage", "ContainerLockMessage"],
        &["keen::ecs::UiWorldEvent", "keen::ecs::UiChestScopeEvent"],
    );

    let changes = compare(&before, &after);
    let found: Vec<(Mark, &str, &str, &str)> =
        changes.iter().map(|c| (c.mark, c.name.as_str(), c.what.as_str(), c.detail.as_str())).collect();

    let want: &[(Mark, &str, &str)] = &[
        (Mark::Added, "keen::ecs::ContainerScope", "type added"),
        (Mark::Removed, "keen::ecs::Retired", "type removed"),
        (Mark::Changed, "keen::ecs::Inventory", "type member slotCount moved"),
        (Mark::Changed, "keen::ecs::Inventory", "type member slotCount retyped"),
        (Mark::Added, "container_permission", "program added"),
        (Mark::Removed, "cache_building_stock", "program removed"),
        (Mark::Added, "ContainerLockMessage", "message added"),
        (Mark::Removed, "RetiredMessage", "message removed"),
        (Mark::Added, "keen::ecs::UiChestScopeEvent", "ui event added"),
        (Mark::Removed, "keen::ecs::UiRetiredEvent", "ui event removed"),
    ];
    for (mark, name, what) in want {
        assert!(
            found.iter().any(|(m, n, w, _)| m == mark && n == name && w == what),
            "missing {what} for {name}; got {found:#?}"
        );
    }

    let moved = found
        .iter()
        .find(|(_, _, what, _)| *what == "type member slotCount moved")
        .expect("the offset delta is reported");
    assert_eq!(moved.3, "0x0010 to 0x0014");
    let retyped = found
        .iter()
        .find(|(_, _, what, _)| *what == "type member slotCount retyped")
        .expect("the type delta is reported");
    assert_eq!(retyped.3, "keen::uint32 to keen::uint64");
}

/// Upper-case the first byte, which is enough for the ASCII words here.
fn capitalize(word: &str) -> String {
    let mut chars = word.chars();
    match chars.next() {
        Some(first) => first.to_ascii_uppercase().to_string() + chars.as_str(),
        None => String::new(),
    }
}

#[test]
fn every_watchlist_word_is_matched_case_insensitively() {
    for word in WATCHLIST {
        let name = format!("keen::ecs::Prefix{}Suffix", capitalize(word));
        assert!(is_watched(&name), "watchlist word {word} must match {name}");
        assert!(is_watched(&name.to_uppercase()), "watchlist word {word} must match in upper case");
    }
    assert!(!is_watched("keen::ecs::CurrentTransform"));
    assert!(!is_watched("keen::ecs::Velocity"));
}

#[test]
fn an_extraction_compared_with_itself_reports_nothing() {
    let header = "size=0x20 align=4 nfields=1 flags=0x12 hash=0x0000000000000001";
    let dump = schema(&[("keen::ecs::Inventory", header, &[&field("0x0010", "slotCount", "keen::uint32", "4")])]);
    let one = extraction(&dump, &["a_program", "a_program"], &["AMessage"], &["keen::ecs::UiEvent"]);
    let two = extraction(&dump, &["a_program", "a_program"], &["AMessage"], &["keen::ecs::UiEvent"]);
    assert!(compare(&one, &two).is_empty());
}

#[test]
fn changes_come_in_order_and_counts_name_both_sides() {
    let header = "size=0x20 align=4 flags=0x12 hash=0x1";
    let other = "size=0x28 align=8 flags=0x12 hash=0x2";
    let before = extraction(&schema(&[("keen::B", header, &[]), ("keen::A", header, &[])]), &["p", "p", "q"], &[], &[]);
    let after = extraction(&schema(&[("keen::A", other, &[])]), &["p", "q", "q", "q"], &[], &[]);
    let changes = compare(&before, &after);
    let found: Vec<(Mark, &str, &str, &str)> =
        changes.iter().map(|c| (c.mark, c.name.as_str(), c.what.as_str(), c.detail.as_str())).collect();
    assert_eq!(
        found,
        vec![
            (Mark::Removed, "keen::B", "type removed", ""),
            (Mark::Changed, "keen::A", "type size", "0x20 to 0x28"),
            (Mark::Changed, "keen::A", "type align", "4 to 8"),
            (Mark::Changed, "keen::A", "type hash", "0x1 to 0x2"),
            (Mark::Added, "q", "program added", "1 to 3 records"),
            (Mark::Removed, "p", "program removed", "2 to 1 records"),
        ]
    );
    assert_eq!(count(&changes, Mark::Changed), 3);
    assert_eq!(section_rows(&changes, "program").len(), 2);
    assert_eq!(watchlist_rows(&changes).len(), 0);
}

#[test]
fn the_last_member_of_a_name_stands_and_enumerators_parse() {
    let dump = "keen::Kind  @0x1 size=0x4\n    =0 First\n    =1   Second\n\nkeen::Other  @0x2 size=0x8\n";
    let parsed = parse_schema(dump);
    let kind = parsed.get(&chars("keen::Kind")).expect("the enumeration parses");
    assert_eq!(kind.members.len(), 2);
    assert_eq!(kind.members[1].key, "1");
    assert_eq!(kind.members[1].name, "Second");
    assert_eq!(kind.members[1].member_type, "");
    assert!(parsed.get(&chars("keen::Other")).is_some(), "a type at the end of the dump is kept");
}

#[test]
fn what_one_direction_adds_the_other_removes() {
    let header = "size=0x20 align=4 flags=0x12 hash=0x1";
    let a = extraction(&schema(&[("keen::A", header, &[]), ("keen::B", header, &[])]), &[], &["M1", "M2"], &["keen::UiX"]);
    let b = extraction(&schema(&[("keen::B", header, &[]), ("keen::C", header, &[]), ("keen::D", header, &[])]), &[], &["M2", "M3"], &[]);
    let names = |changes: &[xtask::schema::diff::Change], mark: Mark| -> Vec<String> {
        changes.iter().filter(|c| c.mark == mark).map(|c| c.name.clone()).collect()
    };
    let forward = compare(&a, &b);
    let backward = compare(&b, &a);
    assert_eq!(names(&forward, Mark::Added), names(&backward, Mark::Removed));
    assert_eq!(names(&forward, Mark::Removed), names(&backward, Mark::Added));
    assert_eq!(names(&forward, Mark::Added), ["keen::C", "keen::D", "M3"]);
}
