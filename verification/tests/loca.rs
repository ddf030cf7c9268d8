use xtask::loca::{EOL, LocaTag, escape, select_languages, table, table_name};

fn tag(id: u32, text: &str) -> LocaTag {
    LocaTag { id, text: text.to_string(), arguments: 0, generic_arguments: 0 }
}

/// Content hashes stand in as plain numbers: the selection carries them through.
fn collection() -> (u64, Vec<(u32, u64)>) {
    (10, vec![(2, 30), (1, 20)])
}

#[test]
fn text_that_would_break_a_row_is_escaped() {
    let cases = [
        ("Chest", "Chest"),
        ("Open {0}", "Open {0}"),
        ("first\nsecond", "first\\nsecond"),
        ("a\tb", "a\\tb"),
        ("a\r\nb", "a\\r\\nb"),
        ("back\\slash", "back\\\\slash"),
        ("", ""),
        ("\u{e9}l\u{e8}ve", "\u{e9}l\u{e8}ve"),
    ];
    for (text, expected) in cases {
        assert_eq!(escape(text), expected, "{text:?}");
    }
}

#[test]
fn a_table_opens_with_a_header_and_one_row_per_tag() {
    let tags = vec![
        LocaTag { arguments: 1, generic_arguments: 2, ..tag(122_361, "Open {0}") },
        tag(122_362, "line\nbreak"),
    ];
    let body = table(&tags);
    assert_eq!(
        body,
        format!(
            "id\targuments\tgeneric\ttext{EOL}\
             122361\t1\t2\tOpen {{0}}{EOL}\
             122362\t0\t0\tline\\nbreak{EOL}"
        )
    );
    assert_eq!(body.lines().count(), 3, "a header and one row per tag");
}

#[test]
fn a_language_file_is_named_for_the_ids_the_crate_knows() {
    let cases = [(0, "keenglish.tsv"), (1, "english.tsv"), (2, "language-2.tsv"), (99, "language-99.tsv")];
    for (id, expected) in cases {
        assert_eq!(table_name(id), expected, "language {id}");
    }
}

#[test]
fn every_language_is_selected_by_default_in_id_order() {
    let (keenglish, languages) = collection();
    let selected = select_languages(keenglish, &languages, &[]).expect("every language is present");
    let ids: Vec<u32> = selected.iter().map(|(id, _)| *id).collect();
    assert_eq!(ids, [0, 1, 2]);
    assert_eq!(selected[0].1, 10);
    assert_eq!(selected[1].1, 20);
}

#[test]
fn named_languages_are_deduplicated_and_an_absent_one_is_refused() {
    let (keenglish, languages) = collection();
    let selected = select_languages(keenglish, &languages, &[2, 1, 2]).expect("both are present");
    let ids: Vec<u32> = selected.iter().map(|(id, _)| *id).collect();
    assert_eq!(ids, [1, 2]);

    let err = select_languages(keenglish, &languages, &[7]).expect_err("language 7 is not shipped");
    assert!(err.contains("no language 7"), "{err}");
    assert!(err.contains("0, 2, 1"), "the refusal lists what is there: {err}");
}

#[test]
fn the_smallest_absent_language_is_the_one_refused() {
    let (keenglish, languages) = collection();
    let err = select_languages(keenglish, &languages, &[9, 1, 5]).expect_err("two are absent");
    assert_eq!(err, "this build ships no language 5. It carries 0, 2, 1.");
}

#[test]
fn two_texts_never_share_an_escaped_cell() {
    let texts = ["a\\nb", "a\nb", "a\\\nb", "tab\there", "tab\\there", "\\", "\\\\"];
    for (i, x) in texts.iter().enumerate() {
        for (j, y) in texts.iter().enumerate() {
            if i != j {
                assert_ne!(escape(x), escape(y), "{x:?} and {y:?}");
            }
        }
        assert!(!escape(x).contains(['\t', '\n', '\r']), "{x:?}");
    }
}

#[test]
fn the_manifest_beside_the_client_wins_then_the_library_root() {
    assert_eq!(xtask::loca::manifest_build_choice("C/e.exe", "C", Some("1".to_string()), Some("L"), Some("2".to_string())), Ok("1".to_string()));
    assert_eq!(xtask::loca::manifest_build_choice("C/e.exe", "C", None, Some("L"), Some("2".to_string())), Ok("2".to_string()));
    assert_eq!(
        xtask::loca::manifest_build_choice("C/e.exe", "C", None, Some("L"), None),
        Err("no app manifest under a steamapps directory in C or L. Pass --build <buildid> to name the extraction directory for C/e.exe.".to_string())
    );
    assert_eq!(
        xtask::loca::manifest_build_choice("C/e.exe", "C", None, None, Some("2".to_string())),
        Err("no app manifest under a steamapps directory in C. Pass --build <buildid> to name the extraction directory for C/e.exe.".to_string())
    );
}
