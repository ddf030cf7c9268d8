use xtask::kfc::{Revision, RevisionError, parse};

fn pack(record: &str) -> Vec<u8> {
    let mut bytes = vec![0u8; 144];
    bytes[0..4].copy_from_slice(b"KFC3");
    bytes.extend_from_slice(record.as_bytes());
    bytes.extend_from_slice(&[0u8; 32]);
    bytes
}

#[test]
fn a_well_formed_record_parses() {
    let header = pack("1024233|^/game38/branches/ea_update_08|2026-05-11T10:44:54.050433Z");
    assert_eq!(
        parse(&header),
        Ok(Revision {
            number: 1_024_233,
            branch: "^/game38/branches/ea_update_08".to_string(),
            stamp: "2026-05-11T10:44:54.050433Z".to_string(),
        })
    );
}

#[test]
fn malformed_records_name_what_was_expected() {
    let cases: &[(&str, &str)] = &[
        ("1024233;^/game38/branches/ea_update_08;2026-05-11T", "expected two '|' separators"),
        ("1024233|^/game38/branches/ea_update_08|2026|extra", "expected two '|' separators"),
        ("r1024233|^/game38/branches/ea_update_08|2026-05-11T", "the revision field is not a number"),
        ("|^/game38/branches/ea_update_08|2026-05-11T10:44:54Z", "the revision field is not a number"),
        ("99999999999|^/game38/branches/ea_update_08|2026-05-11T", "the revision field does not fit in 32 bits"),
        ("1024233|/game38/branches/ea_update_08|2026-05-11T^/x", "the branch field is not a Subversion caret path"),
    ];
    for (record, reason) in cases {
        assert_eq!(
            parse(&pack(record)),
            Err(RevisionError::Malformed { reason }),
            "record {record}"
        );
    }
}

#[test]
fn a_header_with_no_caret_path_is_malformed() {
    let header = pack("1024233|game38|2026-05-11T10:44:54Z");
    assert_eq!(
        parse(&header),
        Err(RevisionError::Malformed { reason: "no field carrying a Subversion caret path" })
    );
}

#[test]
fn a_short_header_is_truncated() {
    let cases: &[&[u8]] = &[b"", b"KFC3", b"KFC3\0RC\0\x0c\0\0\0"];
    for case in cases {
        assert_eq!(
            parse(case),
            Err(RevisionError::Truncated { read: case.len() }),
            "header of {} bytes",
            case.len()
        );
    }
}

#[test]
fn a_record_cut_off_by_the_window_is_truncated() {
    let mut header = vec![0u8; 480];
    header[0..4].copy_from_slice(b"KFC3");
    header.extend_from_slice(b"1024233|^/game38/branches/ea_update_08|2026-05-11T10:44:54Z");
    assert_eq!(parse(&header), Err(RevisionError::Truncated { read: header.len() }));
}

#[test]
fn the_window_bounds_the_search() {
    let mut header = vec![0u8; 512];
    header[0..4].copy_from_slice(b"KFC3");
    header.extend_from_slice(b"1024233|^/game38/branches/ea_update_08|2026-05-11T10:44:54Z\0");
    assert_eq!(
        parse(&header),
        Err(RevisionError::Malformed { reason: "no field carrying a Subversion caret path" }),
        "a record past the header window is not the pack's revision record"
    );
}

#[test]
fn the_first_failure_is_the_one_reported() {
    let mut header = pack("1024233;^/game38/branches/ea_update_08;x");
    header.extend_from_slice(b"r5|^/game38/branches/ea_update_08|2026\0");
    assert_eq!(
        parse(&header),
        Err(RevisionError::Malformed { reason: "expected two '|' separators" })
    );
}

#[test]
fn a_record_after_a_failed_candidate_still_parses() {
    let mut header = pack("1024233;^/game38/branches/ea_update_08;x");
    header.extend_from_slice(b"0042|^/trunk/content/main|stamp\0");
    assert_eq!(
        parse(&header),
        Ok(Revision { number: 42, branch: "^/trunk/content/main".to_string(), stamp: "stamp".to_string() })
    );
}

#[test]
fn every_error_reads_as_a_sentence() {
    assert_eq!(
        RevisionError::Missing("/srv/enshrouded_server.kfc".to_string()).message(),
        "no data pack at /srv/enshrouded_server.kfc"
    );
    assert_eq!(
        RevisionError::Truncated { read: 12 }.message(),
        "the pack header ends after 12 bytes, before the revision record"
    );
    assert_eq!(
        RevisionError::Malformed { reason: "expected two '|' separators" }.message(),
        "the pack header holds no revision record: expected two '|' separators"
    );
}
