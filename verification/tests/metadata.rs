use xtask::schema::metadata::{BuildRecord, Fingerprint, Revision};

fn record() -> BuildRecord {
    BuildRecord {
        build_id: "23178631".to_string(),
        fingerprint: Some(Fingerprint {
            guid_file_order: "ae33b44863803d4eb31f31d4d84ae242".to_string(),
            guid_pdb: "48b433ae-8063-4e3d-b31f-31d4d84ae242".to_string(),
            age: 293,
        }),
        revision: Some(Revision {
            number: 1_024_233,
            branch: "^/game38/branches/ea_update_08".to_string(),
            stamp: "2026-05-11T10:44:54.050433Z".to_string(),
        }),
        extracted_at: "2026-09-17T21:00:00Z".to_string(),
        server: r"Z:\cache\server\23178631\enshrouded_server.exe".to_string(),
        client: None,
    }
}

#[test]
fn a_record_names_its_build_in_one_line() {
    assert_eq!(record().summary(), "23178631 (r1024233, extracted 2026-09-17T21:00:00Z)");
    let mut unknown = record();
    unknown.revision = None;
    assert_eq!(unknown.summary(), "23178631 (revision unknown, extracted 2026-09-17T21:00:00Z)");
}

#[test]
fn both_fingerprint_renderings_come_from_the_image_record() {
    let guid = [
        0xae, 0x33, 0xb4, 0x48, 0x63, 0x80, 0x3d, 0x4e, 0xb3, 0x1f, 0x31, 0xd4, 0xd8, 0x4a, 0xe2, 0x42,
    ];
    let print = Fingerprint::of(&xtask::image::Fingerprint { guid, age: 293 });
    assert_eq!(Some(print), record().fingerprint);
}
