use xtask::image::{Image, Section};
use xtask::schema::{descriptor, proto};

fn put_u64(bytes: &mut [u8], at: usize, value: u64) {
    bytes[at..at + 8].copy_from_slice(&value.to_le_bytes());
}

fn put_str(bytes: &mut [u8], at: usize, text: &str) {
    bytes[at..at + text.len()].copy_from_slice(text.as_bytes());
    bytes[at + text.len()] = 0;
}

/// An image whose `.rdata` holds one type descriptor based at 0x1000.
fn descriptor_image() -> Image {
    let mut bytes = vec![0u8; 0x400];
    put_str(&mut bytes, 0x200, "PlayerSpawnPoint");
    put_str(&mut bytes, 0x220, "keen::ecs::PlayerSpawnPoint");
    put_str(&mut bytes, 0x240, "ecs.PlayerSpawnPoint");
    put_u64(&mut bytes, 0x40, 0x1200);
    put_u64(&mut bytes, 0x48, 16);
    put_u64(&mut bytes, 0x50, 0x1240);
    put_u64(&mut bytes, 0x60, 0x1220);
    put_u64(&mut bytes, 0x68, 27);
    put_u64(&mut bytes, 0x80, (8 << 32) | 0x20);
    put_u64(&mut bytes, 0x88, (0x8 << 32) | 2);
    put_u64(&mut bytes, 0x90, 0xDEAD_BEEF);
    put_u64(&mut bytes, 0x98, 0);
    put_u64(&mut bytes, 0xA0, 0x1300);
    // Two enumerators at 0x300, forty bytes apart.
    put_str(&mut bytes, 0x280, "First");
    put_str(&mut bytes, 0x290, "Second");
    put_u64(&mut bytes, 0x300, 0x1280);
    put_u64(&mut bytes, 0x308, 5);
    put_u64(&mut bytes, 0x310, 7);
    put_u64(&mut bytes, 0x328, 0x1290);
    put_u64(&mut bytes, 0x330, 6);
    put_u64(&mut bytes, 0x338, 9);
    let sections = vec![Section { name: ".rdata".to_string(), start: 0x1000, virtual_size: 0x400, raw_offset: 0, raw_size: 0x400 }];
    match Image::new(bytes, sections, None) {
        Ok(image) => image,
        Err(_) => panic!("the section is representable"),
    }
}

#[test]
fn a_name_slice_must_match_its_string_exactly() {
    let image = descriptor_image();
    assert_eq!(descriptor::name_slice(&image, 0x40), Some("PlayerSpawnPoint".to_string()));
    assert_eq!(descriptor::name_slice(&image, 0x60), Some("keen::ecs::PlayerSpawnPoint".to_string()));
    assert_eq!(descriptor::name_slice(&image, 0x80), None, "a size word is no pointer into .rdata");
    assert_eq!(descriptor::name_slice(&image, 0x3FC), None, "the pair runs past the file");
}

#[test]
fn a_descriptor_decodes_its_words() {
    let image = descriptor_image();
    let d = descriptor::read(&image, 0x1000).expect("the descriptor decodes");
    assert_eq!(d.short, "PlayerSpawnPoint");
    assert_eq!(d.full, "keen::ecs::PlayerSpawnPoint");
    assert_eq!(d.dotted.as_deref(), Some("ecs.PlayerSpawnPoint"));
    assert_eq!(d.size, 0x20);
    assert_eq!(d.align, 8);
    assert_eq!(d.members, 2);
    assert_eq!(d.flags, 0x8);
    assert!(d.is_enum());
    assert_eq!(d.hash, 0xDEAD_BEEF);
    assert!(descriptor::read(&image, 0x1004).is_none(), "a base off the eight-byte grid is refused");
    let values: Vec<(u64, String)> = descriptor::enumerators(&image, &d).into_iter().map(|e| (e.value, e.name)).collect();
    assert_eq!(values, vec![(7, "First".to_string()), (9, "Second".to_string())]);
    assert!(descriptor::fields(&image, &d).is_empty(), "no field array is mapped");
}

#[test]
fn the_walk_finds_the_one_descriptor() {
    let image = descriptor_image();
    let found: Vec<String> = descriptor::walk(&image).into_iter().map(|d| d.full).collect();
    assert_eq!(found, vec!["keen::ecs::PlayerSpawnPoint".to_string()]);
}

/// An image whose `.data` holds a registry block of two messages around the anchor.
fn registry_image() -> Image {
    let mut bytes = vec![0u8; 0x400];
    put_str(&mut bytes, 0x300, "LoginMessage");
    put_str(&mut bytes, 0x320, "ServerInfoMessage");
    put_str(&mut bytes, 0x340, "slotCount");
    put_str(&mut bytes, 0x360, "2bad");
    // Records at 0x08 and 0x30, forty bytes apart.
    put_u64(&mut bytes, 0x08, 0x1300);
    put_u64(&mut bytes, 0x10, 16);
    put_u64(&mut bytes, 0x30, 0x1320);
    put_u64(&mut bytes, 0x38, 64);
    put_u64(&mut bytes, 0x40, 0x1100);
    put_u64(&mut bytes, 0x48, 2);
    // Field records at 0x100, sixty-four bytes apart; the second has a bad name.
    put_u64(&mut bytes, 0x100, 0x1340);
    put_u64(&mut bytes, 0x108, 0x8);
    put_u64(&mut bytes, 0x118, 12);
    put_u64(&mut bytes, 0x128, 1);
    put_u64(&mut bytes, 0x140, 0x1360);
    put_u64(&mut bytes, 0x148, 0x0);
    let sections = vec![Section { name: ".data".to_string(), start: 0x1000, virtual_size: 0x400, raw_offset: 0, raw_size: 0x400 }];
    match Image::new(bytes, sections, None) {
        Ok(image) => image,
        Err(_) => panic!("the section is representable"),
    }
}

#[test]
fn the_registry_block_is_read_around_its_anchor() {
    let image = registry_image();
    assert_eq!(proto::identifier(&image, 0x1320), Some("ServerInfoMessage".to_string()));
    assert_eq!(proto::identifier(&image, 0x1360), None, "a name cannot open with a digit");
    let messages = proto::walk(&image);
    let names: Vec<&str> = messages.iter().map(|m| m.name.as_str()).collect();
    assert_eq!(names, ["LoginMessage", "ServerInfoMessage"]);
    let info = &messages[1];
    assert_eq!(info.size, 64);
    assert_eq!(info.declared_fields, 2);
    assert_eq!(info.fields.len(), 1, "the walk stops at the field whose name does not read");
    assert_eq!(info.fields[0].name, "slotCount");
    assert_eq!(info.fields[0].wire_type, "uint32");
    assert_eq!(info.fields[0].offset, 12);
    assert_eq!(proto::wire_type(0x9), Some("uint64?"));
    assert_eq!(proto::wire_type(0x5), None);
}
