use xtask::image::{Fingerprint, Image, Section};

fn image_with(sections: Vec<Section>, bytes: Vec<u8>) -> Image {
    match Image::new(bytes, sections, None) {
        Ok(image) => image,
        Err(_) => panic!("the sections are representable"),
    }
}

#[test]
fn a_read_past_the_raw_size_fails() {
    let image = image_with(
        vec![Section {
            name: ".data".to_string(),
            start: 0x1_4000_1000,
            virtual_size: 0x4000,
            raw_offset: 0,
            raw_size: 0x40,
        }],
        vec![0xAB; 0x40],
    );
    assert_eq!(image.offset_of(0x1_4000_1000), Some(0));
    assert_eq!(image.offset_of(0x1_4000_1038), Some(0x38));
    assert_eq!(image.offset_of(0x1_4000_1040), None, "the raw bytes end here");
    assert_eq!(image.offset_of(0x1_4000_2000), None, "inside the virtual gap");
    assert_eq!(image.qword_at(0x40), None);
}

#[test]
fn offsets_and_addresses_round_trip_inside_the_raw_range() {
    let image = image_with(
        vec![Section {
            name: ".rdata".to_string(),
            start: 0x1_4000_2000,
            virtual_size: 0x100,
            raw_offset: 0x200,
            raw_size: 0x100,
        }],
        vec![0; 0x400],
    );
    for offset in [0x200_usize, 0x250, 0x2FF] {
        let va = image.va_of(offset).expect("offset is inside the section");
        assert_eq!(image.offset_of(va), Some(offset));
    }
    assert_eq!(image.va_of(0x300), None, "past the section");
}

#[test]
fn a_fingerprint_renders_in_file_order_and_as_a_pdb_guid() {
    let guid = [
        0xae, 0x33, 0xb4, 0x48, 0x63, 0x80, 0x3d, 0x4e, 0xb3, 0x1f, 0x31, 0xd4, 0xd8, 0x4a, 0xe2,
        0x42,
    ];
    let print = Fingerprint { guid, age: 293 };
    assert_eq!(print.guid_file_order(), "ae33b44863803d4eb31f31d4d84ae242");
    assert_eq!(print.pdb_guid(), "48b433ae-8063-4e3d-b31f-31d4d84ae242");
    assert_ne!(
        print.guid_file_order(),
        print.pdb_guid().replace('-', ""),
        "the two renderings must not be confusable"
    );
}

#[test]
fn a_section_whose_end_overflows_is_refused_by_name() {
    let outcome = Image::new(
        vec![0; 16],
        vec![Section {
            name: ".text".to_string(),
            start: 0xFFFF_FFFF_FFFF_0000,
            virtual_size: 0xFFFF_FFFF,
            raw_offset: 0,
            raw_size: 0x10,
        }],
        None,
    );
    match outcome {
        Err(xtask::image::ImageError::SizeOverflow { section, start }) => {
            assert_eq!(section, ".text");
            assert_eq!(start, 0xFFFF_FFFF_FFFF_0000);
        }
        _ => panic!("the section end cannot be represented"),
    }
}

#[test]
fn bytes_that_are_not_a_pe_image_are_refused() {
    match Image::from_bytes(b"not an executable at all".to_vec()) {
        Err(xtask::image::ImageError::NotPe(_)) => {}
        _ => panic!("the parser refuses these bytes"),
    }
}

#[test]
fn sections_are_found_by_name_and_by_address() {
    let image = image_with(
        vec![
            Section {
                name: ".text".to_string(),
                start: 0x1000,
                virtual_size: 0x100,
                raw_offset: 0x0,
                raw_size: 0x100,
            },
            Section {
                name: ".rdata".to_string(),
                start: 0x2000,
                virtual_size: 0x100,
                raw_offset: 0x100,
                raw_size: 0x100,
            },
        ],
        vec![0; 0x200],
    );
    assert_eq!(image.section(".rdata").map(|s| s.start), Some(0x2000));
    assert!(image.section(".data").is_none());
    assert_eq!(image.section_of(0x2050).map(|s| s.name.as_str()), Some(".rdata"));
    assert!(image.section_of(0x1800).is_none());
    assert_eq!(image.va_of(0x150), Some(0x2050));
    assert_eq!(image.bytes().len(), 0x200);
    assert!(image.fingerprint().is_none());
}

#[test]
fn a_qword_and_a_string_read_from_the_bytes() {
    let mut bytes = vec![0u8; 0x40];
    bytes[8..16].copy_from_slice(&0x0123_4567_89AB_CDEF_u64.to_le_bytes());
    bytes[0x20..0x25].copy_from_slice(b"hello");
    let image = image_with(
        vec![Section {
            name: ".rdata".to_string(),
            start: 0x1000,
            virtual_size: 0x40,
            raw_offset: 0,
            raw_size: 0x40,
        }],
        bytes,
    );
    assert_eq!(image.qword_at(8), Some(0x0123_4567_89AB_CDEF));
    assert_eq!(image.cstr(0x1020, 64), Some("hello".to_string()));
    assert_eq!(image.cstr(0x1020, 3), None, "no terminator within the limit");
    assert_eq!(image.cstr(0x1020, 5), Some("hello".to_string()));
}

/// One section of a synthetic image: name, virtual address, virtual size,
/// raw size.
type Synthetic = (&'static str, u32, u32, u32);

/// A minimal PE32+ that the parser reads, with the header fields a crafted
/// input would set.
fn synthetic_pe(image_base: u64, sections: &[Synthetic]) -> Vec<u8> {
    const FILE_ALIGN: u32 = 0x200;
    const OPT_SIZE: u16 = 240;
    let align = |x: u32| x.div_ceil(FILE_ALIGN) * FILE_ALIGN;
    let e_lfanew: u32 = 0x40;
    let count = u16::try_from(sections.len()).expect("a synthetic image has few sections");
    let headers_end = e_lfanew + 4 + 20 + u32::from(OPT_SIZE) + 40 * u32::from(count);
    let headers_raw = align(headers_end);

    let mut out = vec![0u8; e_lfanew as usize];
    out[0..2].copy_from_slice(b"MZ");
    out[0x3C..0x40].copy_from_slice(&e_lfanew.to_le_bytes());
    out.extend_from_slice(&[b'P', b'E', 0, 0]);
    out.extend_from_slice(&0x8664_u16.to_le_bytes());
    out.extend_from_slice(&count.to_le_bytes());
    out.extend_from_slice(&[0u8; 12]);
    out.extend_from_slice(&OPT_SIZE.to_le_bytes());
    out.extend_from_slice(&0x0022_u16.to_le_bytes());

    let mut opt: Vec<u8> = Vec::new();
    opt.extend_from_slice(&0x20B_u16.to_le_bytes());
    opt.extend_from_slice(&[14, 0]);
    opt.extend_from_slice(&0x200_u32.to_le_bytes());
    opt.extend_from_slice(&0x400_u32.to_le_bytes());
    opt.extend_from_slice(&0_u32.to_le_bytes());
    opt.extend_from_slice(&0x1000_u32.to_le_bytes());
    opt.extend_from_slice(&0x1000_u32.to_le_bytes());
    opt.extend_from_slice(&image_base.to_le_bytes());
    opt.extend_from_slice(&0x1000_u32.to_le_bytes());
    opt.extend_from_slice(&FILE_ALIGN.to_le_bytes());
    opt.extend_from_slice(&[6, 0, 0, 0, 0, 0, 0, 0, 6, 0, 0, 0]);
    opt.extend_from_slice(&0_u32.to_le_bytes());
    let size_of_image = sections
        .iter()
        .map(|(_, va, vsize, _)| va.wrapping_add(*vsize))
        .max()
        .unwrap_or(0x1000);
    opt.extend_from_slice(&size_of_image.to_le_bytes());
    opt.extend_from_slice(&headers_raw.to_le_bytes());
    opt.extend_from_slice(&0_u32.to_le_bytes());
    opt.extend_from_slice(&3_u16.to_le_bytes());
    opt.extend_from_slice(&0_u16.to_le_bytes());
    for reserve in [0x10_0000_u64, 0x1000, 0x10_0000, 0x1000] {
        opt.extend_from_slice(&reserve.to_le_bytes());
    }
    opt.extend_from_slice(&0_u32.to_le_bytes());
    opt.extend_from_slice(&16_u32.to_le_bytes());
    opt.extend_from_slice(&[0u8; 16 * 8]);
    assert_eq!(opt.len(), usize::from(OPT_SIZE));
    out.extend_from_slice(&opt);

    let mut raw_ptr = headers_raw;
    for (name, va, vsize, raw_size) in sections {
        let mut header = [0u8; 40];
        header[..name.len().min(8)].copy_from_slice(&name.as_bytes()[..name.len().min(8)]);
        header[8..12].copy_from_slice(&vsize.to_le_bytes());
        header[12..16].copy_from_slice(&va.to_le_bytes());
        header[16..20].copy_from_slice(&raw_size.to_le_bytes());
        header[20..24].copy_from_slice(&raw_ptr.to_le_bytes());
        header[36..40].copy_from_slice(&0x6000_0020_u32.to_le_bytes());
        out.extend_from_slice(&header);
        raw_ptr += align(*raw_size);
    }
    out.resize(raw_ptr as usize, 0);
    out
}

/// The error text of an open that must fail.
fn refusal(outcome: Result<Image, xtask::image::ImageError>, why: &str) -> String {
    match outcome {
        Ok(_) => panic!("{why}"),
        Err(err) => err.message(),
    }
}

#[test]
fn a_well_formed_synthetic_image_opens_and_maps_its_sections() {
    let image = Image::from_bytes(synthetic_pe(
        0x1_4000_0000,
        &[(".text", 0x1000, 0x200, 0x200), (".rdata", 0x2000, 0x200, 0x200)],
    ))
    .unwrap_or_else(|err| panic!("a well-formed image opens: {}", err.message()));
    let rdata = image.section(".rdata").expect("the section is there");
    assert_eq!(rdata.start, 0x1_4000_2000);
    assert_eq!(rdata.raw_size, 0x200);
    assert!(image.offset_of(0x1_4000_2000).is_some());
}

#[test]
fn a_crafted_image_base_that_overflows_is_a_clean_error() {
    let text = refusal(
        Image::from_bytes(synthetic_pe(0xFFFF_FFFF_FFFF_F000, &[(".text", 0x1000, 0x200, 0x200)])),
        "the section address cannot be represented",
    );
    assert!(text.contains("ImageBase"), "{text}");
    assert!(text.contains(".text"), "{text}");
}

#[test]
fn a_crafted_virtual_size_that_overflows_is_a_clean_error() {
    let text = refusal(
        Image::from_bytes(synthetic_pe(0xFFFF_FFFF_FFFF_0000, &[(".text", 0x1000, 0xFFFF_FFFF, 0x200)])),
        "the section end cannot be represented",
    );
    assert!(text.contains("virtual size"), "{text}");
    assert!(text.contains(".text"), "{text}");
}

#[test]
fn an_overflow_is_named_with_its_address() {
    let text = refusal(
        Image::from_bytes(synthetic_pe(0xFFFF_FFFF_FFFF_F000, &[(".text", 0x1000, 0x200, 0x200)])),
        "the section address cannot be represented",
    );
    assert_eq!(text, "section .text has a virtual address that overflows past ImageBase 0xfffffffffffff000");
}

#[test]
fn an_address_with_bytes_behind_it_loads_back_where_it_came_from() {
    let image = image_with(
        vec![
            Section { name: ".text".to_string(), start: 0x1000, virtual_size: 0x80, raw_offset: 0x0, raw_size: 0x40 },
            Section { name: ".rdata".to_string(), start: 0x2000, virtual_size: 0x40, raw_offset: 0x40, raw_size: 0x40 },
        ],
        vec![0; 0x80],
    );
    for va in [0x1000_u64, 0x103F, 0x2000, 0x2010, 0x203F] {
        let offset = image.offset_of(va).expect("bytes are behind it");
        assert_eq!(image.va_of(offset), Some(va));
    }
    assert_eq!(image.offset_of(0x1040), None, "the gap past the raw bytes");
}
