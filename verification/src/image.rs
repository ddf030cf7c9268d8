//! Offline access to a Windows executable.
//!
//! The extractors read a build from its bytes rather than from a running
//! process, so every address here is either a virtual address the image would
//! have at its preferred base or a file offset into the bytes on disk.
//!
//! One rule governs the mapping between the two. A section's virtual size can exceed its
//! raw size, and a server build's `.data` section exceeds it by megabytes. A
//! virtual address landing in that gap has no bytes behind it, so
//! [`Image::offset_of`] returns `None` rather than a zero-filled read.

use vstd::prelude::*;

use crate::text::{
    byte_chars, first_from, hex2, hex_bytes, lemma_first_from, lemma_first_from_at, lemma_first_from_none,
    push_char, push_hex2, str_eq, string_of_bytes,
};

verus! {

/// The largest value a `u64` holds, as a mathematical integer.
pub open spec fn u64_max() -> int {
    0xFFFF_FFFF_FFFF_FFFF
}

/// The larger of two integers.
pub open spec fn max_int(a: int, b: int) -> int {
    if a >= b {
        a
    } else {
        b
    }
}

/// The smaller of two integers.
pub open spec fn min_int(a: int, b: int) -> int {
    if a <= b {
        a
    } else {
        b
    }
}

/// One section of the image, in the two coordinate systems at once.
#[derive(Debug, Clone)]
pub struct Section {
    /// The section name as the header spells it.
    pub name: String,
    /// The first virtual address the section covers.
    pub start: u64,
    /// The size the section occupies once loaded.
    pub virtual_size: u32,
    /// The first file offset the section covers.
    pub raw_offset: usize,
    /// The bytes the section actually occupies on disk.
    pub raw_size: usize,
}

impl Section {
    /// The first virtual address past the section, held at the top of the
    /// address space.
    pub open spec fn spec_end(&self) -> int {
        min_int(self.start + max_int(self.virtual_size as int, self.raw_size as int), u64_max())
    }

    /// The first virtual address past the part with bytes behind it, held at
    /// the top of the address space.
    pub open spec fn spec_raw_end(&self) -> int {
        min_int(self.start + self.raw_size, u64_max())
    }

    /// Whether the section covers a virtual address.
    pub open spec fn covers(&self, va: int) -> bool {
        self.start <= va < self.spec_end()
    }

    /// Whether the section's bytes on disk include a file offset.
    pub open spec fn holds_offset(&self, offset: int) -> bool {
        self.raw_offset <= offset < self.raw_offset + self.raw_size
    }

    /// Whether two sections share no file offset.
    pub open spec fn raw_apart(&self, other: &Section) -> bool {
        self.raw_offset + self.raw_size <= other.raw_offset || other.raw_offset + other.raw_size <= self.raw_offset
    }

    /// Whether both of the section's ranges can be represented.
    pub open spec fn wf(&self) -> bool {
        &&& self.start + max_int(self.virtual_size as int, self.raw_size as int) <= u64_max()
        &&& self.raw_offset + self.raw_size <= usize::MAX
    }

    /// The first virtual address past the section.
    fn end(&self) -> (r: u64)
        ensures
            r == self.spec_end(),
    {
        let raw = self.raw_size as u64;
        let span = if (self.virtual_size as u64) >= raw {
            self.virtual_size as u64
        } else {
            raw
        };
        self.start.saturating_add(span)
    }

    /// The first virtual address past the part with bytes behind it.
    pub fn raw_end(&self) -> (r: u64)
        ensures
            r == self.spec_raw_end(),
    {
        self.start.saturating_add(self.raw_size as u64)
    }
}

/// The `CodeView` record that names a build.
#[derive(Debug, Clone, PartialEq, Eq)]
pub struct Fingerprint {
    /// The RSDS signature, in the byte order the record stores it.
    pub guid: [u8; 16],
    /// The number of times this PDB was rebuilt for the same signature.
    pub age: u32,
}

/// The signature rendered the way Microsoft renders a PDB GUID: the first
/// three fields are little-endian, so their bytes are swapped, and the rest
/// follow in record order, grouped 4-4-4-4-12 by hyphens.
pub open spec fn pdb_guid_text(g: Seq<u8>) -> Seq<char> {
    hex2(g[3]) + hex2(g[2]) + hex2(g[1]) + hex2(g[0]) + seq!['-'] + hex2(g[5]) + hex2(g[4])
        + seq!['-'] + hex2(g[7]) + hex2(g[6]) + seq!['-'] + hex2(g[8]) + hex2(g[9]) + seq!['-']
        + hex_bytes(g.subrange(10, 16))
}

impl Fingerprint {
    /// The sixteen signature bytes in the order the record stores them, hex and
    /// lowercase.
    ///
    /// This is what a signature row matches on, and it is not what a symbol
    /// server takes. See [`Fingerprint::pdb_guid`].
    pub fn guid_file_order(&self) -> (out: String)
        ensures
            out@ == hex_bytes(self.guid@),
    {
        let mut out = String::new();
        let mut i: usize = 0;
        while i < 16
            invariant
                i <= 16,
                self.guid@.len() == 16,
                out@ == hex_bytes(self.guid@.take(i as int)),
            decreases 16 - i,
        {
            push_hex2(&mut out, self.guid[i]);
            i = i + 1;
            assert(self.guid@.take(i as int).drop_last() == self.guid@.take((i - 1) as int));
        }
        assert(self.guid@.take(16) == self.guid@);
        out
    }

    /// The same bytes as Microsoft renders a PDB GUID.
    ///
    /// The first three fields of a GUID are little-endian, so the record's byte
    /// order and this one differ in the first eight bytes. Only this rendering
    /// finds a PDB: strip the hyphens and upper-case it to build a `symsrv`
    /// path.
    pub fn pdb_guid(&self) -> (out: String)
        ensures
            out@ == pdb_guid_text(self.guid@),
    {
        let g = &self.guid;
        let mut out = String::new();
        push_hex2(&mut out, g[3]);
        push_hex2(&mut out, g[2]);
        push_hex2(&mut out, g[1]);
        push_hex2(&mut out, g[0]);
        push_char(&mut out, '-');
        push_hex2(&mut out, g[5]);
        push_hex2(&mut out, g[4]);
        push_char(&mut out, '-');
        push_hex2(&mut out, g[7]);
        push_hex2(&mut out, g[6]);
        push_char(&mut out, '-');
        push_hex2(&mut out, g[8]);
        push_hex2(&mut out, g[9]);
        push_char(&mut out, '-');
        let ghost head = out@;
        let mut i: usize = 10;
        while i < 16
            invariant
                10 <= i <= 16,
                g@.len() == 16,
                out@ == head + hex_bytes(g@.subrange(10, i as int)),
            decreases 16 - i,
        {
            push_hex2(&mut out, g[i]);
            i = i + 1;
            assert(g@.subrange(10, i as int).drop_last() == g@.subrange(10, (i - 1) as int));
        }
        out
    }
}

/// The little-endian 64-bit word whose first byte is at `at`.
pub open spec fn le_u64(s: Seq<u8>, at: int) -> int {
    s[at] + 0x100 * s[at + 1] + 0x1_0000 * s[at + 2] + 0x100_0000 * s[at + 3] + 0x1_0000_0000 * s[at
        + 4] + 0x100_0000_0000 * s[at + 5] + 0x1_0000_0000_0000 * s[at + 6] + 0x100_0000_0000_0000
        * s[at + 7]
}

/// An executable held in memory, with its section table decoded.
pub struct Image {
    bytes: Vec<u8>,
    sections: Vec<Section>,
    fingerprint: Option<Fingerprint>,
}

/// Why bytes could not be taken as an image.
#[derive(Debug)]
pub enum ImageError {
    /// The bytes do not parse as a PE image.
    NotPe(goblin::error::Error),
    /// The image has no optional header, so it states no preferred base.
    NoOptionalHeader,
    /// A section's virtual address overflows past the preferred base.
    AddressOverflow {
        /// The section name.
        section: String,
        /// The preferred base the address was added to.
        image_base: u64,
    },
    /// A section's virtual size overflows past its start.
    SizeOverflow {
        /// The section name.
        section: String,
        /// The first virtual address of the section.
        start: u64,
    },
    /// A section's bytes on disk end past the largest file offset.
    RawRangeOverflow {
        /// The section name.
        section: String,
    },
}

/// The outside parser's error type, carried through unread.
#[verifier::external_type_specification]
#[verifier::external_body]
pub struct ExGoblinError(goblin::error::Error);

/// One section header as the PE parser read it.
#[derive(Debug, Clone)]
pub struct RawSection {
    /// The section name, or empty when the header's name does not read.
    pub name: String,
    /// The section's address relative to the preferred base.
    pub virtual_address: u32,
    /// The size the section occupies once loaded.
    pub virtual_size: u32,
    /// The bytes the header says the section occupies on disk.
    pub size_of_raw_data: u32,
    /// The file offset the header says the section starts at.
    pub pointer_to_raw_data: u32,
}

/// A section header as plain values.
pub struct RawSectionView {
    pub name: Seq<char>,
    pub virtual_address: u32,
    pub virtual_size: u32,
    pub size_of_raw_data: u32,
    pub pointer_to_raw_data: u32,
}

impl View for RawSection {
    type V = RawSectionView;

    open spec fn view(&self) -> RawSectionView {
        RawSectionView {
            name: self.name@,
            virtual_address: self.virtual_address,
            virtual_size: self.virtual_size,
            size_of_raw_data: self.size_of_raw_data,
            pointer_to_raw_data: self.pointer_to_raw_data,
        }
    }
}

/// What the PE parser reports of an image, as plain values.
pub struct PeLayout {
    /// The preferred base from the optional header, when there is one.
    pub image_base: Option<u64>,
    /// The section headers, in header order.
    pub sections: Vec<RawSection>,
    /// The signature and age of the `CodeView` PDB 7.0 record, when there is one.
    pub codeview: Option<([u8; 16], u32)>,
}

/// A parser report as plain values.
pub struct PeLayoutView {
    pub image_base: Option<u64>,
    pub sections: Seq<RawSectionView>,
    pub codeview: Option<(Seq<u8>, u32)>,
}

impl View for PeLayout {
    type V = PeLayoutView;

    open spec fn view(&self) -> PeLayoutView {
        PeLayoutView {
            image_base: self.image_base,
            sections: Seq::new(self.sections@.len(), |i: int| self.sections@[i]@),
            codeview: match self.codeview {
                None => None,
                Some((g, a)) => Some((g@, a)),
            },
        }
    }
}

/// What `goblin::pe::PE::parse` reports of these bytes, or `None` when it
/// refuses them.
pub uninterp spec fn parsed_pe(bytes: Seq<u8>) -> Option<PeLayoutView>;

/// Parse bytes as a PE image.
///
/// Trusted: calls `goblin::pe::PE::parse` and copies out the optional
/// header's image base, each section header's name (empty when it does not
/// read) and its four address fields, and the `CodeView` PDB 7.0 signature and
/// age. The contract names the result and says nothing more of it.
#[verifier::external_body]
fn parse_pe(bytes: &[u8]) -> (r: Result<PeLayout, goblin::error::Error>)
    ensures
        r is Ok <==> parsed_pe(bytes@) is Some,
        r matches Ok(layout) ==> parsed_pe(bytes@) == Some(layout@),
{
    let pe = goblin::pe::PE::parse(bytes)?;
    let sections = pe.sections.iter().map(|s| RawSection {
        name: s.name().unwrap_or("").to_string(),
        virtual_address: s.virtual_address,
        virtual_size: s.virtual_size,
        size_of_raw_data: s.size_of_raw_data,
        pointer_to_raw_data: s.pointer_to_raw_data,
    }).collect();
    Ok(PeLayout {
        image_base: pe.header.optional_header.map(|o| o.windows_fields.image_base),
        sections,
        codeview: pe.debug_data.and_then(|d| d.codeview_pdb70_debug_info).map(|i| (i.signature, i.age)),
    })
}

/// A section as plain values.
pub struct SectionView {
    pub name: Seq<char>,
    pub start: u64,
    pub virtual_size: u32,
    pub raw_offset: usize,
    pub raw_size: usize,
}

impl View for Section {
    type V = SectionView;

    open spec fn view(&self) -> SectionView {
        SectionView {
            name: self.name@,
            start: self.start,
            virtual_size: self.virtual_size,
            raw_offset: self.raw_offset,
            raw_size: self.raw_size,
        }
    }
}

/// The ways one section header can fail to map into the address space.
pub enum SectionFault {
    Address,
    Size,
    RawRange,
}

/// The raw size a section header maps to: never more than the file holds.
pub open spec fn clamped_raw_size(raw: RawSectionView, len: nat) -> int {
    min_int(raw.size_of_raw_data as int, len as int)
}

/// Why a section header cannot be mapped, or `None` when it can.
pub open spec fn section_fault(base: u64, raw: RawSectionView, len: nat) -> Option<SectionFault> {
    let start = base + raw.virtual_address;
    if start > u64_max() {
        Some(SectionFault::Address)
    } else if start + max_int(raw.virtual_size as int, clamped_raw_size(raw, len)) > u64_max() {
        Some(SectionFault::Size)
    } else if raw.pointer_to_raw_data + clamped_raw_size(raw, len) > usize::MAX {
        Some(SectionFault::RawRange)
    } else {
        None
    }
}

/// The section a header maps to.
pub open spec fn mapped_section(base: u64, raw: RawSectionView, len: nat) -> SectionView {
    SectionView {
        name: raw.name,
        start: (base + raw.virtual_address) as u64,
        virtual_size: raw.virtual_size,
        raw_offset: raw.pointer_to_raw_data as usize,
        raw_size: clamped_raw_size(raw, len) as usize,
    }
}

/// Whether the error reports this fault for this section.
pub open spec fn reports_fault(e: ImageError, fault: SectionFault, raw: RawSectionView, base: u64) -> bool {
    match fault {
        SectionFault::Address => e matches ImageError::AddressOverflow { section, image_base } && section@
            == raw.name && image_base == base,
        SectionFault::Size => e matches ImageError::SizeOverflow { section, start } && section@ == raw.name
            && start == base + raw.virtual_address,
        SectionFault::RawRange => e matches ImageError::RawRangeOverflow { section } && section@ == raw.name,
    }
}

impl Image {
    /// Every section's ranges can be represented.
    pub open spec fn well_formed(&self) -> bool {
        forall|i: int| 0 <= i < self.spec_sections().len() ==> #[trigger] self.spec_sections()[i].wf()
    }

    /// Every image keeps its sections representable.
    #[verifier::type_invariant]
    spec fn sections_wf(&self) -> bool {
        self.well_formed()
    }

    /// No two sections share a virtual address.
    pub open spec fn virtually_disjoint(&self) -> bool {
        forall|i: int, j: int|
            0 <= i < self.spec_sections().len() && 0 <= j < self.spec_sections().len() && i != j
                ==> #[trigger] self.spec_sections()[i].spec_end() <= #[trigger] self.spec_sections()[j].start
                || self.spec_sections()[j].spec_end() <= self.spec_sections()[i].start
    }

    /// The whole file.
    pub closed spec fn spec_bytes(&self) -> Seq<u8> {
        self.bytes@
    }

    /// The section table, in header order.
    pub closed spec fn spec_sections(&self) -> Seq<Section> {
        self.sections@
    }

    /// The `CodeView` record, when the image carries one.
    pub closed spec fn spec_fingerprint(&self) -> Option<Fingerprint> {
        self.fingerprint
    }

    /// The index of the first section named `name`.
    pub open spec fn first_named(&self, name: Seq<char>) -> Option<int> {
        first_from(self.spec_sections(), |s: Section| s.name@ == name, 0)
    }

    /// The index of the first section covering a virtual address.
    pub open spec fn first_covering(&self, va: int) -> Option<int> {
        first_from(self.spec_sections(), |s: Section| s.covers(va), 0)
    }

    /// The index of the first section whose bytes hold a file offset.
    pub open spec fn first_holding(&self, offset: int) -> Option<int> {
        first_from(self.spec_sections(), |s: Section| s.holds_offset(offset), 0)
    }

    /// The file offset behind a virtual address, as [`Image::offset_of`] finds it.
    pub open spec fn spec_offset_of(&self, va: int) -> Option<int> {
        match self.first_covering(va) {
            None => None,
            Some(i) => {
                let s = self.spec_sections()[i];
                let offset = s.raw_offset + (va - s.start);
                if va < s.spec_raw_end() && offset < self.spec_bytes().len() {
                    Some(offset)
                } else {
                    None
                }
            },
        }
    }

    /// The virtual address a file offset loads at, as [`Image::va_of`] finds it.
    pub open spec fn spec_va_of(&self, offset: int) -> Option<int> {
        match self.first_holding(offset) {
            None => None,
            Some(i) => Some(
                self.spec_sections()[i].start + (offset - self.spec_sections()[i].raw_offset),
            ),
        }
    }

    /// The little-endian 64-bit word at a file offset, as [`Image::qword_at`]
    /// reads it.
    pub open spec fn spec_qword_at(&self, offset: int) -> Option<u64> {
        if 0 <= offset && offset + 8 <= self.spec_bytes().len() {
            Some(le_u64(self.spec_bytes(), offset) as u64)
        } else {
            None
        }
    }

    /// The NUL-terminated string at a virtual address, up to `limit` bytes, as
    /// [`Image::cstr`] reads it.
    pub open spec fn spec_cstr(&self, va: int, limit: int) -> Option<Seq<char>> {
        match self.spec_offset_of(va) {
            None => None,
            Some(start) => {
                let window = self.spec_bytes().subrange(
                    start,
                    min_int(start + limit + 1, self.spec_bytes().len() as int),
                );
                match first_from(window, |b: u8| b == 0, 0) {
                    Some(k) => Some(byte_chars(window.take(k))),
                    None => None,
                }
            },
        }
    }

    /// An image from its bytes and a decoded section table.
    ///
    /// # Errors
    ///
    /// Returns the fault of the first section whose ranges cannot be
    /// represented, the same refusal [`Image::from_layout`] makes.
    pub fn new(bytes: Vec<u8>, sections: Vec<Section>, fingerprint: Option<Fingerprint>) -> (r: Result<
        Self,
        ImageError,
    >)
        ensures
            r is Ok <==> forall|i: int| 0 <= i < sections@.len() ==> #[trigger] sections@[i].wf(),
            r matches Ok(image) ==> image.spec_bytes() == bytes@ && image.spec_sections() == sections@
                && image.spec_fingerprint() == fingerprint,
    {
        let mut i: usize = 0;
        while i < sections.len()
            invariant
                i <= sections@.len(),
                forall|j: int| 0 <= j < i ==> #[trigger] sections@[j].wf(),
            decreases sections@.len() - i,
        {
            let s = &sections[i];
            let raw = s.raw_size as u64;
            let span = if (s.virtual_size as u64) >= raw {
                s.virtual_size as u64
            } else {
                raw
            };
            if s.start.checked_add(span).is_none() {
                assert(!sections@[i as int].wf());
                return Err(ImageError::SizeOverflow { section: s.name.clone(), start: s.start });
            }
            if s.raw_offset.checked_add(s.raw_size).is_none() {
                assert(!sections@[i as int].wf());
                return Err(ImageError::RawRangeOverflow { section: s.name.clone() });
            }
            i = i + 1;
        }
        Ok(Image { bytes, sections, fingerprint })
    }

    /// Parse bytes as a PE image and decode its section table.
    ///
    /// # Errors
    ///
    /// Returns [`ImageError::NotPe`] when the parser refuses the bytes, and the
    /// refusals of [`Image::from_layout`] otherwise.
    pub fn from_bytes(bytes: Vec<u8>) -> (r: Result<Self, ImageError>)
        ensures
            parsed_pe(bytes@) is None <==> r matches Err(ImageError::NotPe(_)),
            parsed_pe(bytes@) matches Some(layout) ==> Self::layout_result(bytes@, layout, r),
    {
        match parse_pe(bytes.as_slice()) {
            Err(err) => Err(ImageError::NotPe(err)),
            Ok(layout) => Self::from_layout(bytes, layout),
        }
    }

    /// What [`Image::from_layout`] returns for these bytes and this parser
    /// report.
    pub open spec fn layout_result(bytes: Seq<u8>, layout: PeLayoutView, r: Result<Self, ImageError>) -> bool {
        match layout.image_base {
            None => r matches Err(ImageError::NoOptionalHeader),
            Some(base) => {
                let ok = forall|i: int| 0 <= i < layout.sections.len() ==> #[trigger] section_fault(base, layout.sections[i], bytes.len()) is None;
                &&& r is Ok <==> ok
                &&& r matches Ok(image) ==> {
                    &&& image.spec_bytes() == bytes
                    &&& image.spec_sections().len() == layout.sections.len()
                    &&& forall|i: int| 0 <= i < layout.sections.len() ==> #[trigger] image.spec_sections()[i]@
                        == mapped_section(base, layout.sections[i], bytes.len())
                    &&& match layout.codeview {
                        None => image.spec_fingerprint() is None,
                        Some((g, a)) => image.spec_fingerprint() matches Some(f) && f.guid@ == g && f.age == a,
                    }
                }
                &&& r matches Err(e) ==> exists|i: int| #![trigger layout.sections[i]] 0 <= i < layout.sections.len() && {
                    &&& section_fault(base, layout.sections[i], bytes.len()) matches Some(fault)
                    &&& reports_fault(e, fault, layout.sections[i], base)
                    &&& forall|j: int| 0 <= j < i ==> #[trigger] section_fault(base, layout.sections[j], bytes.len()) is None
                }
            },
        }
    }

    /// Decode a section table from what the PE parser reported.
    ///
    /// A crafted header can put the image base near the top of the address
    /// space, and an address that wraps would alias the bottom of it, so every
    /// section whose ranges cannot be represented is refused by name. A
    /// section's raw size is held to the bytes the file actually has.
    ///
    /// # Errors
    ///
    /// Returns [`ImageError::NoOptionalHeader`] when the parser found no
    /// optional header, and the fault of the first section that cannot be
    /// mapped otherwise.
    pub fn from_layout(bytes: Vec<u8>, layout: PeLayout) -> (r: Result<Self, ImageError>)
        ensures
            Self::layout_result(bytes@, layout@, r),
    {
        let image_base = match layout.image_base {
            None => return Err(ImageError::NoOptionalHeader),
            Some(base) => base,
        };
        let ghost lv = layout@;
        let mut sections: Vec<Section> = Vec::new();
        let mut i: usize = 0;
        while i < layout.sections.len()
            invariant
                lv == layout@,
                lv.image_base == Some(image_base),
                i <= layout.sections@.len(),
                sections@.len() == i,
                forall|j: int| 0 <= j < i ==> #[trigger] section_fault(image_base, lv.sections[j], bytes@.len()) is None,
                forall|j: int| 0 <= j < i ==> #[trigger] sections@[j]@ == mapped_section(image_base, lv.sections[j], bytes@.len()),
                forall|j: int| 0 <= j < i ==> #[trigger] sections@[j].wf(),
            decreases layout.sections@.len() - i,
        {
            let raw = &layout.sections[i];
            assert(lv.sections[i as int] == raw@);
            let start = match image_base.checked_add(raw.virtual_address as u64) {
                Some(start) => start,
                None => {
                    let e = ImageError::AddressOverflow { section: raw.name.clone(), image_base };
                    assert(section_fault(image_base, lv.sections[i as int], bytes@.len()) == Some(SectionFault::Address));
                    assert(reports_fault(e, SectionFault::Address, lv.sections[i as int], image_base));
                    return Err(e);
                },
            };
            let raw_size: usize = if (raw.size_of_raw_data as usize) <= bytes.len() {
                raw.size_of_raw_data as usize
            } else {
                bytes.len()
            };
            let span: u64 = if (raw.virtual_size as u64) >= (raw_size as u64) {
                raw.virtual_size as u64
            } else {
                raw_size as u64
            };
            assert(raw_size == clamped_raw_size(lv.sections[i as int], bytes@.len()));
            if start.checked_add(span).is_none() {
                let e = ImageError::SizeOverflow { section: raw.name.clone(), start };
                assert(section_fault(image_base, lv.sections[i as int], bytes@.len()) == Some(SectionFault::Size));
                assert(reports_fault(e, SectionFault::Size, lv.sections[i as int], image_base));
                return Err(e);
            }
            let raw_offset = raw.pointer_to_raw_data as usize;
            if raw_offset.checked_add(raw_size).is_none() {
                let e = ImageError::RawRangeOverflow { section: raw.name.clone() };
                assert(section_fault(image_base, lv.sections[i as int], bytes@.len()) == Some(SectionFault::RawRange));
                assert(reports_fault(e, SectionFault::RawRange, lv.sections[i as int], image_base));
                return Err(e);
            }
            sections.push(
                Section {
                    name: raw.name.clone(),
                    start,
                    virtual_size: raw.virtual_size,
                    raw_offset,
                    raw_size,
                },
            );
            i = i + 1;
        }
        let fingerprint = match layout.codeview {
            None => None,
            Some((guid, age)) => Some(Fingerprint { guid, age }),
        };
        Ok(Image { bytes, sections, fingerprint })
    }

    /// The whole file.
    pub fn bytes(&self) -> (r: &[u8])
        ensures
            r@ == self.spec_bytes(),
    {
        self.bytes.as_slice()
    }

    /// The `CodeView` record, when the image carries one.
    pub fn fingerprint(&self) -> (r: Option<&Fingerprint>)
        ensures
            r matches Some(f) ==> self.spec_fingerprint() == Some(*f),
            r is None <==> self.spec_fingerprint() is None,
    {
        match &self.fingerprint {
            Some(f) => Some(f),
            None => None,
        }
    }

    /// The section with this name.
    pub fn section(&self, name: &str) -> (r: Option<&Section>)
        ensures
            match self.first_named(name@) {
                None => r is None,
                Some(i) => r matches Some(s) && *s == self.spec_sections()[i],
            },
            r matches Some(s) ==> s.wf(),
    {
        proof {
            use_type_invariant(self);
        }
        let mut i: usize = 0;
        while i < self.sections.len()
            invariant
                i <= self.sections@.len(),
                self.well_formed(),
                forall|j: int| 0 <= j < i ==> #[trigger] self.sections@[j].name@ != name@,
            decreases self.sections@.len() - i,
        {
            if str_eq(self.sections[i].name.as_str(), name) {
                proof {
                    lemma_first_from_at(self.sections@, |s: Section| s.name@ == name@, 0, i as int);
                }
                return Some(&self.sections[i]);
            }
            i = i + 1;
        }
        proof {
            lemma_first_from_none(self.sections@, |s: Section| s.name@ == name@, 0);
        }
        None
    }

    /// The section covering a virtual address.
    pub fn section_of(&self, va: u64) -> (r: Option<&Section>)
        ensures
            match self.first_covering(va as int) {
                None => r is None,
                Some(i) => 0 <= i < self.spec_sections().len() && (r matches Some(s) && *s
                    == self.spec_sections()[i] && s.covers(va as int)),
            },
    {
        let mut i: usize = 0;
        while i < self.sections.len()
            invariant
                i <= self.sections@.len(),
                forall|j: int| 0 <= j < i ==> !#[trigger] self.sections@[j].covers(va as int),
            decreases self.sections@.len() - i,
        {
            let s = &self.sections[i];
            if s.start <= va && va < s.end() {
                proof {
                    lemma_first_from_at(self.sections@, |s: Section| s.covers(va as int), 0, i as int);
                }
                return Some(s);
            }
            i = i + 1;
        }
        proof {
            lemma_first_from_none(self.sections@, |s: Section| s.covers(va as int), 0);
        }
        None
    }

    /// The file offset behind a virtual address.
    ///
    /// `None` when the address is outside every section, or inside the part of
    /// a section that has no bytes on disk.
    pub fn offset_of(&self, va: u64) -> (r: Option<usize>)
        ensures
            r matches Some(o) ==> self.spec_offset_of(va as int) == Some(o as int),
            r is None ==> self.spec_offset_of(va as int) is None,
    {
        proof {
            use_type_invariant(self);
        }
        let section = match self.section_of(va) {
            Some(s) => s,
            None => return None,
        };
        if va >= section.raw_end() {
            return None;
        }
        let ghost i = self.first_covering(va as int)->0;
        assert(self.sections@[i].wf());
        let within = (va - section.start) as usize;
        let offset = section.raw_offset + within;
        if offset < self.bytes.len() {
            Some(offset)
        } else {
            None
        }
    }

    /// The virtual address a file offset loads at.
    pub fn va_of(&self, offset: usize) -> (r: Option<u64>)
        ensures
            r matches Some(v) ==> self.spec_va_of(offset as int) == Some(v as int),
            r is None ==> self.spec_va_of(offset as int) is None,
    {
        proof {
            use_type_invariant(self);
        }
        let mut i: usize = 0;
        while i < self.sections.len()
            invariant
                i <= self.sections@.len(),
                forall|j: int| 0 <= j < self.sections@.len() ==> #[trigger] self.sections@[j].wf(),
                forall|j: int| 0 <= j < i ==> !#[trigger] self.sections@[j].holds_offset(offset as int),
            decreases self.sections@.len() - i,
        {
            let s = &self.sections[i];
            assert(self.sections@[i as int].wf());
            if s.raw_offset <= offset && offset < s.raw_offset + s.raw_size {
                proof {
                    lemma_first_from_at(self.sections@, |s: Section| s.holds_offset(offset as int), 0, i as int);
                }
                return Some(s.start + (offset - s.raw_offset) as u64);
            }
            i = i + 1;
        }
        proof {
            lemma_first_from_none(self.sections@, |s: Section| s.holds_offset(offset as int), 0);
        }
        None
    }

    /// The little-endian 64-bit word at a file offset.
    pub fn qword_at(&self, offset: usize) -> (r: Option<u64>)
        ensures
            r == self.spec_qword_at(offset as int),
    {
        let len = self.bytes.len();
        if len < 8 || offset > len - 8 {
            return None;
        }
        let b = &self.bytes;
        let v: u64 = b[offset] as u64 + 0x100 * (b[offset + 1] as u64) + 0x1_0000 * (b[offset + 2] as u64)
            + 0x100_0000 * (b[offset + 3] as u64) + 0x1_0000_0000 * (b[offset + 4] as u64)
            + 0x100_0000_0000 * (b[offset + 5] as u64) + 0x1_0000_0000_0000 * (b[offset + 6] as u64)
            + 0x100_0000_0000_0000 * (b[offset + 7] as u64);
        Some(v)
    }

    /// The NUL-terminated string at a virtual address, up to `limit` bytes.
    ///
    /// Keen's tables hold ASCII, so the bytes are taken one to one rather than
    /// decoded, which keeps a stray high byte from turning into a replacement
    /// character and changing a dump.
    pub fn cstr(&self, va: u64, limit: usize) -> (r: Option<String>)
        ensures
            r matches Some(s) ==> self.spec_cstr(va as int, limit as int) == Some(s@),
            r is None ==> self.spec_cstr(va as int, limit as int) is None,
    {
        let start = match self.offset_of(va) {
            Some(start) => start,
            None => return None,
        };
        let len = self.bytes.len();
        let end = if limit < len - start {
            start + limit + 1
        } else {
            len
        };
        let ghost window = self.bytes@.subrange(start as int, end as int);
        let mut k: usize = start;
        while k < end && self.bytes[k] != 0
            invariant
                start <= k <= end <= len,
                len == self.bytes@.len(),
                window == self.bytes@.subrange(start as int, end as int),
                forall|j: int| 0 <= j < k - start ==> #[trigger] window[j] != 0,
            decreases end - k,
        {
            k = k + 1;
        }
        if k == end {
            proof {
                lemma_first_from_none(window, |b: u8| b == 0, 0);
            }
            return None;
        }
        let out = string_of_bytes(self.bytes.as_slice(), start, k);
        proof {
            let kk = (k - start) as int;
            assert(window[kk] == 0);
            lemma_first_from_at(window, |b: u8| b == 0, 0, kk);
            assert(window.take(kk) =~= self.bytes@.subrange(start as int, k as int));
        }
        Some(out)
    }
}

/// A file offset inside a section's bytes loads at an address that maps back
/// to the same offset, as long as no two sections share an address and the
/// offset lies inside the file.
pub proof fn lemma_offset_round_trip(image: Image, offset: int)
    requires
        image.well_formed(),
        image.virtually_disjoint(),
        0 <= offset < image.spec_bytes().len(),
        image.spec_va_of(offset) is Some,
    ensures
        image.spec_offset_of(image.spec_va_of(offset)->0) == Some(offset),
{
    let secs = image.spec_sections();
    lemma_first_from(secs, |s: Section| s.holds_offset(offset), 0);
    let i = image.first_holding(offset)->0;
    let va = image.spec_va_of(offset)->0;
    assert(secs[i].wf());
    assert(secs[i].covers(va));
    lemma_first_from(secs, |s: Section| s.covers(va), 0);
    if image.first_covering(va) is None {
        assert(!secs[i].covers(va));
    }
    let k = image.first_covering(va)->0;
    if k < i {
        assert(!secs[i].covers(va));
    }
    if i < k {
        assert(!secs[i].covers(va));
    }
    assert(k == i);
}

impl ImageError {
    /// The error as a sentence, without the path of the file it is about.
    pub fn message(&self) -> (r: String)
        ensures
            r@ == match self {
                ImageError::NotPe(_) => "the bytes do not parse as a PE image"@,
                ImageError::NoOptionalHeader => "the image has no optional header"@,
                ImageError::AddressOverflow { section, image_base } => "section "@ + section@
                    + " has a virtual address that overflows past ImageBase 0x"@ + crate::text::hex_text(
                    *image_base as nat,
                ),
                ImageError::SizeOverflow { section, start } => "section "@ + section@
                    + " has a virtual size that overflows past its start 0x"@ + crate::text::hex_text(
                    *start as nat,
                ),
                ImageError::RawRangeOverflow { section } => "section "@ + section@
                    + " has bytes on disk that end past the largest file offset"@,
            },
    {
        match self {
            ImageError::NotPe(_) => crate::ui::owned("the bytes do not parse as a PE image"),
            ImageError::NoOptionalHeader => crate::ui::owned("the image has no optional header"),
            ImageError::AddressOverflow { section, image_base } => {
                let mut r = crate::ui::owned("section ");
                crate::text::push_str(&mut r, section.as_str());
                crate::text::push_str(&mut r, " has a virtual address that overflows past ImageBase 0x");
                crate::text::push_str(&mut r, crate::text::hex_string(*image_base).as_str());
                r
            },
            ImageError::SizeOverflow { section, start } => {
                let mut r = crate::ui::owned("section ");
                crate::text::push_str(&mut r, section.as_str());
                crate::text::push_str(&mut r, " has a virtual size that overflows past its start 0x");
                crate::text::push_str(&mut r, crate::text::hex_string(*start).as_str());
                r
            },
            ImageError::RawRangeOverflow { section } => {
                let mut r = crate::ui::owned("section ");
                crate::text::push_str(&mut r, section.as_str());
                crate::text::push_str(&mut r, " has bytes on disk that end past the largest file offset");
                r
            },
        }
    }
}

/// No two sections of the image share a file offset.
pub open spec fn raw_disjoint(image: Image) -> bool {
    forall|i: int, j: int|
        #![trigger image.spec_sections()[i], image.spec_sections()[j]]
        0 <= i < image.spec_sections().len() && 0 <= j < image.spec_sections().len() && i != j
            ==> image.spec_sections()[i].raw_apart(&image.spec_sections()[j])
}

/// An address with bytes behind it maps to a file offset that loads back at
/// the same address, as long as no two sections share a file offset.
pub proof fn lemma_address_round_trip(image: Image, va: int)
    requires
        image.well_formed(),
        raw_disjoint(image),
        image.spec_offset_of(va) is Some,
    ensures
        image.spec_va_of(image.spec_offset_of(va)->0) == Some(va),
{
    let secs = image.spec_sections();
    lemma_first_from(secs, |s: Section| s.covers(va), 0);
    let i = image.first_covering(va)->0;
    assert(secs[i].wf());
    let o = image.spec_offset_of(va)->0;
    assert(secs[i].holds_offset(o));
    lemma_first_from(secs, |s: Section| s.holds_offset(o), 0);
    if image.first_holding(o) is None {
        assert(!secs[i].holds_offset(o));
    }
    let k = image.first_holding(o)->0;
    if k < i {
        assert(secs[k].raw_apart(&secs[i]));
    }
    if i < k {
        assert(!secs[i].holds_offset(o));
    }
    assert(k == i);
}

/// An image that opens maps every section header without wrapping: each
/// section starts at the image base plus its virtual address, holds no more
/// raw bytes than the file has, and its whole span fits in 64 bits.
pub proof fn lemma_opened_sections_fit(bytes: Seq<u8>, layout: PeLayoutView, image: Image)
    requires
        Image::layout_result(bytes, layout, Ok(image)),
    ensures
        layout.image_base is Some,
        forall|i: int| 0 <= i < layout.sections.len() ==> {
            let s = #[trigger] image.spec_sections()[i]@;
            &&& s.start == layout.image_base->0 + layout.sections[i].virtual_address
            &&& s.raw_size <= bytes.len()
            &&& s.start + max_int(s.virtual_size as int, s.raw_size as int) <= u64_max()
        },
{
    let base = layout.image_base->0;
    assert forall|i: int| 0 <= i < layout.sections.len() implies {
        let s = #[trigger] image.spec_sections()[i]@;
        &&& s.start == base + layout.sections[i].virtual_address
        &&& s.raw_size <= bytes.len()
        &&& s.start + max_int(s.virtual_size as int, s.raw_size as int) <= u64_max()
    } by {
        assert(section_fault(base, layout.sections[i], bytes.len()) is None);
        assert(image.spec_sections()[i]@ == mapped_section(base, layout.sections[i], bytes.len()));
    }
}

/// A string read at an address is at most `limit` characters, none of them
/// NUL, each the byte it was read from.
pub proof fn lemma_cstr_shape(image: Image, va: int, limit: int)
    requires
        0 <= limit,
        image.spec_cstr(va, limit) is Some,
    ensures
        image.spec_cstr(va, limit)->0.len() <= limit,
        forall|i: int| 0 <= i < image.spec_cstr(va, limit)->0.len()
            ==> #[trigger] image.spec_cstr(va, limit)->0[i] != '\0' && (image.spec_cstr(va, limit)->0[i] as u32) < 256,
{
    crate::text::lemma_first_from(image.spec_sections(), |x: Section| x.covers(va), 0);
    let start = image.spec_offset_of(va)->0;
    let b = image.spec_bytes();
    let window = b.subrange(start, min_int(start + limit + 1, b.len() as int));
    crate::text::lemma_first_from(window, |x: u8| x == 0, 0);
    let k = first_from(window, |x: u8| x == 0, 0)->0;
    let s = image.spec_cstr(va, limit)->0;
    assert(s == byte_chars(window.take(k)));
    assert forall|i: int| 0 <= i < s.len() implies #[trigger] s[i] != '\0' && (s[i] as u32) < 256 by {
        assert(window[i] != 0);
        assert(s[i] == window[i] as char);
    }
}

} // verus!
