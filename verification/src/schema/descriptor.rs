//! The reflection type descriptors Keen's engine keeps in `.rdata`.
//!
//! A descriptor is found through its name, not through a registry. The bare
//! name sits at `+0x40` from the descriptor base as a `{pointer, length}` pair,
//! so a scan of `.rdata` for a pair whose target is a string of exactly that
//! length lands on every descriptor in the image.
//!
//! From the base: `+0x40` the bare name, `+0x50` the dotted `ecs.X` name,
//! `+0x60` the qualified `keen::...` name, `+0x80` size then alignment, `+0x88`
//! field count then flags, `+0x90` a 64-bit hash whose low half is FNV-1a 32 of
//! the qualified name, `+0x98` the field array, `+0xa0` the enumerator array. A
//! field record is 48 bytes and an enumerator record is 40.

use vstd::prelude::*;

use crate::image::Image;
use crate::text::{byte_chars, string_of_bytes};

verus! {

/// Flag bit that makes a descriptor an enumeration rather than a structure.
pub const FLAG_ENUM: u32 = 0x8;

/// Offset from the descriptor base to the bare name slice.
pub const NAME_SLICE: usize = 0x40;

/// Longest name any slice in these tables carries.
pub const NAME_LIMIT: usize = 250;

/// Bytes a descriptor occupies, up to and including the enumerator array.
pub const DESCRIPTOR_SPAN: usize = 0xA8;

/// Bytes in one field record.
pub const FIELD_STRIDE: usize = 48;

/// Bytes in one enumerator record.
pub const ENUM_STRIDE: usize = 40;

/// Most fields or enumerators one descriptor is believed to carry.
pub const MAX_MEMBERS: u64 = 1024;

/// One decoded type descriptor.
#[derive(Debug, Clone)]
pub struct Descriptor {
    /// Virtual address of the descriptor base.
    pub base: u64,
    /// File offset of the descriptor base.
    pub offset: usize,
    /// The bare name, as in `PlayerSpawnPoint`.
    pub short: String,
    /// The dotted name, as in `ecs.PlayerSpawnPoint`, when the type has one.
    pub dotted: Option<String>,
    /// The qualified name, as in `keen::ecs::PlayerSpawnPoint`.
    pub full: String,
    /// The raw word holding size and alignment.
    pub size_word: u64,
    /// The raw word holding the field count and the flags.
    pub count_word: u64,
    /// Size of the type in bytes.
    pub size: u32,
    /// Alignment of the type in bytes.
    pub align: u16,
    /// Number of fields, or of enumerators when the type is an enumeration.
    pub members: u32,
    /// Reflection flags.
    pub flags: u32,
    /// The 64-bit hash.
    pub hash: u64,
    /// Virtual address of the field array.
    pub fields: u64,
    /// Virtual address of the enumerator array.
    pub enumerators: u64,
}

/// A descriptor as plain values.
pub struct DescriptorView {
    pub base: u64,
    pub offset: usize,
    pub short: Seq<char>,
    pub dotted: Option<Seq<char>>,
    pub full: Seq<char>,
    pub size_word: u64,
    pub count_word: u64,
    pub size: u32,
    pub align: u16,
    pub members: u32,
    pub flags: u32,
    pub hash: u64,
    pub fields: u64,
    pub enumerators: u64,
}

/// An optional string as plain values.
pub open spec fn opt_view(s: Option<String>) -> Option<Seq<char>> {
    match s {
        Some(s) => Some(s@),
        None => None,
    }
}

impl View for Descriptor {
    type V = DescriptorView;

    open spec fn view(&self) -> DescriptorView {
        DescriptorView {
            base: self.base,
            offset: self.offset,
            short: self.short@,
            dotted: opt_view(self.dotted),
            full: self.full@,
            size_word: self.size_word,
            count_word: self.count_word,
            size: self.size,
            align: self.align,
            members: self.members,
            flags: self.flags,
            hash: self.hash,
            fields: self.fields,
            enumerators: self.enumerators,
        }
    }
}

impl Descriptor {
    /// Whether this descriptor describes an enumeration.
    pub fn is_enum(&self) -> (r: bool)
        ensures
            r == (self.flags & FLAG_ENUM != 0),
    {
        self.flags & FLAG_ENUM != 0
    }
}

/// One field of a structure.
#[derive(Debug, Clone)]
pub struct Field {
    /// Byte offset of the field inside its type.
    pub offset: u64,
    /// The field name.
    pub name: String,
    /// The qualified name of the field's type, when its descriptor resolves.
    pub type_full: Option<String>,
    /// The bare name of the field's type, when its descriptor resolves.
    pub type_short: Option<String>,
    /// The size of the field's type, when its descriptor resolves.
    pub type_size: Option<u32>,
}

/// A field as plain values.
pub struct FieldView {
    pub offset: u64,
    pub name: Seq<char>,
    pub type_full: Option<Seq<char>>,
    pub type_short: Option<Seq<char>>,
    pub type_size: Option<u32>,
}

impl View for Field {
    type V = FieldView;

    open spec fn view(&self) -> FieldView {
        FieldView {
            offset: self.offset,
            name: self.name@,
            type_full: opt_view(self.type_full),
            type_short: opt_view(self.type_short),
            type_size: self.type_size,
        }
    }
}

/// One enumerator of an enumeration.
#[derive(Debug, Clone)]
pub struct Enumerator {
    /// The value the enumerator stands for.
    pub value: u64,
    /// The enumerator name.
    pub name: String,
}

/// An enumerator as plain values.
pub struct EnumeratorView {
    pub value: u64,
    pub name: Seq<char>,
}

impl View for Enumerator {
    type V = EnumeratorView;

    open spec fn view(&self) -> EnumeratorView {
        EnumeratorView { value: self.value, name: self.name@ }
    }
}

/// The 64-bit word at `offset + delta`, or `None` when that offset cannot be
/// represented.
pub open spec fn word_at(image: Image, offset: int, delta: int) -> Option<u64> {
    if offset + delta > usize::MAX {
        None
    } else {
        image.spec_qword_at(offset + delta)
    }
}

/// The `.rdata` section, when the image has one.
pub open spec fn rdata_of(image: Image) -> Option<crate::image::Section> {
    match image.first_named(".rdata"@) {
        Some(i) => Some(image.spec_sections()[i]),
        None => None,
    }
}

/// The string a `{pointer, length}` pair at `offset` names, as
/// [`name_slice`] reads it.
///
/// The pointer must land in the part of `.rdata` with bytes behind it, the
/// length must be below [`NAME_LIMIT`] and above zero, and the target must be
/// exactly that many non-NUL bytes followed by a NUL.
pub open spec fn spec_name_slice(image: Image, offset: int) -> Option<Seq<char>> {
    match rdata_of(image) {
        None => None,
        Some(rdata) => match (word_at(image, offset, 0), word_at(image, offset, 8)) {
            (Some(pointer), Some(length)) => {
                if !(rdata.start <= pointer < rdata.spec_raw_end()) || length == 0 || length
                    >= NAME_LIMIT {
                    None
                } else {
                    match image.spec_offset_of(pointer as int) {
                        None => None,
                        Some(start) => {
                            let b = image.spec_bytes();
                            if start + length + 1 > b.len() {
                                None
                            } else if b[start + length] != 0 || !(forall|j: int|
                                start <= j < start + length ==> #[trigger] b[j] != 0) {
                                None
                            } else {
                                Some(byte_chars(b.subrange(start, start + length)))
                            }
                        },
                    }
                }
            },
            _ => None,
        },
    }
}

/// The 64-bit word `delta` bytes past a file offset, or `None` when it lies
/// past the end of the file.
pub fn word_after(image: &Image, offset: usize, delta: usize) -> (r: Option<u64>)
    ensures
        r == word_at(*image, offset as int, delta as int),
{
    match offset.checked_add(delta) {
        Some(at) => image.qword_at(at),
        None => None,
    }
}

/// Whether a NUL byte lies in `lo..hi`.
pub fn has_nul(bytes: &[u8], lo: usize, hi: usize) -> (r: bool)
    requires
        lo <= hi <= bytes@.len(),
    ensures
        r == !(forall|j: int| lo <= j < hi ==> #[trigger] bytes@[j] != 0),
{
    let mut j: usize = lo;
    while j < hi
        invariant
            lo <= j <= hi <= bytes@.len(),
            forall|k: int| lo <= k < j ==> #[trigger] bytes@[k] != 0,
        decreases hi - j,
    {
        if bytes[j] == 0 {
            return true;
        }
        j = j + 1;
    }
    false
}

/// Read a `{pointer, length}` name slice at a file offset.
///
/// The length has to match the string exactly. That is what separates a real
/// name slice from a pointer that happens to sit next to a small integer.
pub fn name_slice(image: &Image, offset: usize) -> (r: Option<String>)
    ensures
        r matches Some(s) ==> spec_name_slice(*image, offset as int) == Some(s@),
        r is None ==> spec_name_slice(*image, offset as int) is None,
{
    let rdata = match image.section(".rdata") {
        Some(s) => s,
        None => return None,
    };
    let pointer = match word_after(image, offset, 0) {
        Some(p) => p,
        None => return None,
    };
    let length = match word_after(image, offset, 8) {
        Some(l) => l,
        None => return None,
    };
    if !(rdata.start <= pointer && pointer < rdata.raw_end()) {
        return None;
    }
    if length == 0 || length >= NAME_LIMIT as u64 {
        return None;
    }
    let length = length as usize;
    let start = match image.offset_of(pointer) {
        Some(s) => s,
        None => return None,
    };
    let bytes = image.bytes();
    if length >= bytes.len() || start > bytes.len() - length - 1 {
        return None;
    }
    if bytes[start + length] != 0 {
        return None;
    }
    if has_nul(bytes, start, start + length) {
        return None;
    }
    Some(string_of_bytes(bytes, start, start + length))
}

/// The dotted name a descriptor at `offset` points to, as [`read`] reads it.
pub open spec fn spec_dotted(image: Image, offset: int) -> Option<Seq<char>> {
    match word_at(image, offset, 0x50) {
        Some(va) => image.spec_cstr(va as int, NAME_LIMIT as int),
        None => None,
    }
}

/// The descriptor based at a virtual address, as [`read`] decodes it.
pub open spec fn spec_read(image: Image, base: u64) -> Option<DescriptorView> {
    if base % 8 != 0 {
        None
    } else {
        match image.spec_offset_of(base as int) {
            None => None,
            Some(offset) => if offset + DESCRIPTOR_SPAN > image.spec_bytes().len() {
                None
            } else {
                match (
                    spec_name_slice(image, offset + NAME_SLICE),
                    spec_name_slice(image, offset + 0x60),
                ) {
                    (Some(short), Some(full)) => {
                        // The span check puts every word below inside the file.
                        let size_word = word_at(image, offset, 0x80)->0;
                        let count_word = word_at(image, offset, 0x88)->0;
                        Some(
                            DescriptorView {
                                base,
                                offset: offset as usize,
                                short,
                                dotted: spec_dotted(image, offset),
                                full,
                                size_word,
                                count_word,
                                size: size_word as u32,
                                align: (size_word >> 32u64) as u16,
                                members: count_word as u32,
                                flags: (count_word >> 32u64) as u32,
                                hash: word_at(image, offset, 0x90)->0,
                                fields: word_at(image, offset, 0x98)->0,
                                enumerators: word_at(image, offset, 0xA0)->0,
                            },
                        )
                    },
                    _ => None,
                }
            },
        }
    }
}

/// An optional descriptor as plain values.
pub open spec fn opt_descriptor_view(d: Option<Descriptor>) -> Option<DescriptorView> {
    match d {
        Some(d) => Some(d@),
        None => None,
    }
}

/// Decode the descriptor based at a virtual address.
pub fn read(image: &Image, base: u64) -> (r: Option<Descriptor>)
    ensures
        opt_descriptor_view(r) == spec_read(*image, base),
{
    if base % 8 != 0 {
        return None;
    }
    let offset = match image.offset_of(base) {
        Some(o) => o,
        None => return None,
    };
    if offset > image.bytes().len() || image.bytes().len() - offset < DESCRIPTOR_SPAN {
        return None;
    }
    let short = match name_slice(image, offset + NAME_SLICE) {
        Some(s) => s,
        None => return None,
    };
    let full = match name_slice(image, offset + 0x60) {
        Some(s) => s,
        None => return None,
    };
    let size_word = match word_after(image, offset, 0x80) {
        Some(w) => w,
        None => return None,
    };
    let count_word = match word_after(image, offset, 0x88) {
        Some(w) => w,
        None => return None,
    };
    let dotted = match word_after(image, offset, 0x50) {
        Some(va) => image.cstr(va, NAME_LIMIT),
        None => None,
    };
    let hash = match word_after(image, offset, 0x90) {
        Some(w) => w,
        None => return None,
    };
    let fields = match word_after(image, offset, 0x98) {
        Some(w) => w,
        None => return None,
    };
    let enumerators = match word_after(image, offset, 0xA0) {
        Some(w) => w,
        None => return None,
    };
    Some(
        Descriptor {
            base,
            offset,
            short,
            dotted,
            full,
            size_word,
            count_word,
            size: size_word as u32,
            align: (size_word >> 32u64) as u16,
            members: count_word as u32,
            flags: (count_word >> 32u64) as u32,
            hash,
            fields,
            enumerators,
        },
    )
}

/// The field record at `index` of the array at file offset `array`, or `None`
/// when it does not decode.
pub open spec fn spec_field_at(image: Image, array: int, index: int) -> Option<FieldView> {
    let record = array + index * FIELD_STRIDE;
    if record + FIELD_STRIDE > image.spec_bytes().len() {
        None
    } else {
        match (spec_name_slice(image, record), word_at(image, record, 24)) {
            (Some(name), Some(offset)) => {
                let type_pointer = match word_at(image, record, 16) {
                    Some(p) => p,
                    None => 0,
                };
                let described = if type_pointer >= NAME_SLICE {
                    spec_read(image, (type_pointer - NAME_SLICE) as u64)
                } else {
                    None
                };
                Some(
                    FieldView {
                        offset,
                        name,
                        type_full: match described {
                            Some(t) => Some(t.full),
                            None => None,
                        },
                        type_short: match described {
                            Some(t) => Some(t.short),
                            None => None,
                        },
                        type_size: match described {
                            Some(t) => Some(t.size),
                            None => None,
                        },
                    },
                )
            },
            _ => None,
        }
    }
}

/// The enumerator record at `index` of the array at file offset `array`, or
/// `None` when it does not decode.
pub open spec fn spec_enumerator_at(image: Image, array: int, index: int) -> Option<EnumeratorView> {
    let record = array + index * ENUM_STRIDE;
    if record + ENUM_STRIDE > image.spec_bytes().len() {
        None
    } else {
        match (spec_name_slice(image, record), word_at(image, record, 16)) {
            (Some(name), Some(value)) => Some(EnumeratorView { value, name }),
            _ => None,
        }
    }
}

/// Whether a descriptor's member count is one a real descriptor carries.
pub open spec fn plausible_members(members: u32) -> bool {
    members != 0 && members <= MAX_MEMBERS
}

/// Whether `out` holds the records `at(0)`, `at(1)`, ... up to the first that
/// does not decode, and no more than `count` of them.
pub open spec fn decoded_prefix<V>(out: Seq<V>, count: int, at: spec_fn(int) -> Option<V>) -> bool {
    &&& out.len() <= count
    &&& forall|k: int| 0 <= k < out.len() ==> #[trigger] at(k) == Some(out[k])
    &&& out.len() < count ==> at(out.len() as int) is None
}

/// The fields as plain values.
pub open spec fn fields_view(out: Seq<Field>) -> Seq<FieldView> {
    Seq::new(out.len(), |k: int| out[k]@)
}

/// The enumerators as plain values.
pub open spec fn enumerators_view(out: Seq<Enumerator>) -> Seq<EnumeratorView> {
    Seq::new(out.len(), |k: int| out[k]@)
}

/// Read a descriptor's fields.
///
/// The walk stops at the first record that does not decode. A field array is
/// reached from a heuristic scan, so a descriptor whose count is wrong yields
/// the fields it really has rather than nothing.
pub fn fields(image: &Image, descriptor: &Descriptor) -> (out: Vec<Field>)
    ensures
        !plausible_members(descriptor.members) ==> out@.len() == 0,
        plausible_members(descriptor.members) ==> match image.spec_offset_of(descriptor.fields as int) {
            None => out@.len() == 0,
            Some(array) => decoded_prefix(
                fields_view(out@),
                descriptor.members as int,
                |k: int| spec_field_at(*image, array, k),
            ),
        },
{
    let mut out: Vec<Field> = Vec::new();
    if descriptor.members == 0 || descriptor.members as u64 > MAX_MEMBERS {
        return out;
    }
    let array = match image.offset_of(descriptor.fields) {
        Some(a) => a,
        None => return out,
    };
    let count = descriptor.members as usize;
    let len = image.bytes().len();
    let mut index: usize = 0;
    while index < count
        invariant
            count == descriptor.members,
            count <= MAX_MEMBERS,
            len == image.spec_bytes().len(),
            index <= count,
            out@.len() == index,
            forall|k: int| 0 <= k < index ==> #[trigger] spec_field_at(*image, array as int, k) == Some(
                fields_view(out@)[k],
            ),
        ensures
            index == count || spec_field_at(*image, array as int, index as int) is None,
            out@.len() == index,
            forall|k: int| 0 <= k < index ==> #[trigger] spec_field_at(*image, array as int, k) == Some(
                fields_view(out@)[k],
            ),
        decreases count - index,
    {
        let record = match array.checked_add(index * FIELD_STRIDE) {
            Some(r) => r,
            None => break,
        };
        if record > len || len - record < FIELD_STRIDE {
            break;
        }
        let name = match name_slice(image, record) {
            Some(n) => n,
            None => break,
        };
        let type_pointer = match word_after(image, record, 16) {
            Some(p) => p,
            None => 0,
        };
        let offset = match word_after(image, record, 24) {
            Some(o) => o,
            None => break,
        };
        let described = if type_pointer >= NAME_SLICE as u64 {
            read(image, type_pointer - NAME_SLICE as u64)
        } else {
            None
        };
        let (type_full, type_short, type_size) = match &described {
            Some(t) => (Some(t.full.clone()), Some(t.short.clone()), Some(t.size)),
            None => (None, None, None),
        };
        let ghost before = fields_view(out@);
        out.push(Field { offset, name, type_full, type_short, type_size });
        proof {
            assert(fields_view(out@) =~= before.push(out@[index as int]@));
        }
        index = index + 1;
    }
    out
}

/// Read an enumeration's enumerators, stopping at the first bad record.
pub fn enumerators(image: &Image, descriptor: &Descriptor) -> (out: Vec<Enumerator>)
    ensures
        !plausible_members(descriptor.members) ==> out@.len() == 0,
        plausible_members(descriptor.members) ==> match image.spec_offset_of(descriptor.enumerators as int) {
            None => out@.len() == 0,
            Some(array) => decoded_prefix(
                enumerators_view(out@),
                descriptor.members as int,
                |k: int| spec_enumerator_at(*image, array, k),
            ),
        },
{
    let mut out: Vec<Enumerator> = Vec::new();
    if descriptor.members == 0 || descriptor.members as u64 > MAX_MEMBERS {
        return out;
    }
    let array = match image.offset_of(descriptor.enumerators) {
        Some(a) => a,
        None => return out,
    };
    let count = descriptor.members as usize;
    let len = image.bytes().len();
    let mut index: usize = 0;
    while index < count
        invariant
            count == descriptor.members,
            count <= MAX_MEMBERS,
            len == image.spec_bytes().len(),
            index <= count,
            out@.len() == index,
            forall|k: int| 0 <= k < index ==> #[trigger] spec_enumerator_at(*image, array as int, k) == Some(
                enumerators_view(out@)[k],
            ),
        ensures
            index == count || spec_enumerator_at(*image, array as int, index as int) is None,
            out@.len() == index,
            forall|k: int| 0 <= k < index ==> #[trigger] spec_enumerator_at(*image, array as int, k) == Some(
                enumerators_view(out@)[k],
            ),
        decreases count - index,
    {
        let record = match array.checked_add(index * ENUM_STRIDE) {
            Some(r) => r,
            None => break,
        };
        if record > len || len - record < ENUM_STRIDE {
            break;
        }
        let name = match name_slice(image, record) {
            Some(n) => n,
            None => break,
        };
        let value = match word_after(image, record, 16) {
            Some(v) => v,
            None => break,
        };
        let ghost before = enumerators_view(out@);
        out.push(Enumerator { value, name });
        proof {
            assert(enumerators_view(out@) =~= before.push(out@[index as int]@));
        }
        index = index + 1;
    }
    out
}

/// The descriptor whose bare name slice sits at a file offset, when there is one.
pub open spec fn descriptor_hit(image: Image, offset: int) -> Option<DescriptorView> {
    if spec_name_slice(image, offset) is Some {
        match image.spec_va_of(offset) {
            Some(va) => if va >= NAME_SLICE {
                spec_read(image, (va - NAME_SLICE) as u64)
            } else {
                None
            },
            None => None,
        }
    } else {
        None
    }
}

/// The descriptors found stepping eight bytes at a time from `offset` while a
/// name slice still fits before `last`.
pub open spec fn walk_from(image: Image, offset: int, last: int) -> Seq<DescriptorView>
    decreases last - offset,
{
    if offset + 16 > last {
        Seq::empty()
    } else {
        let here = match descriptor_hit(image, offset) {
            Some(d) => seq![d],
            None => Seq::empty(),
        };
        here + walk_from(image, offset + 8, last)
    }
}

/// The descriptors as plain values.
pub open spec fn descriptors_view(out: Seq<Descriptor>) -> Seq<DescriptorView> {
    Seq::new(out.len(), |k: int| out[k]@)
}

/// Every descriptor the image carries, in ascending file order.
///
/// The scan steps through `.rdata` eight bytes at a time looking for a name
/// slice, then treats the address `0x40` below it as a descriptor base.
pub fn walk(image: &Image) -> (out: Vec<Descriptor>)
    ensures
        match rdata_of(*image) {
            None => out@.len() == 0,
            Some(rdata) => descriptors_view(out@) == walk_from(
                *image,
                rdata.raw_offset as int,
                rdata.raw_offset + rdata.raw_size,
            ),
        },
{
    let rdata = match image.section(".rdata") {
        Some(s) => s,
        None => return Vec::new(),
    };
    let mut out: Vec<Descriptor> = Vec::new();
    let first = rdata.raw_offset;
    let last = rdata.raw_offset + rdata.raw_size;
    let mut offset = first;
    while offset <= last && last - offset >= 16
        invariant
            first <= offset,
            descriptors_view(out@) + walk_from(*image, offset as int, last as int) == walk_from(
                *image,
                first as int,
                last as int,
            ),
        decreases last - offset,
    {
        let ghost before = descriptors_view(out@);
        let mut found: Option<Descriptor> = None;
        if name_slice(image, offset).is_some() {
            if let Some(va) = image.va_of(offset) {
                if va >= NAME_SLICE as u64 {
                    found = read(image, va - NAME_SLICE as u64);
                }
            }
        }
        proof {
            assert(opt_descriptor_view(found) == descriptor_hit(*image, offset as int));
        }
        if let Some(descriptor) = found {
            out.push(descriptor);
            proof {
                assert(descriptors_view(out@) =~= before + seq![descriptor@]);
            }
        } else {
            proof {
                assert(descriptors_view(out@) =~= before + Seq::<DescriptorView>::empty());
            }
        }
        proof {
            assert(walk_from(*image, offset as int, last as int) == (match descriptor_hit(*image, offset as int) {
                Some(d) => seq![d],
                None => Seq::<DescriptorView>::empty(),
            }) + walk_from(*image, offset + 8, last as int));
            assert(descriptors_view(out@) + walk_from(*image, offset + 8, last as int) =~= before + walk_from(*image, offset as int, last as int));
        }
        offset = offset + 8;
    }
    out
}

/// A name slice is a non-empty name below [`NAME_LIMIT`] characters, none of
/// them NUL, each the byte it was read from.
pub proof fn lemma_name_slice_shape(image: Image, offset: int)
    requires
        spec_name_slice(image, offset) is Some,
    ensures
        0 < spec_name_slice(image, offset)->0.len() < NAME_LIMIT,
        forall|i: int| 0 <= i < spec_name_slice(image, offset)->0.len()
            ==> #[trigger] spec_name_slice(image, offset)->0[i] != '\0' && (spec_name_slice(image, offset)->0[i] as u32) < 256,
{
    let s = spec_name_slice(image, offset)->0;
    match rdata_of(image) {
        None => {},
        Some(rdata) => match (word_at(image, offset, 0), word_at(image, offset, 8)) {
            (Some(pointer), Some(length)) => match image.spec_offset_of(pointer as int) {
                None => {},
                Some(start) => {
                    let b = image.spec_bytes();
                    crate::text::lemma_first_from(
                        image.spec_sections(),
                        |x: crate::image::Section| x.covers(pointer as int),
                        0,
                    );
                    assert(0 <= start);
                    assert(s == byte_chars(b.subrange(start, start + length)));
                    assert(forall|j: int| start <= j < start + length ==> #[trigger] b[j] != 0);
                    assert(s.len() == length);
                    assert forall|i: int| 0 <= i < s.len() implies #[trigger] s[i] != '\0' && (s[i] as u32) < 256 by {
                        assert(b[start + i] != 0);
                        assert(s[i] == b[start + i] as char);
                    }
                },
            },
            _ => {},
        },
    }
}

/// The full type name a field's type pointer names: that of the descriptor
/// whose full-name slice the pointer addresses, when one is there.
pub open spec fn field_type_full(image: Image, pointer: int) -> Option<Seq<char>> {
    if pointer >= NAME_SLICE {
        match spec_read(image, (pointer - NAME_SLICE) as u64) {
            Some(t) => Some(t.full),
            None => None,
        }
    } else {
        None
    }
}

/// Each field a descriptor's field array yields is read from its own 48-byte
/// record: the `k`-th field's name is the name slice at the start of the
/// `k`-th record, its offset is the little-endian word 24 bytes into that
/// record, whatever the type pointer 16 bytes in says, and its type is the
/// descriptor that pointer names.
pub proof fn lemma_field_reads_its_record(image: Image, array: int, count: int, out: Seq<FieldView>)
    requires
        decoded_prefix(out, count, |k: int| spec_field_at(image, array, k)),
    ensures
        forall|k: int| 0 <= k < out.len() ==> {
            let record = array + FIELD_STRIDE * k;
            &&& 0 <= record
            &&& record + FIELD_STRIDE <= image.spec_bytes().len()
            &&& (#[trigger] out[k]).offset as int == crate::image::le_u64(image.spec_bytes(), record + 24)
            &&& spec_name_slice(image, record) == Some(out[k].name)
            &&& out[k].type_full == field_type_full(image, crate::image::le_u64(image.spec_bytes(), record + 16))
        },
{
    assert forall|k: int| 0 <= k < out.len() implies {
        let record = array + FIELD_STRIDE * k;
        &&& 0 <= record
        &&& record + FIELD_STRIDE <= image.spec_bytes().len()
        &&& (#[trigger] out[k]).offset as int == crate::image::le_u64(image.spec_bytes(), record + 24)
        &&& spec_name_slice(image, record) == Some(out[k].name)
        &&& out[k].type_full == field_type_full(image, crate::image::le_u64(image.spec_bytes(), record + 16))
    } by {
        let at = |k: int| spec_field_at(image, array, k);
        assert(at(k) == Some(out[k]));
        let record = array + k * FIELD_STRIDE;
        assert(FIELD_STRIDE * k == k * FIELD_STRIDE) by (nonlinear_arith);
        assert(word_at(image, record, 24) == Some(out[k].offset));
    }
}

} // verus!
