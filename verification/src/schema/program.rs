//! The program records Keen's engine keeps in `.rdata`.
//!
//! A program is a unit of engine work with an entry function and the component
//! sets it touches. Each record holds its name at `+0x00` as a
//! `{pointer, length}` pair, its entry function at `+0x10`, and seven
//! `{pointer, count}` slices of name slices at the offsets [`SLOTS`] lists.
//!
//! The entry pointer is what separates a server program from a client one. A
//! record whose entry is NULL in this image belongs to the other build.
//!
//! **The record set is heuristic and carries false positives.** Nothing in the
//! image marks where the program table starts or ends, so the walk recognizes
//! records by shape, and a string that happens to sit beside a readable slice
//! is kept. `else`, `material`, `loop`, `enable` and `hierarchy` are in the
//! output and are not programs. Read the dump as candidates to check rather
//! than as an authoritative list, and confirm any single record against the
//! bytes before building on it.

use vstd::prelude::*;

use crate::image::Image;
use crate::schema::descriptor::{name_slice, rdata_of, spec_name_slice, word_after, word_at};
use crate::text::chars_of;

verus! {

/// Offsets of the seven component slices, in the order the dump prints them.
pub const SLOTS: [usize; 7] = [0x18, 0x38, 0x58, 0x98, 0xB0, 0xE0, 0xF0];

/// Column names for the seven slices, carrying their offsets so a reader of the
/// dump can go back to the bytes.
pub const SLOT_COLUMNS: [&'static str; 7] = [
    "trigger(+18)",
    "iter_read(+38)",
    "iter_write(+58)",
    "globals_ro(+98)",
    "globals_rw(+b0)",
    "rand_read(+e0)",
    "rand_write(+f0)",
];

/// Bytes one record occupies.
pub const RECORD_SPAN: usize = 0x100;

/// Bytes in one element of a component slice.
pub const ELEMENT_STRIDE: usize = 16;

/// Most components one slice is believed to name.
///
/// The bound is what separates a real slice from a pointer that happens to sit
/// beside a large integer, and it is load bearing: raising it admits records
/// that are not programs.
pub const MAX_ELEMENTS: u64 = 64;

/// Shortest program name.
pub const MIN_NAME: usize = 4;

/// One decoded program record.
#[derive(Debug, Clone)]
pub struct Program {
    /// File offset of the record.
    pub offset: usize,
    /// The program name.
    pub name: String,
    /// The entry function, or zero when this build does not carry it.
    pub entry: u64,
    /// The seven component slices, in [`SLOTS`] order.
    pub slots: [Vec<String>; 7],
}

/// A character every program name is spelled with: a lowercase ASCII letter,
/// a digit or an underscore.
pub open spec fn is_name_char(c: char) -> bool {
    ('a' <= c <= 'z') || ('0' <= c <= '9') || c == '_'
}

/// Whether a name is spelled the way every program name is.
pub open spec fn spec_is_program_name(name: Seq<char>) -> bool {
    name.len() >= MIN_NAME && forall|k: int| 0 <= k < name.len() ==> is_name_char(#[trigger] name[k])
}

/// Whether a name is spelled the way every program name is: at least four
/// characters, each a lowercase letter, a digit or an underscore.
pub fn is_program_name(name: &str) -> (r: bool)
    ensures
        r == spec_is_program_name(name@),
{
    let cs = chars_of(name);
    if cs.len() < MIN_NAME {
        return false;
    }
    let mut k: usize = 0;
    while k < cs.len()
        invariant
            cs@ == name@,
            k <= cs@.len(),
            forall|j: int| 0 <= j < k ==> is_name_char(#[trigger] cs@[j]),
        decreases cs@.len() - k,
    {
        let c = cs[k];
        if !(('a' <= c && c <= 'z') || ('0' <= c && c <= '9') || c == '_') {
            assert(!is_name_char(cs@[k as int]));
            return false;
        }
        k = k + 1;
    }
    true
}

/// The array a component slice at `offset` points into, as a file offset, and
/// the number of elements it states; `None` when the slice is not plausible.
pub open spec fn slice_array(image: Image, offset: int) -> Option<(int, int)> {
    match rdata_of(image) {
        None => None,
        Some(rdata) => match (word_at(image, offset, 0), word_at(image, offset, 8)) {
            (Some(pointer), Some(count)) => if pointer == 0 || count == 0 || count > MAX_ELEMENTS || !(
            rdata.start <= pointer < rdata.spec_raw_end()) {
                None
            } else {
                match image.spec_offset_of(pointer as int) {
                    Some(array) => Some((array, count as int)),
                    None => None,
                }
            },
            _ => None,
        },
    }
}

/// The names of a component slice's elements from `index` on, up to the
/// first that does not read and no further than `count`.
pub open spec fn names_from(image: Image, array: int, index: int, count: int) -> Seq<Seq<char>>
    decreases count - index,
{
    if index >= count {
        Seq::empty()
    } else {
        match spec_name_slice(image, array + index * ELEMENT_STRIDE) {
            None => Seq::empty(),
            Some(name) => seq![name] + names_from(image, array, index + 1, count),
        }
    }
}

/// Strings as plain values.
pub open spec fn strings_view(out: Seq<String>) -> Seq<Seq<char>> {
    Seq::new(out.len(), |k: int| out[k]@)
}

/// The names one component slice at `offset` holds, as [`slice`] reads them.
pub open spec fn spec_slice(image: Image, offset: int) -> Seq<Seq<char>> {
    match slice_array(image, offset) {
        None => Seq::empty(),
        Some((array, count)) => names_from(image, array, 0, count),
    }
}

/// Read one component slice, stopping at the first element that fails.
pub fn slice(image: &Image, offset: usize) -> (out: Vec<String>)
    ensures
        strings_view(out@) == spec_slice(*image, offset as int),
{
    let mut out: Vec<String> = Vec::new();
    let rdata = match image.section(".rdata") {
        Some(s) => s,
        None => return out,
    };
    let (pointer, count) = match (word_after(image, offset, 0), word_after(image, offset, 8)) {
        (Some(p), Some(c)) => (p, c),
        _ => return out,
    };
    if pointer == 0 || count == 0 || count > MAX_ELEMENTS {
        return out;
    }
    if !(rdata.start <= pointer && pointer < rdata.raw_end()) {
        return out;
    }
    let array = match image.offset_of(pointer) {
        Some(a) => a,
        None => return out,
    };
    let count = count as usize;
    let mut index: usize = 0;
    while index < count
        invariant
            count <= MAX_ELEMENTS,
            index <= count,
            out@.len() == index,
            strings_view(out@) + names_from(*image, array as int, index as int, count as int) == names_from(
                *image,
                array as int,
                0,
                count as int,
            ),
        ensures
            strings_view(out@) == names_from(*image, array as int, 0, count as int),
        decreases count - index,
    {
        let ghost before = strings_view(out@);
        let at = match array.checked_add(index * ELEMENT_STRIDE) {
            Some(at) => at,
            None => {
                proof {
                    assert(before + Seq::<Seq<char>>::empty() =~= before);
                }
                break;
            },
        };
        let name = match name_slice(image, at) {
            Some(n) => n,
            None => {
                proof {
                    assert(before + Seq::<Seq<char>>::empty() =~= before);
                }
                break;
            },
        };
        out.push(name);
        proof {
            assert(strings_view(out@) =~= before.push(out@[index as int]@));
            assert(strings_view(out@) + names_from(*image, array as int, index + 1, count as int) =~= before
                + names_from(*image, array as int, index as int, count as int));
        }
        index = index + 1;
    }
    out
}

/// A program record as plain values.
pub struct ProgramView {
    pub offset: usize,
    pub name: Seq<char>,
    pub entry: u64,
    pub slots: Seq<Seq<Seq<char>>>,
}

impl View for Program {
    type V = ProgramView;

    open spec fn view(&self) -> ProgramView {
        ProgramView {
            offset: self.offset,
            name: self.name@,
            entry: self.entry,
            slots: Seq::new(7, |i: int| strings_view(self.slots@[i]@)),
        }
    }
}

/// The offset of the component slice in slot `i`.
pub open spec fn slot_offset(i: int) -> int {
    SLOTS@[i] as int
}

/// The program record at a file offset, when one is there. `text` bounds
/// where an entry function may point.
pub open spec fn program_at(image: Image, offset: int, text: crate::image::Section) -> Option<ProgramView> {
    match spec_name_slice(image, offset) {
        None => None,
        Some(name) => {
            let entry: u64 = match word_at(image, offset, 0x10) {
                Some(e) => e,
                None => 0,
            };
            let slots = Seq::new(7, |i: int| spec_slice(image, offset + slot_offset(i)));
            if !spec_is_program_name(name) {
                None
            } else if entry != 0 && !(text.start <= entry < text.spec_raw_end()) {
                None
            } else if forall|i: int| 0 <= i < 7 ==> #[trigger] slots[i].len() == 0 {
                None
            } else {
                Some(ProgramView { offset: offset as usize, name, entry, slots })
            }
        },
    }
}

/// The program records found stepping eight bytes at a time from `offset`
/// while a whole record fits before `last`.
pub open spec fn programs_from(image: Image, offset: int, last: int, text: crate::image::Section) -> Seq<
    ProgramView,
>
    decreases last - offset,
{
    if offset + RECORD_SPAN >= last {
        Seq::empty()
    } else {
        let here = match program_at(image, offset, text) {
            Some(p) => seq![p],
            None => Seq::empty(),
        };
        here + programs_from(image, offset + 8, last, text)
    }
}

/// Programs as plain values.
pub open spec fn programs_view(out: Seq<Program>) -> Seq<ProgramView> {
    Seq::new(out.len(), |k: int| out[k]@)
}

/// The `.text` section, when the image has one.
pub open spec fn text_of(image: Image) -> Option<crate::image::Section> {
    match image.first_named(".text"@) {
        Some(i) => Some(image.spec_sections()[i]),
        None => None,
    }
}

/// The program record at a file offset, when one is there.
#[verifier::rlimit(30)]
fn read_program(image: &Image, offset: usize, text: &crate::image::Section) -> (r: Option<Program>)
    requires
        offset + RECORD_SPAN <= usize::MAX,
    ensures
        match r {
            Some(p) => program_at(*image, offset as int, *text) == Some(p@),
            None => program_at(*image, offset as int, *text) is None,
        },
{
    let name = match name_slice(image, offset) {
        Some(n) => n,
        None => return None,
    };
    if !is_program_name(name.as_str()) {
        return None;
    }
    let entry = match word_after(image, offset, 0x10) {
        Some(e) => e,
        None => 0,
    };
    if entry != 0 && !(text.start <= entry && entry < text.raw_end()) {
        return None;
    }
    let slots: [Vec<String>; 7] = [
        slice(image, offset + SLOTS[0]),
        slice(image, offset + SLOTS[1]),
        slice(image, offset + SLOTS[2]),
        slice(image, offset + SLOTS[3]),
        slice(image, offset + SLOTS[4]),
        slice(image, offset + SLOTS[5]),
        slice(image, offset + SLOTS[6]),
    ];
    let ghost want = Seq::new(7, |i: int| spec_slice(*image, offset + slot_offset(i)));
    proof {
        assert(Seq::new(7, |i: int| strings_view(slots@[i]@)) =~= want);
    }
    if slots[0].len() == 0 && slots[1].len() == 0 && slots[2].len() == 0 && slots[3].len() == 0
        && slots[4].len() == 0 && slots[5].len() == 0 && slots[6].len() == 0 {
        proof {
            assert forall|i: int| 0 <= i < 7 implies #[trigger] want[i].len() == 0 by {
                assert(want[i] == strings_view(slots@[i]@));
            }
        }
        return None;
    }
    proof {
        if forall|i: int| 0 <= i < 7 ==> #[trigger] want[i].len() == 0 {
            assert(want[0].len() == 0 && want[1].len() == 0 && want[2].len() == 0 && want[3].len() == 0);
            assert(want[4].len() == 0 && want[5].len() == 0 && want[6].len() == 0);
        }
    }
    Some(Program { offset, name, entry, slots })
}

/// The program records [`walk`] finds in an image.
pub open spec fn spec_walk(image: Image) -> Seq<ProgramView> {
    match (rdata_of(image), text_of(image)) {
        (Some(rdata), Some(text)) => programs_from(
            image,
            rdata.raw_offset as int,
            rdata.raw_offset + rdata.raw_size,
            text,
        ),
        _ => Seq::empty(),
    }
}

/// Every program record the image carries, in ascending file order.
pub fn walk(image: &Image) -> (out: Vec<Program>)
    ensures
        programs_view(out@) == spec_walk(*image),
{
    let rdata = match image.section(".rdata") {
        Some(s) => s,
        None => {
            let out: Vec<Program> = Vec::new();
            assert(programs_view(out@) =~= Seq::<ProgramView>::empty());
            return out;
        },
    };
    let text = match image.section(".text") {
        Some(s) => s,
        None => {
            let out: Vec<Program> = Vec::new();
            assert(programs_view(out@) =~= Seq::<ProgramView>::empty());
            return out;
        },
    };
    let mut out: Vec<Program> = Vec::new();
    let first = rdata.raw_offset;
    let last = rdata.raw_offset + rdata.raw_size;
    let mut offset = first;
    while offset < last && last - offset > RECORD_SPAN
        invariant
            first <= offset,
            last <= usize::MAX,
            programs_view(out@) + programs_from(*image, offset as int, last as int, *text) == programs_from(
                *image,
                first as int,
                last as int,
                *text,
            ),
        decreases last - offset,
    {
        let ghost before = programs_view(out@);
        let found = read_program(image, offset, text);
        if let Some(program) = found {
            out.push(program);
            proof {
                assert(programs_view(out@) =~= before + seq![program@]);
            }
        } else {
            proof {
                assert(programs_view(out@) =~= before + Seq::<ProgramView>::empty());
            }
        }
        proof {
            assert(programs_view(out@) + programs_from(*image, offset + 8, last as int, *text) =~= before
                + programs_from(*image, offset as int, last as int, *text));
        }
        offset = offset + 8;
    }
    out
}

/// The program records come out in ascending file order, each starting at or
/// after `offset` with a whole record before `last`, each named by a program
/// name, and each with an entry that is zero or inside `.text`.
pub proof fn lemma_programs_in_file_order(image: Image, offset: int, last: int, text: crate::image::Section)
    ensures
        forall|i: int, j: int| 0 <= i < j < programs_from(image, offset, last, text).len()
            ==> #[trigger] programs_from(image, offset, last, text)[i].offset < #[trigger] programs_from(image, offset, last, text)[j].offset,
        forall|i: int| 0 <= i < programs_from(image, offset, last, text).len() ==> {
            let p = #[trigger] programs_from(image, offset, last, text)[i];
            &&& offset <= p.offset
            &&& p.offset + RECORD_SPAN < last
            &&& spec_is_program_name(p.name)
            &&& (p.entry == 0 || (text.start <= p.entry < text.spec_raw_end()))
        },
    decreases last - offset,
{
    if offset + RECORD_SPAN >= last {
    } else {
        lemma_programs_in_file_order(image, offset + 8, last, text);
        let rest = programs_from(image, offset + 8, last, text);
        let all = programs_from(image, offset, last, text);
        match program_at(image, offset, text) {
            Some(p) => {
                assert(all == seq![p] + rest);
                assert(p.offset == offset);
                assert forall|i: int, j: int| 0 <= i < j < all.len() implies #[trigger] all[i].offset < #[trigger] all[j].offset by {
                    if i > 0 {
                        assert(all[i] == rest[i - 1] && all[j] == rest[j - 1]);
                    } else {
                        assert(all[j] == rest[j - 1]);
                    }
                }
                assert forall|i: int| 0 <= i < all.len() implies {
                    let q = #[trigger] all[i];
                    &&& offset <= q.offset
                    &&& q.offset + RECORD_SPAN < last
                    &&& spec_is_program_name(q.name)
                    &&& (q.entry == 0 || (text.start <= q.entry < text.spec_raw_end()))
                } by {
                    if i > 0 {
                        assert(all[i] == rest[i - 1]);
                    }
                }
            },
            None => {
                assert(all =~= rest);
            },
        }
    }
}

/// A program of the other build is kept: a record named like a program whose
/// entry word is zero and which has a component in some slot is a program
/// record with entry zero, whatever `.text` covers. Only a nonzero entry
/// outside `.text` rejects a record.
pub proof fn lemma_null_entry_program_is_kept(image: Image, offset: int, text: crate::image::Section, slot: int)
    requires
        spec_name_slice(image, offset) matches Some(name) && spec_is_program_name(name),
        word_at(image, offset, 0x10) == Some(0u64),
        0 <= slot < 7,
        spec_slice(image, offset + slot_offset(slot)).len() > 0,
    ensures
        program_at(image, offset, text) matches Some(p) && p.entry == 0 && Some(p.name) == spec_name_slice(image, offset),
{
    lemma_program_record_is_kept(image, offset, text, slot);
}

/// A record named like a program, whose entry word is zero or inside `.text`,
/// and which has a component in some slot, is a program record carrying that
/// name, that entry and the slices of its seven slots.
pub proof fn lemma_program_record_is_kept(image: Image, offset: int, text: crate::image::Section, slot: int)
    requires
        spec_name_slice(image, offset) matches Some(name) && spec_is_program_name(name),
        word_at(image, offset, 0x10) matches Some(e) && (e == 0 || (text.start <= e < text.spec_raw_end())),
        0 <= slot < 7,
        spec_slice(image, offset + slot_offset(slot)).len() > 0,
    ensures
        program_at(image, offset, text) matches Some(p) && Some(p.entry) == word_at(image, offset, 0x10) && Some(p.name)
            == spec_name_slice(image, offset) && p.slots.len() == 7 && forall|i: int|
            0 <= i < 7 ==> #[trigger] p.slots[i] == spec_slice(image, offset + slot_offset(i)),
{
    let slots = Seq::new(7, |i: int| spec_slice(image, offset + slot_offset(i)));
    assert(slots[slot].len() > 0);
}

/// A program record is named like a program, its entry is the entry word
/// (zero when there is none) and is zero or inside `.text`, and some slot
/// names a component.
pub proof fn lemma_program_record_shape(image: Image, offset: int, text: crate::image::Section)
    requires
        program_at(image, offset, text) is Some,
    ensures
        ({
            let p = program_at(image, offset, text)->0;
            &&& Some(p.name) == spec_name_slice(image, offset)
            &&& spec_is_program_name(p.name)
            &&& p.entry == (match word_at(image, offset, 0x10) {
                Some(e) => e,
                None => 0u64,
            })
            &&& (p.entry == 0 || (text.start <= p.entry < text.spec_raw_end()))
            &&& exists|i: int| 0 <= i < 7 && (#[trigger] p.slots[i]).len() > 0
        }),
{
    let p = program_at(image, offset, text)->0;
    let slots = Seq::new(7, |i: int| spec_slice(image, offset + slot_offset(i)));
    assert(p.slots == slots);
    assert(!(forall|i: int| 0 <= i < 7 ==> #[trigger] slots[i].len() == 0));
    let i = choose|i: int| 0 <= i < 7 && !(#[trigger] slots[i].len() == 0);
    assert(p.slots[i].len() > 0);
}

/// A program record at an eight-byte step of a scanned window, with a whole
/// record before its end, is in what the scan returns.
pub proof fn lemma_scan_finds_each_record(image: Image, offset: int, last: int, text: crate::image::Section, at: int)
    requires
        offset <= at,
        (at - offset) % 8 == 0,
        at + RECORD_SPAN < last,
        program_at(image, at, text) is Some,
    ensures
        programs_from(image, offset, last, text).contains(program_at(image, at, text)->0),
    decreases at - offset,
{
    let all = programs_from(image, offset, last, text);
    if at == offset {
        let p = program_at(image, at, text)->0;
        assert(all[0] == p);
    } else {
        lemma_scan_finds_each_record(image, offset + 8, last, text, at);
        let rest = programs_from(image, offset + 8, last, text);
        let p = program_at(image, at, text)->0;
        let i = choose|i: int| 0 <= i < rest.len() && rest[i] == p;
        match program_at(image, offset, text) {
            Some(q) => {
                assert(all == seq![q] + rest);
                assert(all[i + 1] == p);
            },
            None => {
                assert(all =~= rest);
                assert(all[i] == p);
            },
        }
    }
}

} // verus!
