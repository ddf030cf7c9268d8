//! The network message registry the server keeps in `.data`.
//!
//! This table is separate from the reflection schema. It is a hand-written
//! serialization registry for the messages a client and a server exchange, so
//! its records are 40 bytes and its field records are 64, and none of it
//! carries a `keen::` name.
//!
//! A record holds a name pointer, the wire size of the message, a pointer to
//! the field array, and the field count. A field record holds a name pointer, a
//! type code, a byte offset and a capacity.
//!
//! Several registries sit in `.data`: one for login and authentication, one for
//! base sharing, and the game session registry. [`ANCHOR`] names the game one,
//! because that is the layer a mod intercepts.

use vstd::prelude::*;

use crate::image::Image;
use crate::schema::descriptor::{word_after, word_at};
use crate::text::{chars_of, str_eq};

verus! {

/// The message whose registry block is the game session protocol.
pub const ANCHOR: &'static str = "ServerInfoMessage";

/// Bytes in one registry record.
pub const RECORD_STRIDE: usize = 0x28;

/// Bytes in one field record.
pub const FIELD_STRIDE: usize = 0x40;

/// Longest name a registry record carries.
pub const NAME_LIMIT: usize = 64;

/// Shortest name a registry record carries.
pub const MIN_NAME: usize = 3;

/// Most fields one message is believed to carry.
pub const MAX_FIELDS: u64 = 64;

/// The wire type a field record's code selects.
///
/// A code of `9` and a code of `0xa` are both eight bytes wide and only `0xa`
/// is confirmed unsigned, so `9` reads with a question mark rather than
/// claiming a signedness nothing established.
pub open spec fn spec_wire_type(code: u32) -> Option<Seq<char>> {
    if code == 0x0 {
        Some("bool"@)
    } else if code == 0x4 {
        Some("string/bytes"@)
    } else if code == 0x8 {
        Some("uint32"@)
    } else if code == 0x9 {
        Some("uint64?"@)
    } else if code == 0xA {
        Some("uint64"@)
    } else if code == 0xC {
        Some("message"@)
    } else {
        None
    }
}

/// The wire type a field record's code selects, when the code is known.
pub fn wire_type(code: u32) -> (r: Option<&'static str>)
    ensures
        match r {
            Some(t) => spec_wire_type(code) == Some(t@),
            None => spec_wire_type(code) is None,
        },
{
    if code == 0x0 {
        Some("bool")
    } else if code == 0x4 {
        Some("string/bytes")
    } else if code == 0x8 {
        Some("uint32")
    } else if code == 0x9 {
        Some("uint64?")
    } else if code == 0xA {
        Some("uint64")
    } else if code == 0xC {
        Some("message")
    } else {
        None
    }
}

/// One field of a message.
#[derive(Debug, Clone)]
pub struct Field {
    /// The field name.
    pub name: String,
    /// The wire type, as [`wire_type`] names it.
    pub wire_type: &'static str,
    /// Byte offset of the field inside the message.
    pub offset: u64,
    /// Elements the field holds, which is one for a scalar.
    pub capacity: u64,
}

/// A field as plain values.
pub struct FieldView {
    pub name: Seq<char>,
    pub wire_type: Seq<char>,
    pub offset: u64,
    pub capacity: u64,
}

impl View for Field {
    type V = FieldView;

    open spec fn view(&self) -> FieldView {
        FieldView {
            name: self.name@,
            wire_type: self.wire_type@,
            offset: self.offset,
            capacity: self.capacity,
        }
    }
}

/// One message in the registry.
#[derive(Debug, Clone)]
pub struct Message {
    /// The message name.
    pub name: String,
    /// The wire size of the message in bytes.
    pub size: u64,
    /// The field count the record states, whether or not the fields decode.
    pub declared_fields: u64,
    /// The fields that decoded.
    pub fields: Vec<Field>,
}

/// A message as plain values.
pub struct MessageView {
    pub name: Seq<char>,
    pub size: u64,
    pub declared_fields: u64,
    pub fields: Seq<FieldView>,
}

/// Fields as plain values.
pub open spec fn fields_view(out: Seq<Field>) -> Seq<FieldView> {
    Seq::new(out.len(), |k: int| out[k]@)
}

impl View for Message {
    type V = MessageView;

    open spec fn view(&self) -> MessageView {
        MessageView {
            name: self.name@,
            size: self.size,
            declared_fields: self.declared_fields,
            fields: fields_view(self.fields@),
        }
    }
}

/// An ASCII letter.
pub open spec fn is_alpha(c: char) -> bool {
    ('a' <= c <= 'z') || ('A' <= c <= 'Z')
}

/// Whether text is spelled like a registry name: at least [`MIN_NAME`]
/// characters, a letter or underscore first, letters, digits and underscores
/// after.
pub open spec fn is_identifier(text: Seq<char>) -> bool {
    &&& text.len() >= MIN_NAME
    &&& (is_alpha(text[0]) || text[0] == '_')
    &&& forall|k: int| 1 <= k < text.len() ==> (is_alpha(#[trigger] text[k]) || ('0' <= text[k] <= '9') || text[k] == '_')
}

/// The registry name at a virtual address, as [`identifier`] reads it.
pub open spec fn spec_identifier(image: Image, va: u64) -> Option<Seq<char>> {
    match image.spec_cstr(va as int, NAME_LIMIT as int) {
        Some(text) => if is_identifier(text) {
            Some(text)
        } else {
            None
        },
        None => None,
    }
}

/// Read a registry name at a virtual address.
pub fn identifier(image: &Image, va: u64) -> (r: Option<String>)
    ensures
        match r {
            Some(s) => spec_identifier(*image, va) == Some(s@),
            None => spec_identifier(*image, va) is None,
        },
{
    let text = match image.cstr(va, NAME_LIMIT) {
        Some(t) => t,
        None => return None,
    };
    let cs = chars_of(text.as_str());
    if cs.len() < MIN_NAME {
        return None;
    }
    let first = cs[0];
    if !(('a' <= first && first <= 'z') || ('A' <= first && first <= 'Z') || first == '_') {
        return None;
    }
    let mut k: usize = 1;
    while k < cs.len()
        invariant
            cs@ == text@,
            image.spec_cstr(va as int, NAME_LIMIT as int) == Some(text@),
            1 <= k <= cs@.len(),
            forall|j: int| 1 <= j < k ==> (is_alpha(#[trigger] cs@[j]) || ('0' <= cs@[j] <= '9') || cs@[j] == '_'),
        decreases cs@.len() - k,
    {
        let c = cs[k];
        if !(('a' <= c && c <= 'z') || ('A' <= c && c <= 'Z') || ('0' <= c && c <= '9') || c == '_') {
            assert(!(is_alpha(cs@[k as int]) || ('0' <= cs@[k as int] <= '9') || cs@[k as int] == '_'));
            return None;
        }
        k = k + 1;
    }
    Some(text)
}

/// The name a registry record at a file offset carries, as [`record_name`]
/// reads it.
pub open spec fn spec_record_name(image: Image, offset: int) -> Option<Seq<char>> {
    match word_at(image, offset, 0) {
        Some(va) => spec_identifier(image, va),
        None => None,
    }
}

/// The name a registry record at this file offset carries.
pub fn record_name(image: &Image, offset: usize) -> (r: Option<String>)
    ensures
        match r {
            Some(s) => spec_record_name(*image, offset as int) == Some(s@),
            None => spec_record_name(*image, offset as int) is None,
        },
{
    match word_after(image, offset, 0) {
        Some(va) => identifier(image, va),
        None => None,
    }
}

/// A word of a record, or zero when it lies past the end of the file.
pub open spec fn word_or_zero(image: Image, offset: int, delta: int) -> u64 {
    match word_at(image, offset, delta) {
        Some(w) => w,
        None => 0,
    }
}

/// The field records of a message from `index` on, up to the first that does
/// not decode and no further than `count`.
pub open spec fn fields_from(image: Image, base: int, index: int, count: int) -> Seq<FieldView>
    decreases count - index,
{
    if index >= count {
        Seq::empty()
    } else {
        let entry = base + index * FIELD_STRIDE;
        if entry + FIELD_STRIDE > image.spec_bytes().len() {
            Seq::empty()
        } else {
            match (word_at(image, entry, 0), word_at(image, entry, 0x08)) {
                (Some(name_va), Some(code_word)) => match (
                    spec_identifier(image, name_va),
                    spec_wire_type(code_word as u32),
                ) {
                    (Some(name), Some(wire_type)) => seq![
                        FieldView {
                            name,
                            wire_type,
                            offset: word_or_zero(image, entry, 0x18),
                            capacity: word_or_zero(image, entry, 0x28),
                        },
                    ] + fields_from(image, base, index + 1, count),
                    _ => Seq::empty(),
                },
                _ => Seq::empty(),
            }
        }
    }
}

/// The message whose record is at a file offset, when the record has a name.
pub open spec fn message_at(image: Image, record: int) -> Option<MessageView> {
    match spec_record_name(image, record) {
        None => None,
        Some(name) => {
            let array = word_or_zero(image, record, 0x10);
            let declared_fields = word_or_zero(image, record, 0x18);
            Some(
                MessageView {
                    name,
                    size: word_or_zero(image, record, 0x08),
                    declared_fields,
                    fields: if declared_fields <= MAX_FIELDS {
                        match image.spec_offset_of(array as int) {
                            Some(base) => fields_from(image, base, 0, declared_fields as int),
                            None => Seq::empty(),
                        }
                    } else {
                        Seq::empty()
                    },
                },
            )
        },
    }
}

/// The first record from `offset` on, stepping eight bytes while a record
/// fits before `last`, whose name is [`ANCHOR`].
pub open spec fn anchor_from(image: Image, offset: int, last: int) -> Option<int>
    decreases last - offset,
{
    if offset + RECORD_STRIDE > last {
        None
    } else if spec_record_name(image, offset) == Some(ANCHOR@) {
        Some(offset)
    } else {
        anchor_from(image, offset + 8, last)
    }
}

/// An anchor found from `offset` on lies at or after it, with its record
/// before `last`.
pub proof fn lemma_anchor_bounds(image: Image, offset: int, last: int)
    ensures
        anchor_from(image, offset, last) matches Some(a) ==> offset <= a && a + RECORD_STRIDE <= last,
    decreases last - offset,
{
    if offset + RECORD_STRIDE <= last && spec_record_name(image, offset) != Some(ANCHOR@) {
        lemma_anchor_bounds(image, offset + 8, last);
    }
}

/// The first record of the block that holds `start`: step back one record at
/// a time while the record before has a name and lies at or after `first`.
pub open spec fn block_start(image: Image, start: int, first: int) -> int
    decreases start - first,
{
    if start >= first + RECORD_STRIDE && spec_record_name(image, start - RECORD_STRIDE) is Some {
        block_start(image, start - RECORD_STRIDE, first)
    } else {
        start
    }
}

/// The last record of the block that holds `end`: step on one record at a
/// time while the record after has a name and two records fit before `last`.
pub open spec fn block_end(image: Image, end: int, last: int) -> int
    decreases last - end,
{
    if end + 2 * RECORD_STRIDE <= last && spec_record_name(image, end + RECORD_STRIDE) is Some {
        block_end(image, end + RECORD_STRIDE, last)
    } else {
        end
    }
}

/// The messages of the records from `record` to `end`, one record apart.
pub open spec fn messages_from(image: Image, record: int, end: int) -> Seq<MessageView>
    decreases end - record + RECORD_STRIDE,
{
    if record > end {
        Seq::empty()
    } else {
        let here = match message_at(image, record) {
            Some(m) => seq![m],
            None => Seq::empty(),
        };
        here + messages_from(image, record + RECORD_STRIDE, end)
    }
}

/// The `.data` section, when the image has one.
pub open spec fn data_of(image: Image) -> Option<crate::image::Section> {
    match image.first_named(".data"@) {
        Some(i) => Some(image.spec_sections()[i]),
        None => None,
    }
}

/// Messages as plain values.
pub open spec fn messages_view(out: Seq<Message>) -> Seq<MessageView> {
    Seq::new(out.len(), |k: int| out[k]@)
}

/// What [`walk`] reads from an image.
pub open spec fn spec_walk(image: Image) -> Seq<MessageView> {
    match data_of(image) {
        None => Seq::empty(),
        Some(data) => {
            let first = data.raw_offset as int;
            let last = data.raw_offset + data.raw_size;
            match anchor_from(image, first, last) {
                None => Seq::empty(),
                Some(anchor) => messages_from(
                    image,
                    block_start(image, anchor, first),
                    block_end(image, anchor, last),
                ),
            }
        },
    }
}

/// The fields of the message whose field array starts at file offset `base`.
fn read_fields(image: &Image, base: usize, count: u64) -> (out: Vec<Field>)
    requires
        count <= MAX_FIELDS,
    ensures
        fields_view(out@) == fields_from(*image, base as int, 0, count as int),
{
    let mut out: Vec<Field> = Vec::new();
    let count = count as usize;
    let len = image.bytes().len();
    let mut index: usize = 0;
    while index < count
        invariant
            count <= MAX_FIELDS,
            index <= count,
            out@.len() == index,
            len == image.spec_bytes().len(),
            fields_view(out@) + fields_from(*image, base as int, index as int, count as int) == fields_from(
                *image,
                base as int,
                0,
                count as int,
            ),
        ensures
            fields_view(out@) == fields_from(*image, base as int, 0, count as int),
        decreases count - index,
    {
        let ghost before = fields_view(out@);
        proof {
            assert(before + Seq::<FieldView>::empty() =~= before);
        }
        let entry = match base.checked_add(index * FIELD_STRIDE) {
            Some(e) => e,
            None => break,
        };
        if entry > len || len - entry < FIELD_STRIDE {
            break;
        }
        let (name_va, code_word) = match (word_after(image, entry, 0), word_after(image, entry, 0x08)) {
            (Some(a), Some(b)) => (a, b),
            _ => break,
        };
        let (name, wire) = match (identifier(image, name_va), wire_type(code_word as u32)) {
            (Some(a), Some(b)) => (a, b),
            _ => break,
        };
        let offset = match word_after(image, entry, 0x18) {
            Some(w) => w,
            None => 0,
        };
        let capacity = match word_after(image, entry, 0x28) {
            Some(w) => w,
            None => 0,
        };
        out.push(Field { name, wire_type: wire, offset, capacity });
        proof {
            assert(fields_view(out@) =~= before.push(out@[index as int]@));
            assert(fields_view(out@) + fields_from(*image, base as int, index + 1, count as int) =~= before
                + fields_from(*image, base as int, index as int, count as int));
        }
        index = index + 1;
    }
    out
}

/// The message whose record is at a file offset, when the record has a name.
fn read_message(image: &Image, record: usize) -> (r: Option<Message>)
    ensures
        match r {
            Some(m) => message_at(*image, record as int) == Some(m@),
            None => message_at(*image, record as int) is None,
        },
{
    let name = match record_name(image, record) {
        Some(n) => n,
        None => return None,
    };
    let size = match word_after(image, record, 0x08) {
        Some(w) => w,
        None => 0,
    };
    let array = match word_after(image, record, 0x10) {
        Some(w) => w,
        None => 0,
    };
    let declared_fields = match word_after(image, record, 0x18) {
        Some(w) => w,
        None => 0,
    };
    let mut fields: Vec<Field> = Vec::new();
    proof {
        assert(fields_view(fields@) =~= Seq::<FieldView>::empty());
    }
    if declared_fields <= MAX_FIELDS {
        if let Some(base) = image.offset_of(array) {
            fields = read_fields(image, base, declared_fields);
        }
    }
    Some(Message { name, size, declared_fields, fields })
}

/// Read the game session registry block.
///
/// Returns an empty list when the anchor message is absent, which is how a
/// build that moved the registry reports itself rather than guessing.
pub fn walk(image: &Image) -> (out: Vec<Message>)
    ensures
        messages_view(out@) == spec_walk(*image),
{
    let data = match image.section(".data") {
        Some(s) => s,
        None => return Vec::new(),
    };
    let first = data.raw_offset;
    let last = data.raw_offset + data.raw_size;
    let mut offset = first;
    let mut anchor: Option<usize> = None;
    while offset <= last && last - offset >= RECORD_STRIDE
        invariant_except_break
            anchor is None,
        invariant
            first <= offset,
            anchor_from(*image, offset as int, last as int) == anchor_from(*image, first as int, last as int),
        ensures
            anchor_from(*image, first as int, last as int) == match anchor {
                Some(a) => Some(a as int),
                None => None,
            },
        decreases last - offset,
    {
        let name = record_name(image, offset);
        let hit = match &name {
            Some(n) => str_eq(n.as_str(), ANCHOR),
            None => false,
        };
        if hit {
            anchor = Some(offset);
            break;
        }
        offset = offset + 8;
    }
    let anchor = match anchor {
        Some(a) => a,
        None => return Vec::new(),
    };
    proof {
        lemma_anchor_bounds(*image, first as int, last as int);
    }
    let mut start = anchor;
    while start >= RECORD_STRIDE && start - RECORD_STRIDE >= first && record_name(image, start - RECORD_STRIDE).is_some()
        invariant
            first <= start,
            block_start(*image, start as int, first as int) == block_start(*image, anchor as int, first as int),
        decreases start,
    {
        start = start - RECORD_STRIDE;
    }
    let mut end = anchor;
    while end <= last && last - end >= 2 * RECORD_STRIDE && record_name(image, end + RECORD_STRIDE).is_some()
        invariant
            anchor <= end,
            last <= usize::MAX,
            block_end(*image, end as int, last as int) == block_end(*image, anchor as int, last as int),
        decreases last - end,
    {
        end = end + RECORD_STRIDE;
    }
    let mut out: Vec<Message> = Vec::new();
    let mut record = start;
    while record <= end
        invariant_except_break
            messages_view(out@) + messages_from(*image, record as int, end as int) == messages_from(
                *image,
                start as int,
                end as int,
            ),
        invariant
            end <= usize::MAX,
        ensures
            messages_view(out@) == messages_from(*image, start as int, end as int),
        decreases end - record + RECORD_STRIDE,
    {
        let ghost before = messages_view(out@);
        let found = read_message(image, record);
        if let Some(message) = found {
            out.push(message);
            proof {
                assert(messages_view(out@) =~= before + seq![message@]);
            }
        } else {
            proof {
                assert(messages_view(out@) =~= before + Seq::<MessageView>::empty());
            }
        }
        proof {
            assert(messages_view(out@) + messages_from(*image, record + RECORD_STRIDE, end as int) =~= before
                + messages_from(*image, record as int, end as int));
        }
        if end - record < RECORD_STRIDE {
            proof {
                assert(messages_from(*image, record + RECORD_STRIDE, end as int) =~= Seq::<MessageView>::empty());
                assert(messages_view(out@) =~= messages_view(out@) + Seq::<MessageView>::empty());
            }
            break;
        }
        record = record + RECORD_STRIDE;
    }
    out
}

/// The fields read from `index` on are no more than the records left before
/// `count`, and each is named by an identifier.
pub proof fn lemma_fields_shape(image: Image, base: int, index: int, count: int)
    ensures
        fields_from(image, base, index, count).len() <= if count > index { count - index } else { 0 },
        forall|k: int| 0 <= k < fields_from(image, base, index, count).len()
            ==> is_identifier(#[trigger] fields_from(image, base, index, count)[k].name),
    decreases count - index,
{
    if index < count {
        lemma_fields_shape(image, base, index + 1, count);
        let all = fields_from(image, base, index, count);
        let rest = fields_from(image, base, index + 1, count);
        if all.len() > 0 {
            assert(all =~= seq![all[0]] + rest);
            assert forall|k: int| 0 <= k < all.len() implies is_identifier(#[trigger] all[k].name) by {
                if k > 0 {
                    assert(all[k] == rest[k - 1]);
                }
            }
        }
    }
}

/// Every message the records from `record` to `end` give is named by an
/// identifier and carries no more fields than its record declares.
pub proof fn lemma_messages_shape(image: Image, record: int, end: int)
    ensures
        forall|k: int| 0 <= k < messages_from(image, record, end).len() ==> {
            let m = #[trigger] messages_from(image, record, end)[k];
            &&& is_identifier(m.name)
            &&& m.fields.len() <= m.declared_fields
            &&& forall|f: int| 0 <= f < m.fields.len() ==> is_identifier(#[trigger] m.fields[f].name)
        },
    decreases end - record + RECORD_STRIDE,
{
    if record <= end {
        lemma_messages_shape(image, record + RECORD_STRIDE, end);
        let all = messages_from(image, record, end);
        let rest = messages_from(image, record + RECORD_STRIDE, end);
        match message_at(image, record) {
            Some(m) => {
                let name = spec_record_name(image, record)->0;
                assert(is_identifier(name));
                let array = word_or_zero(image, record, 0x10);
                match image.spec_offset_of(array as int) {
                    Some(base) => lemma_fields_shape(image, base, 0, m.declared_fields as int),
                    None => {},
                }
                assert(all == seq![m] + rest);
                assert forall|k: int| 0 <= k < all.len() implies {
                    let q = #[trigger] all[k];
                    &&& is_identifier(q.name)
                    &&& q.fields.len() <= q.declared_fields
                    &&& forall|f: int| 0 <= f < q.fields.len() ==> is_identifier(#[trigger] q.fields[f].name)
                } by {
                    if k > 0 {
                        assert(all[k] == rest[k - 1]);
                    }
                }
            },
            None => {
                assert(all =~= rest);
            },
        }
    }
}

/// The wire-type table, fixed by value: each type name is read from exactly
/// one code, and only the six codes of the table read at all.
pub proof fn lemma_wire_type_table(code: u32)
    ensures
        spec_wire_type(code) == Some("bool"@) <==> code == 0x0,
        spec_wire_type(code) == Some("string/bytes"@) <==> code == 0x4,
        spec_wire_type(code) == Some("uint32"@) <==> code == 0x8,
        spec_wire_type(code) == Some("uint64?"@) <==> code == 0x9,
        spec_wire_type(code) == Some("uint64"@) <==> code == 0xA,
        spec_wire_type(code) == Some("message"@) <==> code == 0xC,
        spec_wire_type(code) is Some <==> (code == 0x0 || code == 0x4 || code == 0x8 || code == 0x9 || code == 0xA
            || code == 0xC),
{
    reveal_strlit("bool");
    reveal_strlit("string/bytes");
    reveal_strlit("uint32");
    reveal_strlit("uint64?");
    reveal_strlit("uint64");
    reveal_strlit("message");
    assert("bool"@.len() == 4 && "string/bytes"@.len() == 12 && "uint32"@.len() == 6);
    assert("uint64?"@.len() == 7 && "uint64"@.len() == 6 && "message"@.len() == 7);
    assert("uint32"@[4] != "uint64"@[4]);
    assert("uint64?"@[0] != "message"@[0]);
}

} // verus!
