//! The delta between two extractions.
//!
//! The point of this command is one hour, not one afternoon. Enshrouded 1.0
//! ships on 2026-10-15, and a native container permission feature in that build
//! changes what this project should build. Every name carrying one of the
//! [`WATCHLIST`] words is reported before anything else, so the answer is the
//! first thing on the screen.
//!
//! Addresses are deliberately not compared. A descriptor's base moves with
//! every relink, so a diff on addresses is all noise. What is compared is
//! shape: sizes, alignments, flags, hashes, field offsets and field types.
//!
//! Reading the four dump files of an extraction is the binary's part; parsing
//! them and comparing two extractions is this module's.

use vstd::prelude::*;

use crate::order::{SortedMap, keys_after, last_value};
use crate::text::{
    lines, spec_lines, ascii_lowercase, chars_of, find_chars, find_from, occurs_at, rfind, rfind_chars, split_whitespace,
    string_of, string_of_range, tokens, trim_start, trim_start_chars, to_ascii_lowercase,
};
use crate::ui::{Mark, Row, RowView, owned};

verus! {

/// Names worth seeing first, matched case insensitively as substrings.
pub const WATCHLIST: [&'static str; 11] = [
    "container",
    "inventory",
    "chest",
    "scope",
    "permission",
    "owner",
    "lock",
    "group",
    "team",
    "station",
    "base",
];

/// Whether a name carries a watchlist word, ignoring ASCII case.
pub open spec fn watched(name: Seq<char>) -> bool {
    exists|i: int| 0 <= i < 11 && find_from(ascii_lowercase(name), #[trigger] WATCHLIST@[i]@, 0) is Some
}

/// Whether a name carries a watchlist word.
pub fn is_watched(name: &str) -> (r: bool)
    ensures
        r == watched(name@),
{
    let cs = chars_of(name);
    let lowered = to_ascii_lowercase(cs.as_slice());
    let mut i: usize = 0;
    while i < 11
        invariant
            i <= 11,
            lowered@ == ascii_lowercase(name@),
            forall|j: int| 0 <= j < i ==> find_from(lowered@, #[trigger] WATCHLIST@[j]@, 0) is None,
        decreases 11 - i,
    {
        let word = chars_of(WATCHLIST[i]);
        if find_chars(lowered.as_slice(), word.as_slice(), 0).is_some() {
            return true;
        }
        i = i + 1;
    }
    false
}

/// Two names that differ only in ASCII case are watched alike.
pub proof fn lemma_watch_ignores_case(a: Seq<char>, b: Seq<char>)
    requires
        crate::text::eq_ignore_case(a, b),
    ensures
        watched(a) == watched(b),
{
    assert(ascii_lowercase(a) =~= ascii_lowercase(b));
}

/// One member of a type, which is a field or an enumerator.
#[derive(Debug, Clone, PartialEq, Eq)]
pub struct Member {
    /// The byte offset of a field, or the value of an enumerator.
    pub key: String,
    /// The member name.
    pub name: String,
    /// The member's type, which an enumerator has none of.
    pub member_type: String,
}

/// A member as plain values.
pub struct MemberView {
    pub key: Seq<char>,
    pub name: Seq<char>,
    pub member_type: Seq<char>,
}

impl View for Member {
    type V = MemberView;

    open spec fn view(&self) -> MemberView {
        MemberView { key: self.key@, name: self.name@, member_type: self.member_type@ }
    }
}

/// The shape of one type, with everything that moves between relinks removed.
#[derive(Debug, Clone)]
pub struct TypeShape {
    /// Size of the type as the descriptor states it.
    pub size: String,
    /// Alignment of the type.
    pub align: String,
    /// Reflection flags.
    pub flags: String,
    /// The 64-bit hash.
    pub hash: String,
    /// Fields, or enumerators for an enumeration.
    pub members: Vec<Member>,
}

/// A type shape as plain values.
pub struct ShapeView {
    pub size: Seq<char>,
    pub align: Seq<char>,
    pub flags: Seq<char>,
    pub hash: Seq<char>,
    pub members: Seq<MemberView>,
}

/// Members as plain values.
pub open spec fn members_view(m: Seq<Member>) -> Seq<MemberView> {
    Seq::new(m.len(), |i: int| m[i]@)
}

impl View for TypeShape {
    type V = ShapeView;

    open spec fn view(&self) -> ShapeView {
        ShapeView {
            size: self.size@,
            align: self.align@,
            flags: self.flags@,
            hash: self.hash@,
            members: members_view(self.members@),
        }
    }
}

/// A shape with nothing set.
pub open spec fn empty_shape() -> ShapeView {
    ShapeView {
        size: Seq::empty(),
        align: Seq::empty(),
        flags: Seq::empty(),
        hash: Seq::empty(),
        members: Seq::empty(),
    }
}

/// A shape after one `key=value` word of its header.
pub open spec fn apply_token(shape: ShapeView, token: Seq<char>) -> ShapeView {
    match find_from(token, "="@, 0) {
        None => shape,
        Some(e) => {
            let key = token.take(e);
            let value = token.subrange(e + 1, token.len() as int);
            if key == "size"@ {
                ShapeView { size: value, ..shape }
            } else if key == "align"@ {
                ShapeView { align: value, ..shape }
            } else if key == "flags"@ {
                ShapeView { flags: value, ..shape }
            } else if key == "hash"@ {
                ShapeView { hash: value, ..shape }
            } else {
                shape
            }
        },
    }
}

/// A shape after every word of its header, in order.
pub open spec fn shape_from_tokens(toks: Seq<Seq<char>>) -> ShapeView
    decreases toks.len(),
{
    if toks.len() == 0 {
        empty_shape()
    } else {
        apply_token(shape_from_tokens(toks.drop_last()), toks.last())
    }
}

/// The type a header line opens: its name, and the shape its `key=value`
/// words state.
pub open spec fn header_of(line: Seq<char>) -> Option<(Seq<char>, ShapeView)> {
    match find_from(line, "  @"@, 0) {
        None => None,
        Some(k) => Some((line.take(k), shape_from_tokens(tokens(line.subrange(k + 3, line.len() as int))))),
    }
}

/// Text after a prefix it is known to start with.
fn after(s: &[char], n: usize) -> (r: Vec<char>)
    requires
        n <= s@.len(),
    ensures
        r@ == s@.subrange(n as int, s@.len() as int),
{
    let mut r: Vec<char> = Vec::new();
    let mut i = n;
    while i < s.len()
        invariant
            n <= i <= s@.len(),
            r@ == s@.subrange(n as int, i as int),
        decreases s@.len() - i,
    {
        r.push(s[i]);
        i = i + 1;
        assert(r@ =~= s@.subrange(n as int, i as int));
    }
    r
}

/// Text before a position.
fn before(s: &[char], n: usize) -> (r: Vec<char>)
    requires
        n <= s@.len(),
    ensures
        r@ == s@.take(n as int),
{
    let mut r: Vec<char> = Vec::new();
    let mut i: usize = 0;
    while i < n
        invariant
            i <= n <= s@.len(),
            r@ == s@.take(i as int),
        decreases n - i,
    {
        r.push(s[i]);
        i = i + 1;
        assert(r@ =~= s@.take(i as int));
    }
    r
}

/// Where [`find_chars`] finds a pattern, it fits.
proof fn lemma_found_fits(s: Seq<char>, pat: Seq<char>, from: int)
    requires
        0 <= from,
    ensures
        forall|k: int| #[trigger] find_from(s, pat, from) == Some(k) ==> from <= k && k + pat.len() <= s.len(),
{
    crate::text::lemma_find_from(s, pat, from);
}

/// Set one field of a shape from a header word.
fn apply_token_exec(shape: &mut TypeShape, token: &[char])
    ensures
        final(shape)@ == apply_token(old(shape)@, token@),
{
    let eq = chars_of("=");
    let e = match find_chars(token, eq.as_slice(), 0) {
        None => return,
        Some(e) => e,
    };
    proof {
        reveal_strlit("=");
        assert(eq@.len() == 1);
        lemma_found_fits(token@, eq@, 0);
    }
    let key = before(token, e);
    let value = string_of_range(token, e + 1, token.len());
    if crate::text::chars_eq(key.as_slice(), chars_of("size").as_slice()) {
        shape.size = value;
    } else if crate::text::chars_eq(key.as_slice(), chars_of("align").as_slice()) {
        shape.align = value;
    } else if crate::text::chars_eq(key.as_slice(), chars_of("flags").as_slice()) {
        shape.flags = value;
    } else if crate::text::chars_eq(key.as_slice(), chars_of("hash").as_slice()) {
        shape.hash = value;
    }
}

/// Parse a type header line.
pub fn parse_header(line: &[char]) -> (r: Option<(String, TypeShape)>)
    ensures
        match r {
            Some((name, shape)) => header_of(line@) == Some((name@, shape@)),
            None => header_of(line@) is None,
        },
{
    let pat = chars_of("  @");
    let k = match find_chars(line, pat.as_slice(), 0) {
        None => return None,
        Some(k) => k,
    };
    proof {
        reveal_strlit("  @");
        assert(pat@.len() == 3);
        lemma_found_fits(line@, pat@, 0);
    }
    let rest = after(line, k + 3);
    let toks = split_whitespace(rest.as_slice());
    let mut shape = TypeShape {
        size: String::new(),
        align: String::new(),
        flags: String::new(),
        hash: String::new(),
        members: Vec::new(),
    };
    proof {
        assert(shape@.members =~= Seq::<MemberView>::empty());
    }
    let ghost all = tokens(rest@);
    let mut i: usize = 0;
    while i < toks.len()
        invariant
            i <= toks@.len(),
            toks@.len() == all.len(),
            forall|j: int| 0 <= j < toks@.len() ==> #[trigger] toks@[j]@ == all[j],
            shape@ == shape_from_tokens(all.take(i as int)),
        decreases toks@.len() - i,
    {
        apply_token_exec(&mut shape, toks[i].as_slice());
        proof {
            assert(all.take(i + 1).drop_last() =~= all.take(i as int));
        }
        i = i + 1;
    }
    proof {
        assert(all.take(all.len() as int) =~= all);
    }
    Some((string_of_range(line, 0, k), shape))
}

/// The member a field line lists.
pub open spec fn field_of(line: Seq<char>) -> Option<MemberView> {
    if !occurs_at(line, "    +"@, 0) {
        None
    } else {
        let rest = line.subrange(5, line.len() as int);
        match find_from(rest, "  "@, 0) {
            None => None,
            Some(a) => {
                let offset = rest.take(a);
                let r2 = trim_start(rest.subrange(a + 2, rest.len() as int));
                match find_from(r2, " "@, 0) {
                    None => None,
                    Some(b) => {
                        let name = r2.take(b);
                        let r3 = trim_start(r2.subrange(b + 1, r2.len() as int));
                        if !occurs_at(r3, ": "@, 0) {
                            None
                        } else {
                            let r4 = r3.subrange(2, r3.len() as int);
                            match rfind(r4, "  ["@) {
                                None => None,
                                Some(c) => Some(MemberView { key: offset, name, member_type: r4.take(c) }),
                            }
                        }
                    },
                }
            },
        }
    }
}

/// Parse a field line.
pub fn parse_field(line: &[char]) -> (r: Option<Member>)
    ensures
        match r {
            Some(m) => field_of(line@) == Some(m@),
            None => field_of(line@) is None,
        },
{
    proof {
        reveal_strlit("    +");
        reveal_strlit("  ");
        reveal_strlit(" ");
        reveal_strlit(": ");
        reveal_strlit("  [");
    }
    if !crate::text::starts_with_chars(line, "    +") {
        return None;
    }
    let rest = after(line, 5);
    let two = chars_of("  ");
    let a = match find_chars(rest.as_slice(), two.as_slice(), 0) {
        None => return None,
        Some(a) => a,
    };
    proof {
        lemma_found_fits(rest@, two@, 0);
    }
    let offset = string_of_range(rest.as_slice(), 0, a);
    let r2 = trim_start_chars(after(rest.as_slice(), a + 2).as_slice());
    let one = chars_of(" ");
    let b = match find_chars(r2.as_slice(), one.as_slice(), 0) {
        None => return None,
        Some(b) => b,
    };
    proof {
        lemma_found_fits(r2@, one@, 0);
    }
    let name = string_of_range(r2.as_slice(), 0, b);
    let r3 = trim_start_chars(after(r2.as_slice(), b + 1).as_slice());
    if !crate::text::starts_with_chars(r3.as_slice(), ": ") {
        return None;
    }
    let r4 = after(r3.as_slice(), 2);
    let bracket = chars_of("  [");
    let c = match rfind_chars(r4.as_slice(), bracket.as_slice()) {
        None => return None,
        Some(c) => c,
    };
    let member_type = string_of_range(r4.as_slice(), 0, c);
    Some(Member { key: offset, name, member_type })
}

/// The member an enumerator line lists.
pub open spec fn enumerator_of(line: Seq<char>) -> Option<MemberView> {
    if !occurs_at(line, "    ="@, 0) {
        None
    } else {
        let rest = line.subrange(5, line.len() as int);
        match find_from(rest, " "@, 0) {
            None => None,
            Some(b) => Some(
                MemberView {
                    key: rest.take(b),
                    name: trim_start(rest.subrange(b + 1, rest.len() as int)),
                    member_type: Seq::empty(),
                },
            ),
        }
    }
}

/// Parse an enumerator line.
pub fn parse_enumerator(line: &[char]) -> (r: Option<Member>)
    ensures
        match r {
            Some(m) => enumerator_of(line@) == Some(m@),
            None => enumerator_of(line@) is None,
        },
{
    proof {
        reveal_strlit("    =");
        reveal_strlit(" ");
    }
    if !crate::text::starts_with_chars(line, "    =") {
        return None;
    }
    let rest = after(line, 5);
    let one = chars_of(" ");
    let b = match find_chars(rest.as_slice(), one.as_slice(), 0) {
        None => return None,
        Some(b) => b,
    };
    proof {
        assert(one@.len() == 1);
        lemma_found_fits(rest@, one@, 0);
    }
    let key = string_of_range(rest.as_slice(), 0, b);
    let name_chars = trim_start_chars(after(rest.as_slice(), b + 1).as_slice());
    Some(Member { key, name: string_of(name_chars.as_slice()), member_type: String::new() })
}

/// The type a dump is in the middle of, with its name.
pub type Current = Option<(Seq<char>, ShapeView)>;

/// The finished types so far, with the type in progress added when there is
/// one.
pub open spec fn flush(pairs: Seq<(Seq<char>, ShapeView)>, cur: Current) -> Seq<(Seq<char>, ShapeView)> {
    match cur {
        Some(c) => pairs.push(c),
        None => pairs,
    }
}

/// The type in progress with one more member.
pub open spec fn with_member(cur: Current, m: MemberView) -> Current {
    match cur {
        Some((name, shape)) => Some((name, ShapeView { members: shape.members.push(m), ..shape })),
        None => None,
    }
}

/// What one line of a schema dump does: an empty line finishes the type in
/// progress, a field or enumerator line adds a member to it, and a header
/// line finishes it and opens the next. Anything else is passed over.
pub open spec fn schema_step(state: (Seq<(Seq<char>, ShapeView)>, Current), line: Seq<char>) -> (Seq<(Seq<char>, ShapeView)>, Current) {
    let (pairs, cur) = state;
    if line.len() == 0 {
        (flush(pairs, cur), None)
    } else {
        match field_of(line) {
            Some(m) => (pairs, with_member(cur, m)),
            None => match enumerator_of(line) {
                Some(m) => (pairs, with_member(cur, m)),
                None => match header_of(line) {
                    Some(h) => (flush(pairs, cur), Some(h)),
                    None => state,
                },
            },
        }
    }
}

/// The state after the given lines of a schema dump.
pub open spec fn schema_run(ls: Seq<Seq<char>>) -> (Seq<(Seq<char>, ShapeView)>, Current)
    decreases ls.len(),
{
    if ls.len() == 0 {
        (Seq::empty(), None)
    } else {
        schema_step(schema_run(ls.drop_last()), ls.last())
    }
}

/// Every type a schema dump finishes, in order, a later one of the same name
/// replacing an earlier.
pub open spec fn schema_pairs(text: Seq<char>) -> Seq<(Seq<char>, ShapeView)> {
    let (pairs, cur) = schema_run(spec_lines(text));
    flush(pairs, cur)
}

/// The type in progress as plain values.
pub open spec fn current_view(cur: Option<(Vec<char>, TypeShape)>) -> Current {
    match cur {
        Some((name, shape)) => Some((name@, shape@)),
        None => None,
    }
}

/// Add a member to the type in progress, if there is one.
fn push_member(cur: &mut Option<(Vec<char>, TypeShape)>, m: Member)
    ensures
        current_view(*final(cur)) == with_member(current_view(*old(cur)), m@),
{
    match cur {
        Some((_, shape)) => {
            let ghost before = shape.members@;
            shape.members.push(m);
            proof {
                assert(members_view(shape.members@) =~= members_view(before).push(m@));
            }
        },
        None => {},
    }
}

/// Finish the type in progress into the map.
fn flush_into(out: &mut SortedMap<TypeShape>, cur: Option<(Vec<char>, TypeShape)>)
    requires
        old(out).wf(),
    ensures
        final(out).wf(),
        forall|pairs: Seq<(Seq<char>, ShapeView)>| old(out).models(pairs) ==> #[trigger] final(out).models(flush(pairs, current_view(cur))),
{
    match cur {
        Some((name, shape)) => out.insert(name, shape),
        None => {},
    }
}

/// Parse a schema dump into type shapes, by qualified name.
pub fn parse_schema(text: &str) -> (out: SortedMap<TypeShape>)
    ensures
        out.models(schema_pairs(text@)),
{
    let ls = lines(text);
    let ghost all = spec_lines(text@);
    let mut out: SortedMap<TypeShape> = SortedMap::new();
    let mut cur: Option<(Vec<char>, TypeShape)> = None;
    let mut i: usize = 0;
    proof {
        assert(all.take(0) =~= Seq::<Seq<char>>::empty());
    }
    while i < ls.len()
        invariant
            i <= ls@.len(),
            ls@.len() == all.len(),
            forall|j: int| 0 <= j < ls@.len() ==> #[trigger] ls@[j]@ == all[j],
            out.models(schema_run(all.take(i as int)).0),
            current_view(cur) == schema_run(all.take(i as int)).1,
        decreases ls@.len() - i,
    {
        let line = ls[i].as_slice();
        let ghost state = schema_run(all.take(i as int));
        proof {
            assert(all.take(i + 1).drop_last() =~= all.take(i as int));
            assert(all.take(i + 1).last() == line@);
        }
        if line.len() == 0 {
            let done = cur;
            cur = None;
            flush_into(&mut out, done);
        } else if let Some(m) = parse_field(line) {
            push_member(&mut cur, m);
        } else if let Some(m) = parse_enumerator(line) {
            push_member(&mut cur, m);
        } else if let Some((name, shape)) = parse_header(line) {
            let done = cur;
            cur = Some((chars_of(name.as_str()), shape));
            flush_into(&mut out, done);
        }
        i = i + 1;
    }
    proof {
        assert(all.take(all.len() as int) =~= all);
    }
    flush_into(&mut out, cur);
    out
}

/// How many times a name occurs.
pub open spec fn occurrences(names: Seq<Seq<char>>, k: Seq<char>) -> nat
    decreases names.len(),
{
    if names.len() == 0 {
        0
    } else {
        occurrences(names.drop_last(), k) + if names.last() == k {
            1nat
        } else {
            0nat
        }
    }
}

/// Each name with how many times it has occurred up to and including it.
pub open spec fn count_pairs(names: Seq<Seq<char>>) -> Seq<(Seq<char>, usize)>
    decreases names.len(),
{
    if names.len() == 0 {
        Seq::empty()
    } else {
        count_pairs(names.drop_last()).push((names.last(), occurrences(names, names.last()) as usize))
    }
}

/// A name never occurs more often than there are names.
proof fn lemma_occurrences_bound(names: Seq<Seq<char>>, k: Seq<char>)
    ensures
        occurrences(names, k) <= names.len(),
    decreases names.len(),
{
    if names.len() > 0 {
        lemma_occurrences_bound(names.drop_last(), k);
    }
}

/// The running counts end at each name's total.
proof fn lemma_count_pairs(names: Seq<Seq<char>>, k: Seq<char>)
    requires
        names.len() <= usize::MAX,
    ensures
        last_value(count_pairs(names), k) == if occurrences(names, k) > 0 {
            Some(occurrences(names, k) as usize)
        } else {
            None
        },
    decreases names.len(),
{
    if names.len() > 0 {
        lemma_count_pairs(names.drop_last(), k);
        lemma_occurrences_bound(names, k);
        assert(count_pairs(names).drop_last() == count_pairs(names.drop_last()));
    }
}

/// The second tab-separated column of a line, when the line has one.
pub open spec fn second_column(line: Seq<char>) -> Option<Seq<char>> {
    match find_from(line, "\t"@, 0) {
        None => None,
        Some(t) => {
            let rest = line.subrange(t + 1, line.len() as int);
            match find_from(rest, "\t"@, 0) {
                Some(u) => Some(rest.take(u)),
                None => Some(rest),
            }
        },
    }
}

/// The program names a table's rows carry, past its header, in order.
pub open spec fn program_names(ls: Seq<Seq<char>>) -> Seq<Seq<char>>
    decreases ls.len(),
{
    if ls.len() <= 1 {
        Seq::empty()
    } else {
        let rest = program_names(ls.drop_last());
        match second_column(ls.last()) {
            Some(name) => if name.len() > 0 {
                rest.push(name)
            } else {
                rest
            },
            None => rest,
        }
    }
}

/// The second tab-separated column of a line.
fn second_column_exec(line: &[char]) -> (r: Option<Vec<char>>)
    ensures
        match r {
            Some(c) => second_column(line@) == Some(c@),
            None => second_column(line@) is None,
        },
{
    let tab = chars_of("\t");
    proof {
        reveal_strlit("\t");
        assert(tab@.len() == 1);
    }
    let t = match find_chars(line, tab.as_slice(), 0) {
        None => return None,
        Some(t) => t,
    };
    proof {
        lemma_found_fits(line@, tab@, 0);
    }
    let rest = after(line, t + 1);
    match find_chars(rest.as_slice(), tab.as_slice(), 0) {
        Some(u) => {
            proof {
                lemma_found_fits(rest@, tab@, 0);
            }
            Some(before(rest.as_slice(), u))
        },
        None => Some(rest),
    }
}

/// Parse a program table into name counts.
pub fn parse_programs(text: &str) -> (out: SortedMap<usize>)
    ensures
        out.models(count_pairs(program_names(spec_lines(text@)))),
{
    let ls = lines(text);
    let ghost all = spec_lines(text@);
    let mut out: SortedMap<usize> = SortedMap::new();
    let mut i: usize = 1;
    if ls.len() == 0 {
        proof {
            assert(program_names(all) =~= Seq::<Seq<char>>::empty());
        }
        return out;
    }
    proof {
        assert(all.take(1).len() == 1);
        assert(count_pairs(program_names(all.take(1))) =~= Seq::<(Seq<char>, usize)>::empty());
    }
    while i < ls.len()
        invariant
            1 <= i <= ls@.len(),
            ls@.len() == all.len(),
            forall|j: int| 0 <= j < ls@.len() ==> #[trigger] ls@[j]@ == all[j],
            out.models(count_pairs(program_names(all.take(i as int)))),
            program_names(all.take(i as int)).len() < i,
        decreases ls@.len() - i,
    {
        let ghost names = program_names(all.take(i as int));
        proof {
            assert(all.take(i + 1).drop_last() =~= all.take(i as int));
            assert(all.take(i + 1).last() == ls@[i as int]@);
        }
        if let Some(name) = second_column_exec(ls[i].as_slice()) {
            if name.len() > 0 {
                let was: usize = match out.get(name.as_slice()) {
                    Some(n) => *n,
                    None => 0,
                };
                proof {
                    out.lemma_models_get(count_pairs(names), name@);
                    lemma_count_pairs(names, name@);
                    lemma_occurrences_bound(names, name@);
                    assert(names.push(name@).drop_last() =~= names);
                }
                let ghost key = name@;
                out.insert(name, was + 1);
                proof {
                    assert(count_pairs(names.push(key)) == count_pairs(names).push((key, (was + 1) as usize)));
                }
            }
        }
        i = i + 1;
    }
    proof {
        assert(all.take(all.len() as int) =~= all);
    }
    out
}

/// Each name paired with nothing, for a set of names.
pub open spec fn set_pairs(names: Seq<Seq<char>>) -> Seq<(Seq<char>, ())> {
    Seq::new(names.len(), |i: int| (names[i], ()))
}

/// The message names a registry dump lists: the first word of every line
/// that is not empty, indented or a bracketed note.
pub open spec fn message_names(ls: Seq<Seq<char>>) -> Seq<Seq<char>>
    decreases ls.len(),
{
    if ls.len() == 0 {
        Seq::empty()
    } else {
        let rest = message_names(ls.drop_last());
        let line = ls.last();
        if line.len() == 0 || line[0] == ' ' || line[0] == '[' || tokens(line).len() == 0 {
            rest
        } else {
            rest.push(tokens(line)[0])
        }
    }
}

/// The surface names a UI dump lists: every line that is not empty or
/// indented.
pub open spec fn ui_event_names(ls: Seq<Seq<char>>) -> Seq<Seq<char>>
    decreases ls.len(),
{
    if ls.len() == 0 {
        Seq::empty()
    } else {
        let rest = ui_event_names(ls.drop_last());
        let line = ls.last();
        if line.len() == 0 || line[0] == ' ' {
            rest
        } else {
            rest.push(line)
        }
    }
}

/// Insert a name into a set.
fn insert_name(out: &mut SortedMap<()>, name: Vec<char>)
    requires
        old(out).wf(),
    ensures
        final(out).wf(),
        forall|names: Seq<Seq<char>>| old(out).models(set_pairs(names)) ==> #[trigger] final(out).models(set_pairs(names.push(name@))),
{
    let ghost key = name@;
    out.insert(name, ());
    proof {
        assert forall|names: Seq<Seq<char>>| old(out).models(set_pairs(names)) implies #[trigger] final(out).models(set_pairs(names.push(key))) by {
            assert(set_pairs(names.push(key)) =~= set_pairs(names).push((key, ())));
        }
    }
}

/// Parse a message registry dump into message names.
pub fn parse_messages(text: &str) -> (out: SortedMap<()>)
    ensures
        out.models(set_pairs(message_names(spec_lines(text@)))),
{
    let ls = lines(text);
    let ghost all = spec_lines(text@);
    let mut out: SortedMap<()> = SortedMap::new();
    proof {
        assert(set_pairs(message_names(all.take(0))) =~= Seq::<(Seq<char>, ())>::empty());
    }
    let mut i: usize = 0;
    while i < ls.len()
        invariant
            i <= ls@.len(),
            ls@.len() == all.len(),
            forall|j: int| 0 <= j < ls@.len() ==> #[trigger] ls@[j]@ == all[j],
            out.models(set_pairs(message_names(all.take(i as int)))),
        decreases ls@.len() - i,
    {
        proof {
            assert(all.take(i + 1).drop_last() =~= all.take(i as int));
            assert(all.take(i + 1).last() == ls@[i as int]@);
        }
        let line = ls[i].as_slice();
        if line.len() > 0 && line[0] != ' ' && line[0] != '[' {
            let words = split_whitespace(line);
            if words.len() > 0 {
                insert_name(&mut out, words[0].clone());
            }
        }
        i = i + 1;
    }
    proof {
        assert(all.take(all.len() as int) =~= all);
    }
    out
}

/// Parse a UI surface dump into names.
pub fn parse_ui_events(text: &str) -> (out: SortedMap<()>)
    ensures
        out.models(set_pairs(ui_event_names(spec_lines(text@)))),
{
    let ls = lines(text);
    let ghost all = spec_lines(text@);
    let mut out: SortedMap<()> = SortedMap::new();
    proof {
        assert(set_pairs(ui_event_names(all.take(0))) =~= Seq::<(Seq<char>, ())>::empty());
    }
    let mut i: usize = 0;
    while i < ls.len()
        invariant
            i <= ls@.len(),
            ls@.len() == all.len(),
            forall|j: int| 0 <= j < ls@.len() ==> #[trigger] ls@[j]@ == all[j],
            out.models(set_pairs(ui_event_names(all.take(i as int)))),
        decreases ls@.len() - i,
    {
        proof {
            assert(all.take(i + 1).drop_last() =~= all.take(i as int));
            assert(all.take(i + 1).last() == ls@[i as int]@);
        }
        let line = ls[i].as_slice();
        if line.len() > 0 && line[0] != ' ' {
            insert_name(&mut out, ls[i].clone());
        }
        i = i + 1;
    }
    proof {
        assert(all.take(all.len() as int) =~= all);
    }
    out
}

/// One reported difference.
pub struct Change {
    /// Whether the thing appeared, went away or changed.
    pub mark: Mark,
    /// The name of the thing.
    pub name: String,
    /// What happened to it.
    pub what: String,
    /// The old and new value, when there are any.
    pub detail: String,
}

/// A difference as plain values.
pub struct ChangeView {
    pub mark: Mark,
    pub name: Seq<char>,
    pub what: Seq<char>,
    pub detail: Seq<char>,
}

impl View for Change {
    type V = ChangeView;

    open spec fn view(&self) -> ChangeView {
        ChangeView { mark: self.mark, name: self.name@, what: self.what@, detail: self.detail@ }
    }
}

/// A difference as plain values.
pub open spec fn change(mark: Mark, name: Seq<char>, what: Seq<char>, detail: Seq<char>) -> ChangeView {
    ChangeView { mark, name, what, detail }
}

/// Differences as plain values.
pub open spec fn changes_view(s: Seq<Change>) -> Seq<ChangeView> {
    Seq::new(s.len(), |i: int| s[i]@)
}

/// The differences `f` reports for positions `0` to `n - 1`, in order.
pub open spec fn concat_upto(n: int, f: spec_fn(int) -> Seq<ChangeView>) -> Seq<ChangeView>
    decreases n,
{
    if n <= 0 {
        Seq::empty()
    } else {
        concat_upto(n - 1, f) + f(n - 1)
    }
}

/// One difference, or none.
pub open spec fn one_if(cond: bool, c: ChangeView) -> Seq<ChangeView> {
    if cond {
        seq![c]
    } else {
        Seq::empty()
    }
}

/// Push a difference.
fn push_change(out: &mut Vec<Change>, mark: Mark, name: String, what: String, detail: String)
    ensures
        changes_view(final(out)@) == changes_view(old(out)@).push(change(mark, name@, what@, detail@)),
{
    let ghost before = changes_view(out@);
    out.push(Change { mark, name, what, detail });
    proof {
        assert(changes_view(out@) =~= before.push(change(mark, name@, what@, detail@)));
    }
}

/// `a` then `b`.
fn cat(a: &str, b: &str) -> (r: String)
    ensures
        r@ == a@ + b@,
{
    let mut r = owned(a);
    crate::text::push_str(&mut r, b);
    r
}

/// The difference a name in the later set reports when the earlier set
/// lacks it.
pub open spec fn set_added_at(before: SortedMap<()>, after: SortedMap<()>, label: Seq<char>) -> spec_fn(int) -> Seq<ChangeView> {
    |i: int| one_if(before.get_spec(after.keys()[i]) is None, change(Mark::Added, after.keys()[i], label + " added"@, Seq::empty()))
}

/// The difference a name in the earlier set reports when the later set
/// lacks it.
pub open spec fn set_removed_at(before: SortedMap<()>, after: SortedMap<()>, label: Seq<char>) -> spec_fn(int) -> Seq<ChangeView> {
    |i: int| one_if(after.get_spec(before.keys()[i]) is None, change(Mark::Removed, before.keys()[i], label + " removed"@, Seq::empty()))
}

/// Every name added to a set, then every name removed from it, each in
/// ascending order.
pub open spec fn set_changes(before: SortedMap<()>, after: SortedMap<()>, label: Seq<char>) -> Seq<ChangeView> {
    concat_upto(after.keys().len() as int, set_added_at(before, after, label)) + concat_upto(
        before.keys().len() as int,
        set_removed_at(before, after, label),
    )
}

/// Added and removed names in a set.
pub fn compare_sets(before: &SortedMap<()>, after: &SortedMap<()>, label: &str, out: &mut Vec<Change>)
    requires
        before.wf(),
        after.wf(),
    ensures
        changes_view(final(out)@) == changes_view(old(out)@) + set_changes(*before, *after, label@),
{
    let ghost base = changes_view(out@);
    let added = cat(label, " added");
    let removed = cat(label, " removed");
    let mut i: usize = 0;
    while i < after.len()
        invariant
            before.wf(),
            after.wf(),
            i <= after.keys().len(),
            added@ == label@ + " added"@,
            changes_view(out@) == base + concat_upto(i as int, set_added_at(*before, *after, label@)),
        decreases after.keys().len() - i,
    {
        let key = after.key_at(i);
        if before.get(key).is_none() {
            push_change(out, Mark::Added, string_of(key), owned(added.as_str()), String::new());
        }
        proof {
            assert(changes_view(out@) =~= base + concat_upto(i + 1, set_added_at(*before, *after, label@)));
        }
        i = i + 1;
    }
    let ghost mid = changes_view(out@);
    let mut j: usize = 0;
    while j < before.len()
        invariant
            before.wf(),
            after.wf(),
            j <= before.keys().len(),
            removed@ == label@ + " removed"@,
            changes_view(out@) == mid + concat_upto(j as int, set_removed_at(*before, *after, label@)),
        decreases before.keys().len() - j,
    {
        let key = before.key_at(j);
        if after.get(key).is_none() {
            push_change(out, Mark::Removed, string_of(key), owned(removed.as_str()), String::new());
        }
        proof {
            assert(changes_view(out@) =~= mid + concat_upto(j + 1, set_removed_at(*before, *after, label@)));
        }
        j = j + 1;
    }
    proof {
        assert(changes_view(out@) =~= base + set_changes(*before, *after, label@));
    }
}

/// How a count moved, as a difference's detail: nothing when it rose from
/// or fell to zero, else both counts.
pub open spec fn count_detail(from: usize, to: usize, zero: usize) -> Seq<char> {
    if zero == 0 {
        Seq::empty()
    } else {
        crate::text::decimal(from as nat) + " to "@ + crate::text::decimal(to as nat) + " records"@
    }
}

/// A count, or zero for a name that is not there.
pub open spec fn count_or_zero(m: SortedMap<usize>, k: Seq<char>) -> usize {
    match m.get_spec(k) {
        Some(v) => v,
        None => 0,
    }
}

/// The difference a name reports when the later table has more records of
/// it.
pub open spec fn count_added_at(before: SortedMap<usize>, after: SortedMap<usize>, label: Seq<char>) -> spec_fn(int) -> Seq<ChangeView> {
    |i: int| {
        let k = after.keys()[i];
        let count = after.vals()[i];
        let was = count_or_zero(before, k);
        one_if(count > was, change(Mark::Added, k, label + " added"@, count_detail(was, count, was)))
    }
}

/// The difference a name reports when the later table has fewer records of
/// it.
pub open spec fn count_removed_at(before: SortedMap<usize>, after: SortedMap<usize>, label: Seq<char>) -> spec_fn(int) -> Seq<ChangeView> {
    |i: int| {
        let k = before.keys()[i];
        let count = before.vals()[i];
        let now = count_or_zero(after, k);
        one_if(count > now, change(Mark::Removed, k, label + " removed"@, count_detail(count, now, now)))
    }
}

/// Every name with more records, then every name with fewer, each in
/// ascending order.
pub open spec fn count_changes(before: SortedMap<usize>, after: SortedMap<usize>, label: Seq<char>) -> Seq<ChangeView> {
    concat_upto(after.keys().len() as int, count_added_at(before, after, label)) + concat_upto(
        before.keys().len() as int,
        count_removed_at(before, after, label),
    )
}

/// How a count moved, as a difference's detail.
fn count_detail_exec(from: usize, to: usize, zero: usize) -> (r: String)
    ensures
        r@ == count_detail(from, to, zero),
{
    if zero == 0 {
        String::new()
    } else {
        let mut r = crate::text::decimal_string(from as u64);
        crate::text::push_str(&mut r, " to ");
        crate::text::push_str(&mut r, crate::text::decimal_string(to as u64).as_str());
        crate::text::push_str(&mut r, " records");
        r
    }
}

/// Added and removed names in a counted collection.
pub fn compare_counts(before: &SortedMap<usize>, after: &SortedMap<usize>, label: &str, out: &mut Vec<Change>)
    requires
        before.wf(),
        after.wf(),
    ensures
        changes_view(final(out)@) == changes_view(old(out)@) + count_changes(*before, *after, label@),
{
    let ghost base = changes_view(out@);
    let added = cat(label, " added");
    let removed = cat(label, " removed");
    let mut i: usize = 0;
    while i < after.len()
        invariant
            before.wf(),
            after.wf(),
            i <= after.keys().len(),
            added@ == label@ + " added"@,
            changes_view(out@) == base + concat_upto(i as int, count_added_at(*before, *after, label@)),
        decreases after.keys().len() - i,
    {
        let key = after.key_at(i);
        let count = *after.val_at(i);
        let was: usize = match before.get(key) {
            Some(v) => *v,
            None => 0,
        };
        if count > was {
            push_change(out, Mark::Added, string_of(key), owned(added.as_str()), count_detail_exec(was, count, was));
        }
        proof {
            assert(changes_view(out@) =~= base + concat_upto(i + 1, count_added_at(*before, *after, label@)));
        }
        i = i + 1;
    }
    let ghost mid = changes_view(out@);
    let mut j: usize = 0;
    while j < before.len()
        invariant
            before.wf(),
            after.wf(),
            j <= before.keys().len(),
            removed@ == label@ + " removed"@,
            changes_view(out@) == mid + concat_upto(j as int, count_removed_at(*before, *after, label@)),
        decreases before.keys().len() - j,
    {
        let key = before.key_at(j);
        let count = *before.val_at(j);
        let now: usize = match after.get(key) {
            Some(v) => *v,
            None => 0,
        };
        if count > now {
            push_change(out, Mark::Removed, string_of(key), owned(removed.as_str()), count_detail_exec(count, now, now));
        }
        proof {
            assert(changes_view(out@) =~= mid + concat_upto(j + 1, count_removed_at(*before, *after, label@)));
        }
        j = j + 1;
    }
    proof {
        assert(changes_view(out@) =~= base + count_changes(*before, *after, label@));
    }
}

/// A copy of a member.
fn copy_member(m: &Member) -> (r: Member)
    ensures
        r@ == m@,
{
    Member { key: m.key.clone(), name: m.name.clone(), member_type: m.member_type.clone() }
}

/// Whether two members are the same.
fn member_eq(a: &Member, b: &Member) -> (r: bool)
    ensures
        r == (a@ == b@),
{
    crate::text::str_eq(a.key.as_str(), b.key.as_str()) && crate::text::str_eq(a.name.as_str(), b.name.as_str())
        && crate::text::str_eq(a.member_type.as_str(), b.member_type.as_str())
}

/// Whether two shapes are the same.
fn shape_eq(a: &TypeShape, b: &TypeShape) -> (r: bool)
    ensures
        r == (a@ == b@),
{
    if !(crate::text::str_eq(a.size.as_str(), b.size.as_str()) && crate::text::str_eq(a.align.as_str(), b.align.as_str())
        && crate::text::str_eq(a.flags.as_str(), b.flags.as_str()) && crate::text::str_eq(a.hash.as_str(), b.hash.as_str())) {
        return false;
    }
    if a.members.len() != b.members.len() {
        assert(members_view(a.members@).len() != members_view(b.members@).len());
        return false;
    }
    let mut i: usize = 0;
    while i < a.members.len()
        invariant
            i <= a.members@.len(),
            a.members@.len() == b.members@.len(),
            forall|j: int| 0 <= j < i ==> a.members@[j]@ == b.members@[j]@,
        decreases a.members@.len() - i,
    {
        if !member_eq(&a.members[i], &b.members[i]) {
            assert(members_view(a.members@)[i as int] != members_view(b.members@)[i as int]);
            return false;
        }
        i = i + 1;
    }
    assert(members_view(a.members@) =~= members_view(b.members@));
    true
}

/// The difference one of a type's header fields reports when it moved.
pub open spec fn field_change(name: Seq<char>, label: Seq<char>, was: Seq<char>, now: Seq<char>) -> Seq<ChangeView> {
    one_if(was != now, change(Mark::Changed, name, label, was + " to "@ + now))
}

/// The differences a type's header reports, field by field.
pub open spec fn header_changes(name: Seq<char>, old: ShapeView, new: ShapeView) -> Seq<ChangeView> {
    field_change(name, "type size"@, old.size, new.size) + field_change(name, "type align"@, old.align, new.align)
        + field_change(name, "type flags"@, old.flags, new.flags) + field_change(name, "type hash"@, old.hash, new.hash)
}

/// Members, each under its name.
pub open spec fn by_name(ms: Seq<MemberView>) -> Seq<(Seq<char>, MemberView)> {
    Seq::new(ms.len(), |i: int| (ms[i].name, ms[i]))
}

/// The names of members, in order.
pub open spec fn names_of(ms: Seq<MemberView>) -> Seq<Seq<char>> {
    Seq::new(ms.len(), |i: int| ms[i].name)
}

/// The difference a member name of the later type reports when the earlier
/// type has no member of that name.
pub open spec fn member_added_at(ty: Seq<char>, old: Seq<MemberView>, new: Seq<MemberView>) -> spec_fn(int) -> Seq<ChangeView> {
    |i: int| {
        let k = keys_after(names_of(new))[i];
        one_if(
            last_value(by_name(old), k) is None,
            change(Mark::Added, ty, "type member "@ + k + " added"@, "at "@ + last_value(by_name(new), k)->0.key),
        )
    }
}

/// The difference a member name of the earlier type reports when the later
/// type has no member of that name.
pub open spec fn member_removed_at(ty: Seq<char>, old: Seq<MemberView>, new: Seq<MemberView>) -> spec_fn(int) -> Seq<ChangeView> {
    |i: int| {
        let k = keys_after(names_of(old))[i];
        one_if(
            last_value(by_name(new), k) is None,
            change(Mark::Removed, ty, "type member "@ + k + " removed"@, "was at "@ + last_value(by_name(old), k)->0.key),
        )
    }
}

/// The differences a member present in both types reports: that it moved,
/// then that it was retyped.
pub open spec fn member_changed_at(ty: Seq<char>, old: Seq<MemberView>, new: Seq<MemberView>) -> spec_fn(int) -> Seq<ChangeView> {
    |i: int| {
        let k = keys_after(names_of(old))[i];
        let was = last_value(by_name(old), k)->0;
        match last_value(by_name(new), k) {
            None => Seq::empty(),
            Some(now) => one_if(
                was.key != now.key,
                change(Mark::Changed, ty, "type member "@ + k + " moved"@, was.key + " to "@ + now.key),
            ) + one_if(
                was.member_type != now.member_type,
                change(Mark::Changed, ty, "type member "@ + k + " retyped"@, was.member_type + " to "@ + now.member_type),
            ),
        }
    }
}

/// Every member added, then every member removed, then every member moved
/// or retyped, each in ascending order of member name. Of two members with
/// one name, the later stands.
pub open spec fn member_changes(ty: Seq<char>, old: Seq<MemberView>, new: Seq<MemberView>) -> Seq<ChangeView> {
    concat_upto(keys_after(names_of(new)).len() as int, member_added_at(ty, old, new)) + concat_upto(
        keys_after(names_of(old)).len() as int,
        member_removed_at(ty, old, new),
    ) + concat_upto(keys_after(names_of(old)).len() as int, member_changed_at(ty, old, new))
}

/// Members by name, the later of two with one name standing.
fn members_by_name(ms: &[Member]) -> (r: SortedMap<Member>)
    ensures
        r.models(by_name(members_view(ms@))),
        r.keys() == keys_after(names_of(members_view(ms@))),
{
    let mut r: SortedMap<Member> = SortedMap::new();
    let ghost all = members_view(ms@);
    let mut i: usize = 0;
    proof {
        assert(by_name(all.take(0)) =~= Seq::<(Seq<char>, MemberView)>::empty());
        assert(names_of(all.take(0)) =~= Seq::<Seq<char>>::empty());
    }
    while i < ms.len()
        invariant
            i <= ms@.len(),
            all == members_view(ms@),
            r.models(by_name(all.take(i as int))),
            r.keys() == keys_after(names_of(all.take(i as int))),
        decreases ms@.len() - i,
    {
        let m = copy_member(&ms[i]);
        let key = chars_of(ms[i].name.as_str());
        r.insert(key, m);
        proof {
            assert(by_name(all.take(i + 1)) =~= by_name(all.take(i as int)).push((all[i as int].name, all[i as int])));
            assert(names_of(all.take(i + 1)).drop_last() =~= names_of(all.take(i as int)));
        }
        i = i + 1;
    }
    proof {
        assert(all.take(ms@.len() as int) =~= all);
    }
    r
}

/// `type member {name} {what}`.
fn member_what(name: &[char], what: &str) -> (r: String)
    ensures
        r@ == "type member "@ + name@ + what@,
{
    let mut r = owned("type member ");
    crate::text::push_str(&mut r, string_of(name).as_str());
    crate::text::push_str(&mut r, what);
    r
}

/// `{was} to {now}`.
fn moved_detail(was: &str, now: &str) -> (r: String)
    ensures
        r@ == was@ + " to "@ + now@,
{
    let mut r = owned(was);
    crate::text::push_str(&mut r, " to ");
    crate::text::push_str(&mut r, now);
    r
}

/// Per-member deltas inside one type.
pub fn compare_members(ty: &str, was: &[Member], now: &[Member], out: &mut Vec<Change>)
    ensures
        changes_view(final(out)@) == changes_view(old(out)@) + member_changes(ty@, members_view(was@), members_view(now@)),
{
    let ghost base = changes_view(out@);
    let ghost ov = members_view(was@);
    let ghost nv = members_view(now@);
    let old_by_name = members_by_name(was);
    let new_by_name = members_by_name(now);
    let mut i: usize = 0;
    while i < new_by_name.len()
        invariant
            old_by_name.models(by_name(ov)),
            new_by_name.models(by_name(nv)),
            new_by_name.keys() == keys_after(names_of(nv)),
            i <= new_by_name.keys().len(),
            changes_view(out@) == base + concat_upto(i as int, member_added_at(ty@, ov, nv)),
        decreases new_by_name.keys().len() - i,
    {
        let key = new_by_name.key_at(i);
        proof {
            old_by_name.lemma_models_get(by_name(ov), key@);
        }
        if old_by_name.get(key).is_none() {
            let entry = new_by_name.val_at(i);
            push_change(out, Mark::Added, owned(ty), member_what(key, " added"), cat("at ", entry.key.as_str()));
        }
        proof {
            assert(changes_view(out@) =~= base + concat_upto(i + 1, member_added_at(ty@, ov, nv)));
        }
        i = i + 1;
    }
    let ghost mid = changes_view(out@);
    let mut j: usize = 0;
    while j < old_by_name.len()
        invariant
            old_by_name.models(by_name(ov)),
            new_by_name.models(by_name(nv)),
            old_by_name.keys() == keys_after(names_of(ov)),
            j <= old_by_name.keys().len(),
            changes_view(out@) == mid + concat_upto(j as int, member_removed_at(ty@, ov, nv)),
        decreases old_by_name.keys().len() - j,
    {
        let key = old_by_name.key_at(j);
        proof {
            new_by_name.lemma_models_get(by_name(nv), key@);
        }
        if new_by_name.get(key).is_none() {
            let entry = old_by_name.val_at(j);
            push_change(out, Mark::Removed, owned(ty), member_what(key, " removed"), cat("was at ", entry.key.as_str()));
        }
        proof {
            assert(changes_view(out@) =~= mid + concat_upto(j + 1, member_removed_at(ty@, ov, nv)));
        }
        j = j + 1;
    }
    let ghost mid2 = changes_view(out@);
    let mut k: usize = 0;
    while k < old_by_name.len()
        invariant
            old_by_name.models(by_name(ov)),
            new_by_name.models(by_name(nv)),
            old_by_name.keys() == keys_after(names_of(ov)),
            k <= old_by_name.keys().len(),
            changes_view(out@) == mid2 + concat_upto(k as int, member_changed_at(ty@, ov, nv)),
        decreases old_by_name.keys().len() - k,
    {
        let key = old_by_name.key_at(k);
        let earlier = old_by_name.val_at(k);
        let ghost before_step = changes_view(out@);
        proof {
            new_by_name.lemma_models_get(by_name(nv), key@);
        }
        match new_by_name.get(key) {
            None => {},
            Some(later) => {
                if !crate::text::str_eq(earlier.key.as_str(), later.key.as_str()) {
                    push_change(out, Mark::Changed, owned(ty), member_what(key, " moved"), moved_detail(earlier.key.as_str(), later.key.as_str()));
                }
                if !crate::text::str_eq(earlier.member_type.as_str(), later.member_type.as_str()) {
                    push_change(
                        out,
                        Mark::Changed,
                        owned(ty),
                        member_what(key, " retyped"),
                        moved_detail(earlier.member_type.as_str(), later.member_type.as_str()),
                    );
                }
            },
        }
        proof {
            assert(changes_view(out@) =~= mid2 + concat_upto(k + 1, member_changed_at(ty@, ov, nv)));
        }
        k = k + 1;
    }
    proof {
        assert(changes_view(out@) =~= base + member_changes(ty@, ov, nv));
    }
}

/// The difference a type of the later extraction reports when the earlier
/// one lacks it.
pub open spec fn type_added_at(before: SortedMap<TypeShape>, after: SortedMap<TypeShape>) -> spec_fn(int) -> Seq<ChangeView> {
    |i: int| one_if(before.get_spec(after.keys()[i]) is None, change(Mark::Added, after.keys()[i], "type added"@, Seq::empty()))
}

/// The difference a type of the earlier extraction reports when the later
/// one lacks it.
pub open spec fn type_removed_at(before: SortedMap<TypeShape>, after: SortedMap<TypeShape>) -> spec_fn(int) -> Seq<ChangeView> {
    |i: int| one_if(after.get_spec(before.keys()[i]) is None, change(Mark::Removed, before.keys()[i], "type removed"@, Seq::empty()))
}

/// The differences a type present in both extractions reports, when its
/// shape changed: its header fields, then its members.
pub open spec fn type_changed_at(before: SortedMap<TypeShape>, after: SortedMap<TypeShape>) -> spec_fn(int) -> Seq<ChangeView> {
    |i: int| {
        let k = before.keys()[i];
        let old = before.vals()[i]@;
        match after.get_spec(k) {
            None => Seq::empty(),
            Some(new) => if old == new@ {
                Seq::empty()
            } else {
                header_changes(k, old, new@) + member_changes(k, old.members, new@.members)
            },
        }
    }
}

/// Every type added, then every type removed, then every type whose shape
/// changed, each in ascending order of name.
pub open spec fn type_changes(before: SortedMap<TypeShape>, after: SortedMap<TypeShape>) -> Seq<ChangeView> {
    concat_upto(after.keys().len() as int, type_added_at(before, after)) + concat_upto(
        before.keys().len() as int,
        type_removed_at(before, after),
    ) + concat_upto(before.keys().len() as int, type_changed_at(before, after))
}

/// Push the difference one header field reports, if it moved.
fn push_field_change(out: &mut Vec<Change>, name: &[char], label: &str, was: &str, now: &str)
    ensures
        changes_view(final(out)@) == changes_view(old(out)@) + field_change(name@, label@, was@, now@),
{
    let ghost before = changes_view(out@);
    if !crate::text::str_eq(was, now) {
        push_change(out, Mark::Changed, string_of(name), owned(label), moved_detail(was, now));
    } else {
        assert(changes_view(out@) =~= before + Seq::<ChangeView>::empty());
    }
}

/// Added, removed and changed types, with per-member deltas.
pub fn compare_types(before: &SortedMap<TypeShape>, after: &SortedMap<TypeShape>, out: &mut Vec<Change>)
    requires
        before.wf(),
        after.wf(),
    ensures
        changes_view(final(out)@) == changes_view(old(out)@) + type_changes(*before, *after),
{
    let ghost base = changes_view(out@);
    let mut i: usize = 0;
    while i < after.len()
        invariant
            before.wf(),
            after.wf(),
            i <= after.keys().len(),
            changes_view(out@) == base + concat_upto(i as int, type_added_at(*before, *after)),
        decreases after.keys().len() - i,
    {
        let key = after.key_at(i);
        if before.get(key).is_none() {
            push_change(out, Mark::Added, string_of(key), owned("type added"), String::new());
        }
        proof {
            assert(changes_view(out@) =~= base + concat_upto(i + 1, type_added_at(*before, *after)));
        }
        i = i + 1;
    }
    let ghost mid = changes_view(out@);
    let mut j: usize = 0;
    while j < before.len()
        invariant
            before.wf(),
            after.wf(),
            j <= before.keys().len(),
            changes_view(out@) == mid + concat_upto(j as int, type_removed_at(*before, *after)),
        decreases before.keys().len() - j,
    {
        let key = before.key_at(j);
        if after.get(key).is_none() {
            push_change(out, Mark::Removed, string_of(key), owned("type removed"), String::new());
        }
        proof {
            assert(changes_view(out@) =~= mid + concat_upto(j + 1, type_removed_at(*before, *after)));
        }
        j = j + 1;
    }
    let ghost mid2 = changes_view(out@);
    let mut k: usize = 0;
    while k < before.len()
        invariant
            before.wf(),
            after.wf(),
            k <= before.keys().len(),
            changes_view(out@) == mid2 + concat_upto(k as int, type_changed_at(*before, *after)),
        decreases before.keys().len() - k,
    {
        let key = before.key_at(k);
        let old = before.val_at(k);
        let ghost step_base = changes_view(out@);
        match after.get(key) {
            None => {},
            Some(new) => {
                if !shape_eq(old, new) {
                    push_field_change(out, key, "type size", old.size.as_str(), new.size.as_str());
                    push_field_change(out, key, "type align", old.align.as_str(), new.align.as_str());
                    push_field_change(out, key, "type flags", old.flags.as_str(), new.flags.as_str());
                    push_field_change(out, key, "type hash", old.hash.as_str(), new.hash.as_str());
                    let name = string_of(key);
                    compare_members(name.as_str(), old.members.as_slice(), new.members.as_slice(), out);
                }
            },
        }
        proof {
            assert(changes_view(out@) =~= mid2 + concat_upto(k + 1, type_changed_at(*before, *after)));
        }
        k = k + 1;
    }
    proof {
        assert(changes_view(out@) =~= base + type_changes(*before, *after));
    }
}

/// One extraction, parsed into what a diff compares.
pub struct Extraction {
    /// Every `keen::` type, by qualified name.
    pub types: SortedMap<TypeShape>,
    /// Every program name, with how many records carry it.
    pub programs: SortedMap<usize>,
    /// Every network message name.
    pub messages: SortedMap<()>,
    /// Every UI surface name.
    pub ui_events: SortedMap<()>,
}

impl Extraction {
    /// Whether every part is a well-formed map.
    pub open spec fn wf(&self) -> bool {
        self.types.wf() && self.programs.wf() && self.messages.wf() && self.ui_events.wf()
    }

    /// Parse the four dumps an extraction holds: the schema, the program
    /// table, the message registry and the UI surfaces.
    pub fn parse(schema: &str, programs: &str, messages: &str, ui_events: &str) -> (r: Self)
        ensures
            r.wf(),
            r.types.models(schema_pairs(schema@)),
            r.programs.models(count_pairs(program_names(spec_lines(programs@)))),
            r.messages.models(set_pairs(message_names(spec_lines(messages@)))),
            r.ui_events.models(set_pairs(ui_event_names(spec_lines(ui_events@)))),
    {
        Extraction {
            types: parse_schema(schema),
            programs: parse_programs(programs),
            messages: parse_messages(messages),
            ui_events: parse_ui_events(ui_events),
        }
    }
}

/// Every difference between two extractions: types, then programs, then
/// messages, then UI surfaces.
pub open spec fn all_changes(before: Extraction, after: Extraction) -> Seq<ChangeView> {
    type_changes(before.types, after.types) + count_changes(before.programs, after.programs, "program"@)
        + set_changes(before.messages, after.messages, "message"@) + set_changes(
        before.ui_events,
        after.ui_events,
        "ui event"@,
    )
}

/// Every difference between two extractions.
pub fn compare(before: &Extraction, after: &Extraction) -> (r: Vec<Change>)
    requires
        before.wf(),
        after.wf(),
    ensures
        changes_view(r@) == all_changes(*before, *after),
{
    let mut out: Vec<Change> = Vec::new();
    proof {
        assert(changes_view(out@) =~= Seq::<ChangeView>::empty());
    }
    compare_types(&before.types, &after.types, &mut out);
    compare_counts(&before.programs, &after.programs, "program", &mut out);
    compare_sets(&before.messages, &after.messages, "message", &mut out);
    compare_sets(&before.ui_events, &after.ui_events, "ui event", &mut out);
    proof {
        assert(changes_view(out@) =~= all_changes(*before, *after));
    }
    out
}

impl Change {
    /// Whether this change touches a watchlist name.
    pub fn on_watchlist(&self) -> (r: bool)
        ensures
            r == (watched(self.name@) || watched(self.what@)),
    {
        is_watched(self.name.as_str()) || is_watched(self.what.as_str())
    }

    /// Render as a result row.
    pub fn row(&self) -> (r: Row)
        ensures
            r@ == (RowView { mark: self.mark, name: self.name@, value: self.what@, note: self.detail@ }),
    {
        Row::new(self.mark, self.name.as_str(), self.what.as_str()).note(self.detail.as_str())
    }
}

/// How many changes carry a mark.
pub open spec fn count_marked(changes: Seq<ChangeView>, mark: Mark) -> nat
    decreases changes.len(),
{
    if changes.len() == 0 {
        0
    } else {
        count_marked(changes.drop_last(), mark) + if changes.last().mark == mark {
            1nat
        } else {
            0nat
        }
    }
}

/// How many changes carry a mark.
pub fn count(changes: &[Change], mark: Mark) -> (r: usize)
    ensures
        r == count_marked(changes_view(changes@), mark),
{
    let mut n: usize = 0;
    let mut i: usize = 0;
    while i < changes.len()
        invariant
            i <= changes@.len(),
            n <= i,
            n == count_marked(changes_view(changes@).take(i as int), mark),
        decreases changes@.len() - i,
    {
        proof {
            assert(changes_view(changes@).take(i + 1).drop_last() =~= changes_view(changes@).take(i as int));
        }
        if changes[i].mark == mark {
            n = n + 1;
        }
        i = i + 1;
    }
    proof {
        assert(changes_view(changes@).take(changes@.len() as int) =~= changes_view(changes@));
    }
    n
}

/// The rows of the changes whose `what` starts with a prefix, in order.
pub open spec fn rows_with_prefix(changes: Seq<ChangeView>, prefix: Seq<char>) -> Seq<RowView>
    decreases changes.len(),
{
    if changes.len() == 0 {
        Seq::empty()
    } else {
        let c = changes.last();
        rows_with_prefix(changes.drop_last(), prefix) + if occurs_at(c.what, prefix, 0) {
            seq![RowView { mark: c.mark, name: c.name, value: c.what, note: c.detail }]
        } else {
            Seq::empty()
        }
    }
}

/// The rows of the changes on the watchlist, in order.
pub open spec fn watched_rows(changes: Seq<ChangeView>) -> Seq<RowView>
    decreases changes.len(),
{
    if changes.len() == 0 {
        Seq::empty()
    } else {
        let c = changes.last();
        watched_rows(changes.drop_last()) + if watched(c.name) || watched(c.what) {
            seq![RowView { mark: c.mark, name: c.name, value: c.what, note: c.detail }]
        } else {
            Seq::empty()
        }
    }
}

/// The rows of the changes whose `what` starts with a prefix: one section of
/// the report.
pub fn section_rows(changes: &[Change], prefix: &str) -> (r: Vec<Row>)
    ensures
        crate::sig::rows_view(r@) == rows_with_prefix(changes_view(changes@), prefix@),
{
    let p = chars_of(prefix);
    let mut r: Vec<Row> = Vec::new();
    let mut i: usize = 0;
    proof {
        assert(crate::sig::rows_view(r@) =~= Seq::<RowView>::empty());
    }
    while i < changes.len()
        invariant
            i <= changes@.len(),
            p@ == prefix@,
            crate::sig::rows_view(r@) == rows_with_prefix(changes_view(changes@).take(i as int), prefix@),
        decreases changes@.len() - i,
    {
        let ghost before = crate::sig::rows_view(r@);
        proof {
            assert(changes_view(changes@).take(i + 1).drop_last() =~= changes_view(changes@).take(i as int));
        }
        let what = chars_of(changes[i].what.as_str());
        if crate::text::occurs_at_exec(what.as_slice(), p.as_slice(), 0) {
            let row = changes[i].row();
            r.push(row);
            proof {
                assert(crate::sig::rows_view(r@) =~= before.push(row@));
            }
        } else {
            proof {
                assert(crate::sig::rows_view(r@) =~= before + Seq::<RowView>::empty());
            }
        }
        i = i + 1;
    }
    proof {
        assert(changes_view(changes@).take(changes@.len() as int) =~= changes_view(changes@));
    }
    r
}

/// The rows of the changes on the watchlist: what the report shows first.
pub fn watchlist_rows(changes: &[Change]) -> (r: Vec<Row>)
    ensures
        crate::sig::rows_view(r@) == watched_rows(changes_view(changes@)),
{
    let mut r: Vec<Row> = Vec::new();
    let mut i: usize = 0;
    proof {
        assert(crate::sig::rows_view(r@) =~= Seq::<RowView>::empty());
    }
    while i < changes.len()
        invariant
            i <= changes@.len(),
            crate::sig::rows_view(r@) == watched_rows(changes_view(changes@).take(i as int)),
        decreases changes@.len() - i,
    {
        let ghost before = crate::sig::rows_view(r@);
        proof {
            assert(changes_view(changes@).take(i + 1).drop_last() =~= changes_view(changes@).take(i as int));
        }
        if changes[i].on_watchlist() {
            let row = changes[i].row();
            r.push(row);
            proof {
                assert(crate::sig::rows_view(r@) =~= before.push(row@));
            }
        } else {
            proof {
                assert(crate::sig::rows_view(r@) =~= before + Seq::<RowView>::empty());
            }
        }
        i = i + 1;
    }
    proof {
        assert(changes_view(changes@).take(changes@.len() as int) =~= changes_view(changes@));
    }
    r
}

/// A report that is empty at every position is empty.
proof fn lemma_concat_empty(n: int, f: spec_fn(int) -> Seq<ChangeView>)
    requires
        forall|i: int| 0 <= i < n ==> #[trigger] f(i) == Seq::<ChangeView>::empty(),
    ensures
        concat_upto(n, f) == Seq::<ChangeView>::empty(),
    decreases n,
{
    if n > 0 {
        lemma_concat_empty(n - 1, f);
        assert(concat_upto(n, f) =~= Seq::<ChangeView>::empty());
    }
}

/// Every key a map holds maps to the value at its position.
proof fn lemma_get_own_key<V: View>(m: SortedMap<V>, i: int)
    requires
        m.wf(),
        0 <= i < m.keys().len(),
    ensures
        m.get_spec(m.keys()[i]) == Some(m.vals()[i]),
{
    m.lemma_index_unique(i, m.keys()[i]);
}

/// An extraction compared with itself reports no difference.
pub proof fn lemma_no_difference_with_itself(e: Extraction)
    requires
        e.wf(),
    ensures
        all_changes(e, e) == Seq::<ChangeView>::empty(),
{
    assert forall|i: int| 0 <= i < e.types.keys().len() implies #[trigger] type_added_at(e.types, e.types)(i) == Seq::<ChangeView>::empty() by {
        lemma_get_own_key(e.types, i);
    }
    assert forall|i: int| 0 <= i < e.types.keys().len() implies #[trigger] type_removed_at(e.types, e.types)(i) == Seq::<ChangeView>::empty() by {
        lemma_get_own_key(e.types, i);
    }
    assert forall|i: int| 0 <= i < e.types.keys().len() implies #[trigger] type_changed_at(e.types, e.types)(i) == Seq::<ChangeView>::empty() by {
        lemma_get_own_key(e.types, i);
    }
    lemma_concat_empty(e.types.keys().len() as int, type_added_at(e.types, e.types));
    lemma_concat_empty(e.types.keys().len() as int, type_removed_at(e.types, e.types));
    lemma_concat_empty(e.types.keys().len() as int, type_changed_at(e.types, e.types));
    assert forall|i: int| 0 <= i < e.programs.keys().len() implies #[trigger] count_added_at(e.programs, e.programs, "program"@)(i) == Seq::<ChangeView>::empty() by {
        lemma_get_own_key(e.programs, i);
    }
    assert forall|i: int| 0 <= i < e.programs.keys().len() implies #[trigger] count_removed_at(e.programs, e.programs, "program"@)(i) == Seq::<ChangeView>::empty() by {
        lemma_get_own_key(e.programs, i);
    }
    lemma_concat_empty(e.programs.keys().len() as int, count_added_at(e.programs, e.programs, "program"@));
    lemma_concat_empty(e.programs.keys().len() as int, count_removed_at(e.programs, e.programs, "program"@));
    assert forall|i: int| 0 <= i < e.messages.keys().len() implies #[trigger] set_added_at(e.messages, e.messages, "message"@)(i) == Seq::<ChangeView>::empty() by {
        lemma_get_own_key(e.messages, i);
    }
    assert forall|i: int| 0 <= i < e.messages.keys().len() implies #[trigger] set_removed_at(e.messages, e.messages, "message"@)(i) == Seq::<ChangeView>::empty() by {
        lemma_get_own_key(e.messages, i);
    }
    lemma_concat_empty(e.messages.keys().len() as int, set_added_at(e.messages, e.messages, "message"@));
    lemma_concat_empty(e.messages.keys().len() as int, set_removed_at(e.messages, e.messages, "message"@));
    assert forall|i: int| 0 <= i < e.ui_events.keys().len() implies #[trigger] set_added_at(e.ui_events, e.ui_events, "ui event"@)(i) == Seq::<ChangeView>::empty() by {
        lemma_get_own_key(e.ui_events, i);
    }
    assert forall|i: int| 0 <= i < e.ui_events.keys().len() implies #[trigger] set_removed_at(e.ui_events, e.ui_events, "ui event"@)(i) == Seq::<ChangeView>::empty() by {
        lemma_get_own_key(e.ui_events, i);
    }
    lemma_concat_empty(e.ui_events.keys().len() as int, set_added_at(e.ui_events, e.ui_events, "ui event"@));
    lemma_concat_empty(e.ui_events.keys().len() as int, set_removed_at(e.ui_events, e.ui_events, "ui event"@));
    assert(all_changes(e, e) =~= Seq::<ChangeView>::empty());
}

/// A removal read the other way round: the same name, added.
pub open spec fn as_added(c: ChangeView, what: Seq<char>) -> ChangeView {
    change(Mark::Added, c.name, what, c.detail)
}

/// Reports that agree position by position, one mapped, agree whole.
proof fn lemma_concat_map(n: int, f: spec_fn(int) -> Seq<ChangeView>, g: spec_fn(int) -> Seq<ChangeView>, what: Seq<char>)
    requires
        forall|i: int| 0 <= i < n ==> #[trigger] f(i) == g(i).map_values(|c: ChangeView| as_added(c, what)),
    ensures
        concat_upto(n, f) == concat_upto(n, g).map_values(|c: ChangeView| as_added(c, what)),
    decreases n,
{
    if n > 0 {
        lemma_concat_map(n - 1, f, g, what);
        assert(concat_upto(n, f) =~= concat_upto(n, g).map_values(|c: ChangeView| as_added(c, what)));
    }
}

/// What a diff from `a` to `b` reports as added is what the diff from `b` to
/// `a` reports as removed: the same types, messages and UI surfaces, in the
/// same order.
pub proof fn lemma_added_is_removed_the_other_way(a: Extraction, b: Extraction)
    requires
        a.wf(),
        b.wf(),
    ensures
        concat_upto(b.types.keys().len() as int, type_added_at(a.types, b.types)) == concat_upto(
            b.types.keys().len() as int,
            type_removed_at(b.types, a.types),
        ).map_values(|c: ChangeView| as_added(c, "type added"@)),
        concat_upto(b.messages.keys().len() as int, set_added_at(a.messages, b.messages, "message"@)) == concat_upto(
            b.messages.keys().len() as int,
            set_removed_at(b.messages, a.messages, "message"@),
        ).map_values(|c: ChangeView| as_added(c, "message"@ + " added"@)),
        concat_upto(b.ui_events.keys().len() as int, set_added_at(a.ui_events, b.ui_events, "ui event"@)) == concat_upto(
            b.ui_events.keys().len() as int,
            set_removed_at(b.ui_events, a.ui_events, "ui event"@),
        ).map_values(|c: ChangeView| as_added(c, "ui event"@ + " added"@)),
{
    assert forall|i: int| 0 <= i < b.types.keys().len() implies #[trigger] type_added_at(a.types, b.types)(i)
        == type_removed_at(b.types, a.types)(i).map_values(|c: ChangeView| as_added(c, "type added"@)) by {
        assert(type_added_at(a.types, b.types)(i) =~= type_removed_at(b.types, a.types)(i).map_values(
            |c: ChangeView| as_added(c, "type added"@),
        ));
    }
    lemma_concat_map(b.types.keys().len() as int, type_added_at(a.types, b.types), type_removed_at(b.types, a.types), "type added"@);
    assert forall|i: int| 0 <= i < b.messages.keys().len() implies #[trigger] set_added_at(a.messages, b.messages, "message"@)(i)
        == set_removed_at(b.messages, a.messages, "message"@)(i).map_values(|c: ChangeView| as_added(c, "message"@ + " added"@)) by {
        assert(set_added_at(a.messages, b.messages, "message"@)(i) =~= set_removed_at(b.messages, a.messages, "message"@)(
            i,
        ).map_values(|c: ChangeView| as_added(c, "message"@ + " added"@)));
    }
    lemma_concat_map(
        b.messages.keys().len() as int,
        set_added_at(a.messages, b.messages, "message"@),
        set_removed_at(b.messages, a.messages, "message"@),
        "message"@ + " added"@,
    );
    assert forall|i: int| 0 <= i < b.ui_events.keys().len() implies #[trigger] set_added_at(a.ui_events, b.ui_events, "ui event"@)(i)
        == set_removed_at(b.ui_events, a.ui_events, "ui event"@)(i).map_values(|c: ChangeView| as_added(c, "ui event"@ + " added"@)) by {
        assert(set_added_at(a.ui_events, b.ui_events, "ui event"@)(i) =~= set_removed_at(b.ui_events, a.ui_events, "ui event"@)(
            i,
        ).map_values(|c: ChangeView| as_added(c, "ui event"@ + " added"@)));
    }
    lemma_concat_map(
        b.ui_events.keys().len() as int,
        set_added_at(a.ui_events, b.ui_events, "ui event"@),
        set_removed_at(b.ui_events, a.ui_events, "ui event"@),
        "ui event"@ + " added"@,
    );
}


/// A difference one position reports is among those every position up to
/// `n` reports.
proof fn lemma_concat_upto_holds(n: int, f: spec_fn(int) -> Seq<ChangeView>, i: int, c: ChangeView)
    requires
        0 <= i < n,
        f(i).contains(c),
    ensures
        concat_upto(n, f).contains(c),
    decreases n,
{
    let all = concat_upto(n, f);
    let front = concat_upto(n - 1, f);
    assert(all == front + f(n - 1));
    if i == n - 1 {
        let fi = f(i);
        let j = choose|j: int| 0 <= j < fi.len() && fi[j] == c;
        assert(all[front.len() + j] == c);
    } else {
        lemma_concat_upto_holds(n - 1, f, i, c);
        let j = choose|j: int| 0 <= j < front.len() && front[j] == c;
        assert(all[j] == c);
    }
}

/// The removal a dropped member reports.
pub open spec fn member_removed(ty: Seq<char>, m: MemberView) -> ChangeView {
    change(Mark::Removed, ty, "type member "@ + m.name + " removed"@, "was at "@ + m.key)
}

/// A member the earlier type has and the later one lacks is reported removed:
/// for the last member of the earlier type under a name that no member of
/// the later type carries, the type's member differences hold a removal
/// naming the type, the member and where it was.
pub proof fn lemma_dropped_member_is_reported(ty: Seq<char>, old: Seq<MemberView>, new: Seq<MemberView>, j: int)
    requires
        0 <= j < old.len(),
        forall|i: int| j < i < old.len() ==> (#[trigger] old[i]).name != old[j].name,
        forall|i: int| 0 <= i < new.len() ==> (#[trigger] new[i]).name != old[j].name,
    ensures
        member_changes(ty, old, new).contains(member_removed(ty, old[j])),
{
    let k = old[j].name;
    let names = names_of(old);
    assert(names[j] == k);
    crate::order::lemma_keys_after_contains(names, j);
    let keys = keys_after(names);
    let i = choose|i: int| 0 <= i < keys.len() && keys[i] == k;
    let bn = by_name(new);
    assert forall|x: int| 0 <= x < bn.len() implies (#[trigger] bn[x]).0 != k by {
        assert(bn[x].0 == new[x].name);
    }
    crate::order::lemma_last_value_absent(bn, k);
    let bo = by_name(old);
    assert forall|x: int| j < x < bo.len() implies (#[trigger] bo[x]).0 != k by {
        assert(bo[x].0 == old[x].name);
    }
    crate::order::lemma_last_value_is_last(bo, k, j);
    let c = member_removed(ty, old[j]);
    let f = member_removed_at(ty, old, new);
    assert(f(i) == seq![c]);
    assert(f(i)[0] == c);
    lemma_concat_upto_holds(keys.len() as int, f, i, c);
    let a = concat_upto(keys_after(names_of(new)).len() as int, member_added_at(ty, old, new));
    let b = concat_upto(keys.len() as int, f);
    let d = concat_upto(keys.len() as int, member_changed_at(ty, old, new));
    assert(member_changes(ty, old, new) == a + b + d);
    let x = choose|x: int| 0 <= x < b.len() && b[x] == c;
    assert((a + b + d)[a.len() + x] == c);
}

/// The addition a new member reports.
pub open spec fn member_added(ty: Seq<char>, m: MemberView) -> ChangeView {
    change(Mark::Added, ty, "type member "@ + m.name + " added"@, "at "@ + m.key)
}

/// A member the later type has and the earlier one lacks is reported added:
/// for the last member of the later type under a name that no member of the
/// earlier type carries, the type's member differences hold an addition
/// naming the type, the member and where it is.
pub proof fn lemma_new_member_is_reported(ty: Seq<char>, old: Seq<MemberView>, new: Seq<MemberView>, j: int)
    requires
        0 <= j < new.len(),
        forall|i: int| j < i < new.len() ==> (#[trigger] new[i]).name != new[j].name,
        forall|i: int| 0 <= i < old.len() ==> (#[trigger] old[i]).name != new[j].name,
    ensures
        member_changes(ty, old, new).contains(member_added(ty, new[j])),
{
    let k = new[j].name;
    let names = names_of(new);
    assert(names[j] == k);
    crate::order::lemma_keys_after_contains(names, j);
    let keys = keys_after(names);
    let i = choose|i: int| 0 <= i < keys.len() && keys[i] == k;
    let bo = by_name(old);
    assert forall|x: int| 0 <= x < bo.len() implies (#[trigger] bo[x]).0 != k by {
        assert(bo[x].0 == old[x].name);
    }
    crate::order::lemma_last_value_absent(bo, k);
    let bn = by_name(new);
    assert forall|x: int| j < x < bn.len() implies (#[trigger] bn[x]).0 != k by {
        assert(bn[x].0 == new[x].name);
    }
    crate::order::lemma_last_value_is_last(bn, k, j);
    let c = member_added(ty, new[j]);
    let f = member_added_at(ty, old, new);
    assert(f(i) == seq![c]);
    assert(f(i)[0] == c);
    lemma_concat_upto_holds(keys.len() as int, f, i, c);
    let a = concat_upto(keys.len() as int, f);
    let b = concat_upto(keys_after(names_of(old)).len() as int, member_removed_at(ty, old, new));
    let d = concat_upto(keys_after(names_of(old)).len() as int, member_changed_at(ty, old, new));
    assert(member_changes(ty, old, new) == a + b + d);
    let x = choose|x: int| 0 <= x < a.len() && a[x] == c;
    assert((a + b + d)[x] == c);
}

/// The move a member kept under its name reports.
pub open spec fn member_moved(ty: Seq<char>, was: MemberView, now: MemberView) -> ChangeView {
    change(Mark::Changed, ty, "type member "@ + was.name + " moved"@, was.key + " to "@ + now.key)
}

/// The retyping a member kept under its name reports.
pub open spec fn member_retyped(ty: Seq<char>, was: MemberView, now: MemberView) -> ChangeView {
    change(Mark::Changed, ty, "type member "@ + was.name + " retyped"@, was.member_type + " to "@ + now.member_type)
}

/// A member both types carry under one name is reported moved when its key
/// changed and retyped when its type changed, each comparing the last member
/// under that name on either side.
pub proof fn lemma_kept_member_changes_are_reported(
    ty: Seq<char>,
    old: Seq<MemberView>,
    new: Seq<MemberView>,
    jo: int,
    jn: int,
)
    requires
        0 <= jo < old.len(),
        0 <= jn < new.len(),
        old[jo].name == new[jn].name,
        forall|i: int| jo < i < old.len() ==> (#[trigger] old[i]).name != old[jo].name,
        forall|i: int| jn < i < new.len() ==> (#[trigger] new[i]).name != new[jn].name,
    ensures
        old[jo].key != new[jn].key ==> member_changes(ty, old, new).contains(member_moved(ty, old[jo], new[jn])),
        old[jo].member_type != new[jn].member_type ==> member_changes(ty, old, new).contains(
            member_retyped(ty, old[jo], new[jn]),
        ),
{
    let k = old[jo].name;
    let names = names_of(old);
    assert(names[jo] == k);
    crate::order::lemma_keys_after_contains(names, jo);
    let keys = keys_after(names);
    let i = choose|i: int| 0 <= i < keys.len() && keys[i] == k;
    let bo = by_name(old);
    assert forall|x: int| jo < x < bo.len() implies (#[trigger] bo[x]).0 != k by {
        assert(bo[x].0 == old[x].name);
    }
    crate::order::lemma_last_value_is_last(bo, k, jo);
    let bn = by_name(new);
    assert forall|x: int| jn < x < bn.len() implies (#[trigger] bn[x]).0 != k by {
        assert(bn[x].0 == new[x].name);
    }
    crate::order::lemma_last_value_is_last(bn, k, jn);
    let f = member_changed_at(ty, old, new);
    let mv = member_moved(ty, old[jo], new[jn]);
    let rt = member_retyped(ty, old[jo], new[jn]);
    let one = one_if(old[jo].key != new[jn].key, mv);
    let two = one_if(old[jo].member_type != new[jn].member_type, rt);
    assert(f(i) == one + two);
    let a = concat_upto(keys_after(names_of(new)).len() as int, member_added_at(ty, old, new));
    let b = concat_upto(keys.len() as int, member_removed_at(ty, old, new));
    let d = concat_upto(keys.len() as int, f);
    assert(member_changes(ty, old, new) == a + b + d);
    if old[jo].key != new[jn].key {
        assert((one + two)[0] == mv);
        lemma_concat_upto_holds(keys.len() as int, f, i, mv);
        let x = choose|x: int| 0 <= x < d.len() && d[x] == mv;
        assert((a + b + d)[a.len() + b.len() + x] == mv);
    }
    if old[jo].member_type != new[jn].member_type {
        assert((one + two)[one.len() as int] == rt);
        lemma_concat_upto_holds(keys.len() as int, f, i, rt);
        let x = choose|x: int| 0 <= x < d.len() && d[x] == rt;
        assert((a + b + d)[a.len() + b.len() + x] == rt);
    }
}

/// Comparing two extractions reports every type the later one gained and
/// every type it lost, by name.
pub proof fn lemma_compare_reports_added_and_removed_types(before: Extraction, after: Extraction, ty: Seq<char>)
    requires
        before.wf(),
        after.wf(),
    ensures
        before.types.get_spec(ty) is None && after.types.get_spec(ty) is Some ==> all_changes(before, after).contains(
            change(Mark::Added, ty, "type added"@, Seq::empty()),
        ),
        before.types.get_spec(ty) is Some && after.types.get_spec(ty) is None ==> all_changes(before, after).contains(
            change(Mark::Removed, ty, "type removed"@, Seq::empty()),
        ),
{
    let fa = type_added_at(before.types, after.types);
    let fr = type_removed_at(before.types, after.types);
    let a = concat_upto(after.types.keys().len() as int, fa);
    let b = concat_upto(before.types.keys().len() as int, fr);
    let d = concat_upto(before.types.keys().len() as int, type_changed_at(before.types, after.types));
    let rest = count_changes(before.programs, after.programs, "program"@) + set_changes(
        before.messages,
        after.messages,
        "message"@,
    ) + set_changes(before.ui_events, after.ui_events, "ui event"@);
    assert(all_changes(before, after) =~= a + b + d + rest);
    if before.types.get_spec(ty) is None && after.types.get_spec(ty) is Some {
        let c = change(Mark::Added, ty, "type added"@, Seq::empty());
        let idx = choose|i: int| 0 <= i < after.types.keys().len() && after.types.keys()[i] == ty;
        assert(fa(idx)[0] == c);
        lemma_concat_upto_holds(after.types.keys().len() as int, fa, idx, c);
        let x = choose|x: int| 0 <= x < a.len() && a[x] == c;
        assert((a + b + d + rest)[x] == c);
    }
    if before.types.get_spec(ty) is Some && after.types.get_spec(ty) is None {
        let c = change(Mark::Removed, ty, "type removed"@, Seq::empty());
        let idx = choose|i: int| 0 <= i < before.types.keys().len() && before.types.keys()[i] == ty;
        assert(fr(idx)[0] == c);
        lemma_concat_upto_holds(before.types.keys().len() as int, fr, idx, c);
        let x = choose|x: int| 0 <= x < b.len() && b[x] == c;
        assert((a + b + d + rest)[a.len() + x] == c);
    }
}

/// Comparing two extractions reports every member a type lost: when both
/// hold a type and the earlier one's last member under some name has no
/// member of that name in the later one, the differences hold its removal.
pub proof fn lemma_compare_reports_dropped_members(before: Extraction, after: Extraction, ty: Seq<char>, j: int)
    requires
        before.wf(),
        after.wf(),
        before.types.get_spec(ty) is Some,
        after.types.get_spec(ty) is Some,
        0 <= j < before.types.get_spec(ty)->0@.members.len(),
        forall|i: int| j < i < before.types.get_spec(ty)->0@.members.len() ==> (#[trigger] before.types.get_spec(
            ty,
        )->0@.members[i]).name != before.types.get_spec(ty)->0@.members[j].name,
        forall|i: int| 0 <= i < after.types.get_spec(ty)->0@.members.len() ==> (#[trigger] after.types.get_spec(
            ty,
        )->0@.members[i]).name != before.types.get_spec(ty)->0@.members[j].name,
    ensures
        all_changes(before, after).contains(member_removed(ty, before.types.get_spec(ty)->0@.members[j])),
{
    let old = before.types.get_spec(ty)->0@;
    let new = after.types.get_spec(ty)->0@;
    let c = member_removed(ty, old.members[j]);
    lemma_dropped_member_is_reported(ty, old.members, new.members, j);
    let idx = choose|i: int| 0 <= i < before.types.keys().len() && before.types.keys()[i] == ty;
    before.types.lemma_index_unique(idx, ty);
    if old == new {
        assert(new.members[j].name == old.members[j].name);
    }
    let f = type_changed_at(before.types, after.types);
    let mc = member_changes(ty, old.members, new.members);
    let hc = header_changes(ty, old, new);
    assert(f(idx) == hc + mc);
    let y = choose|y: int| 0 <= y < mc.len() && mc[y] == c;
    assert((hc + mc)[hc.len() + y] == c);
    lemma_concat_upto_holds(before.types.keys().len() as int, f, idx, c);
    let a = concat_upto(after.types.keys().len() as int, type_added_at(before.types, after.types));
    let b = concat_upto(before.types.keys().len() as int, type_removed_at(before.types, after.types));
    let d = concat_upto(before.types.keys().len() as int, f);
    let rest = count_changes(before.programs, after.programs, "program"@) + set_changes(
        before.messages,
        after.messages,
        "message"@,
    ) + set_changes(before.ui_events, after.ui_events, "ui event"@);
    assert(all_changes(before, after) =~= a + b + d + rest);
    let x = choose|x: int| 0 <= x < d.len() && d[x] == c;
    assert((a + b + d + rest)[a.len() + b.len() + x] == c);
}

} // verus!
