//! The revision record in `enshrouded_server.kfc`.
//!
//! The executable formats its revision at runtime, so the image carries the
//! format string and not the number. The data pack beside it carries the number
//! in its header as one NUL-terminated field:
//! `<revision>|<caret path>|<timestamp>`. The caret path is Subversion syntax,
//! because Keen keeps the game content tree in Subversion and the engine tree
//! in git.
//!
//! Reading it fills a signature row's revision column, and cross-checks a build
//! fingerprint, with nothing launched.

use vstd::prelude::*;

use crate::text::{
    byte_chars, decimal, decimal_string, find_byte, first_from, is_byte, lemma_first_from, push_str,
    string_of_bytes,
};

verus! {

/// Bytes of the pack header the record is searched in.
pub const WINDOW: usize = 512;

/// Shortest run that could hold a revision, a caret path and a timestamp.
pub const MIN_RECORD: usize = 16;

/// The revision record, as the pack header states it.
#[derive(Debug, Clone, PartialEq, Eq)]
pub struct Revision {
    /// The Subversion revision number of the game content tree.
    pub number: u32,
    /// The caret path naming the branch the content came from.
    pub branch: String,
    /// The timestamp the pack was built, as written.
    pub stamp: String,
}

/// A revision record as plain values.
pub struct RevisionView {
    pub number: u32,
    pub branch: Seq<char>,
    pub stamp: Seq<char>,
}

impl View for Revision {
    type V = RevisionView;

    open spec fn view(&self) -> RevisionView {
        RevisionView { number: self.number, branch: self.branch@, stamp: self.stamp@ }
    }
}

/// Why a pack header yielded no revision.
#[derive(Debug, Clone, PartialEq, Eq)]
pub enum RevisionError {
    /// The pack is not where the server executable is.
    Missing(String),
    /// The header ends before the record does.
    Truncated {
        /// Bytes the file actually held.
        read: usize,
    },
    /// The header holds a record that does not parse.
    Malformed {
        /// What the parse expected.
        reason: &'static str,
    },
}

/// The outcome of a parse as plain values.
pub enum ParseView {
    Found(RevisionView),
    Truncated(nat),
    Malformed(Seq<char>),
}

/// The outcome of judging one run as plain values.
pub enum RunVerdict {
    /// The run holds the record.
    Found(RevisionView),
    /// The run was never a candidate.
    Skipped,
    /// The run looked like the record and failed for this reason.
    Failed(Seq<char>),
}

/// A byte that can stand in the record: printable ASCII.
pub open spec fn is_printable(b: u8) -> bool {
    0x20 <= b <= 0x7e
}

/// A decimal digit.
pub open spec fn is_digit(b: u8) -> bool {
    0x30 <= b <= 0x39
}

/// The value of a string of decimal digits.
pub open spec fn digits_value(s: Seq<u8>) -> nat
    decreases s.len(),
{
    if s.len() == 0 {
        0
    } else {
        digits_value(s.drop_last()) * 10 + (s.last() - 0x30) as nat
    }
}

/// Whether `^/` occurs in the bytes.
pub open spec fn has_caret_path(s: Seq<u8>) -> bool {
    exists|i: int| 0 <= i && i + 1 < s.len() && s[i] == 0x5e && #[trigger] s[i + 1] == 0x2f
}

/// The first `|` separator from `from` on.
pub open spec fn next_bar(s: Seq<u8>, from: int) -> Option<int> {
    first_from(s, is_byte(0x7c), from)
}

/// The reason a record with the wrong number of separators gives.
pub open spec fn reason_separators() -> Seq<char> {
    "expected two '|' separators"@
}

/// The reason a record whose first field is not a number gives.
pub open spec fn reason_not_number() -> Seq<char> {
    "the revision field is not a number"@
}

/// The reason a record whose number does not fit gives.
pub open spec fn reason_too_wide() -> Seq<char> {
    "the revision field does not fit in 32 bits"@
}

/// The reason a record whose second field is no caret path gives.
pub open spec fn reason_not_caret() -> Seq<char> {
    "the branch field is not a Subversion caret path"@
}

/// The reason a header with no candidate at all gives.
pub open spec fn reason_no_caret_field() -> Seq<char> {
    "no field carrying a Subversion caret path"@
}

/// How one printable run is judged.
pub open spec fn run_verdict(run: Seq<u8>) -> RunVerdict {
    if run.len() < MIN_RECORD || !has_caret_path(run) {
        RunVerdict::Skipped
    } else if !(next_bar(run, 0) matches Some(p1) && next_bar(run, p1 + 1) matches Some(p2) && next_bar(
        run,
        p2 + 1,
    ) is None) {
        RunVerdict::Failed(reason_separators())
    } else {
        let p1 = next_bar(run, 0)->0;
        let p2 = next_bar(run, p1 + 1)->0;
        let number = run.subrange(0, p1);
        let branch = run.subrange(p1 + 1, p2);
        let stamp = run.subrange(p2 + 1, run.len() as int);
        if number.len() == 0 || !(forall|k: int| 0 <= k < number.len() ==> is_digit(#[trigger] number[k])) {
            RunVerdict::Failed(reason_not_number())
        } else if digits_value(number) > u32::MAX {
            RunVerdict::Failed(reason_too_wide())
        } else if !(branch.len() >= 2 && branch[0] == 0x5e && branch[1] == 0x2f) {
            RunVerdict::Failed(reason_not_caret())
        } else {
            RunVerdict::Found(
                RevisionView {
                    number: digits_value(number) as u32,
                    branch: byte_chars(branch),
                    stamp: byte_chars(stamp),
                },
            )
        }
    }
}

/// Walk the window from `i` on. `start` is where the printable run in
/// progress began, and `best` is the first failure seen so far.
///
/// Each run that a non-printable byte ends is judged in turn, and the first
/// that holds the record is the answer.
pub open spec fn scan_from(w: Seq<u8>, i: int, start: Option<int>, best: Option<Seq<char>>) -> (Option<
    RevisionView,
>, Option<int>, Option<Seq<char>>)
    decreases w.len() - i,
{
    if i < 0 || i >= w.len() {
        (None, start, best)
    } else if is_printable(w[i]) {
        scan_from(w, i + 1, if start is None { Some(i) } else { start }, best)
    } else {
        match start {
            None => scan_from(w, i + 1, None, best),
            Some(from) => match run_verdict(w.subrange(from, i)) {
                RunVerdict::Found(r) => (Some(r), None, best),
                RunVerdict::Failed(reason) => scan_from(
                    w,
                    i + 1,
                    None,
                    if best is None { Some(reason) } else { best },
                ),
                RunVerdict::Skipped => scan_from(w, i + 1, None, best),
            },
        }
    }
}

/// The part of a header the record is searched in.
pub open spec fn window_of(header: Seq<u8>) -> Seq<u8> {
    header.take(if header.len() < WINDOW { header.len() as int } else { WINDOW as int })
}

/// What [`parse`] makes of a header.
pub open spec fn parse_spec(header: Seq<u8>) -> ParseView {
    let w = window_of(header);
    if w.len() < MIN_RECORD {
        ParseView::Truncated(w.len())
    } else {
        let (found, open_run, best) = scan_from(w, 0, None, None);
        match found {
            Some(r) => ParseView::Found(r),
            None => if open_run matches Some(from) && w.len() - from >= MIN_RECORD && exists|k: int|
                from <= k < w.len() && w[k] == 0x5e {
                ParseView::Truncated(header.len())
            } else {
                ParseView::Malformed(
                    match best {
                        Some(reason) => reason,
                        None => reason_no_caret_field(),
                    },
                )
            },
        }
    }
}

/// A parse result as plain values.
pub open spec fn parse_view(r: Result<Revision, RevisionError>) -> Option<ParseView> {
    match r {
        Ok(rev) => Some(ParseView::Found(rev@)),
        Err(RevisionError::Truncated { read }) => Some(ParseView::Truncated(read as nat)),
        Err(RevisionError::Malformed { reason }) => Some(ParseView::Malformed(reason@)),
        Err(RevisionError::Missing(_)) => None,
    }
}

} // verus!

verus! {

/// A run verdict as plain values.
pub open spec fn verdict_view(r: Result<Revision, Option<&'static str>>) -> RunVerdict {
    match r {
        Ok(rev) => RunVerdict::Found(rev@),
        Err(None) => RunVerdict::Skipped,
        Err(Some(reason)) => RunVerdict::Failed(reason@),
    }
}

/// Whether `^/` occurs in the bytes.
fn contains_caret_path(s: &[u8]) -> (r: bool)
    ensures
        r == has_caret_path(s@),
{
    let mut i: usize = 0;
    while s.len() > 0 && i < s.len() - 1
        invariant
            i <= s@.len(),
            forall|j: int| 0 <= j < i && j + 1 < s@.len() ==> !(s@[j] == 0x5e && #[trigger] s@[j + 1] == 0x2f),
        decreases s@.len() - i,
    {
        if s[i] == 0x5e && s[i + 1] == 0x2f {
            return true;
        }
        i = i + 1;
    }
    false
}

/// Whether every byte is a decimal digit.
fn all_digits(s: &[u8]) -> (r: bool)
    ensures
        r == forall|k: int| 0 <= k < s@.len() ==> is_digit(#[trigger] s@[k]),
{
    let mut k: usize = 0;
    while k < s.len()
        invariant
            k <= s@.len(),
            forall|j: int| 0 <= j < k ==> is_digit(#[trigger] s@[j]),
        decreases s@.len() - k,
    {
        if !(0x30 <= s[k] && s[k] <= 0x39) {
            assert(!is_digit(s@[k as int]));
            return false;
        }
        k = k + 1;
    }
    true
}

/// The value of a string of decimal digits, or `None` when it exceeds `u32`.
fn digits_u32(s: &[u8]) -> (r: Option<u32>)
    requires
        forall|k: int| 0 <= k < s@.len() ==> is_digit(#[trigger] s@[k]),
    ensures
        r matches Some(v) ==> digits_value(s@) == v,
        r is None ==> digits_value(s@) > u32::MAX,
{
    let mut acc: u64 = 0;
    let mut i: usize = 0;
    while i < s.len()
        invariant
            i <= s@.len(),
            forall|k: int| 0 <= k < s@.len() ==> is_digit(#[trigger] s@[k]),
            acc <= u32::MAX,
            digits_value(s@.take(i as int)) == acc,
        decreases s@.len() - i,
    {
        assert(s@.take(i + 1).drop_last() == s@.take(i as int));
        let next = acc * 10 + (s[i] - 0x30) as u64;
        if next > 0xFFFF_FFFF {
            proof {
                lemma_digits_grow(s@, i as int + 1);
            }
            return None;
        }
        acc = next;
        i = i + 1;
    }
    assert(s@.take(s@.len() as int) == s@);
    Some(acc as u32)
}

/// Appending digits never makes a value smaller.
proof fn lemma_digits_grow(s: Seq<u8>, i: int)
    requires
        0 <= i <= s.len(),
        forall|k: int| 0 <= k < s.len() ==> is_digit(#[trigger] s[k]),
    ensures
        digits_value(s) >= digits_value(s.take(i)),
    decreases s.len() - i,
{
    if i < s.len() {
        lemma_digits_grow(s, i + 1);
        assert(s.take(i + 1).drop_last() == s.take(i));
    } else {
        assert(s.take(i) == s);
    }
}

/// Judge one printable run.
///
/// A run holds printable ASCII alone, so it is text as it stands. `Err(None)`
/// means the run was never a candidate. `Err(Some(reason))` means
/// it looked like the record and failed, which is worth reporting.
fn evaluate(run: &[u8]) -> (r: Result<Revision, Option<&'static str>>)
    ensures
        verdict_view(r) == run_verdict(run@),
{
    if run.len() < MIN_RECORD {
        return Err(None);
    }
    if !contains_caret_path(run) {
        return Err(None);
    }
    let p1 = match find_byte(run, 0x7c, 0) {
        Some(p) => p,
        None => return Err(Some("expected two '|' separators")),
    };
    proof {
        lemma_first_from(run@, is_byte(0x7c), 0);
    }
    let p2 = match find_byte(run, 0x7c, p1 + 1) {
        Some(p) => p,
        None => return Err(Some("expected two '|' separators")),
    };
    proof {
        lemma_first_from(run@, is_byte(0x7c), p1 + 1);
    }
    if find_byte(run, 0x7c, p2 + 1).is_some() {
        return Err(Some("expected two '|' separators"));
    }
    let number = &run[0..p1];
    if p1 == 0 {
        return Err(Some("the revision field is not a number"));
    }
    if !all_digits(number) {
        return Err(Some("the revision field is not a number"));
    }
    let value = match digits_u32(number) {
        Some(v) => v,
        None => return Err(Some("the revision field does not fit in 32 bits")),
    };
    if !(p2 - p1 - 1 >= 2 && run[p1 + 1] == 0x5e && run[p1 + 2] == 0x2f) {
        return Err(Some("the branch field is not a Subversion caret path"));
    }
    Ok(
        Revision {
            number: value,
            branch: string_of_bytes(run, p1 + 1, p2),
            stamp: string_of_bytes(run, p2 + 1, run.len()),
        },
    )
}

/// Parse a pack header.
///
/// Only the first [`WINDOW`] bytes are searched. Each printable run that a
/// non-printable byte ends is judged in turn, and the first that holds the
/// record is returned.
///
/// # Errors
///
/// Returns [`RevisionError::Truncated`] when the window is shorter than any
/// record, or when a run that could hold one reaches the end of the window
/// unterminated; [`RevisionError::Malformed`] with the first candidate's
/// failure otherwise.
pub fn parse(header: &[u8]) -> (r: Result<Revision, RevisionError>)
    ensures
        parse_view(r) == Some(parse_spec(header@)),
{
    let wlen: usize = if header.len() < WINDOW {
        header.len()
    } else {
        WINDOW
    };
    if wlen < MIN_RECORD {
        return Err(RevisionError::Truncated { read: wlen });
    }
    let window = &header[0..wlen];
    assert(window@ == header@.take(wlen as int));
    let mut best: Option<&'static str> = None;
    let mut start: Option<usize> = None;
    let mut i: usize = 0;
    while i < wlen
        invariant
            i <= wlen == window@.len(),
            MIN_RECORD <= wlen,
            window@ == window_of(header@),
            start matches Some(s) ==> s < i,
            scan_from(window@, 0, None, None) == scan_from(
                window@,
                i as int,
                match start {
                    None => None,
                    Some(s) => Some(s as int),
                },
                match best {
                    None => None,
                    Some(b) => Some(b@),
                },
            ),
        decreases wlen - i,
    {
        let b = window[i];
        if 0x20 <= b && b <= 0x7e {
            if start.is_none() {
                start = Some(i);
            }
        } else {
            match start {
                None => {},
                Some(from) => {
                    let run = &window[from..i];
                    let verdict = evaluate(run);
                    assert(run@ == window@.subrange(from as int, i as int));
                    match verdict {
                        Ok(found) => {
                            assert(scan_from(window@, i as int, Some(from as int), match best {
                                None => None,
                                Some(b) => Some(b@),
                            }) == (Some(found@), None::<int>, match best {
                                None => None,
                                Some(b) => Some(b@),
                            }));
                            assert(parse_spec(header@) == ParseView::Found(found@));
                            return Ok(found);
                        },
                        Err(Some(reason)) => {
                            if best.is_none() {
                                best = Some(reason);
                            }
                        },
                        Err(None) => {},
                    }
                    start = None;
                },
            }
        }
        i = i + 1;
    }
    if let Some(from) = start {
        let caret = find_byte(window, 0x5e, from);
        if wlen - from >= MIN_RECORD && caret.is_some() {
            proof {
                lemma_first_from(window@, is_byte(0x5e), from as int);
                let k = caret->0 as int;
                assert(from <= k < window@.len() && window@[k] == 0x5e);
            }
            return Err(RevisionError::Truncated { read: header.len() });
        }
        proof {
            lemma_first_from(window@, is_byte(0x5e), from as int);
        }
    }
    let reason = match best {
        Some(reason) => reason,
        None => "no field carrying a Subversion caret path",
    };
    Err(RevisionError::Malformed { reason })
}

} // verus!

verus! {

impl RevisionError {
    /// The error as a sentence.
    pub fn message(&self) -> (out: String)
        ensures
            out@ == match self {
                RevisionError::Missing(path) => "no data pack at "@ + path@,
                RevisionError::Truncated { read } => "the pack header ends after "@ + decimal(
                    *read as nat,
                ) + " bytes, before the revision record"@,
                RevisionError::Malformed { reason } => "the pack header holds no revision record: "@
                    + reason@,
            },
    {
        let mut out = String::new();
        match self {
            RevisionError::Missing(path) => {
                push_str(&mut out, "no data pack at ");
                push_str(&mut out, path.as_str());
            },
            RevisionError::Truncated { read } => {
                push_str(&mut out, "the pack header ends after ");
                push_str(&mut out, decimal_string(*read as u64).as_str());
                push_str(&mut out, " bytes, before the revision record");
            },
            RevisionError::Malformed { reason } => {
                push_str(&mut out, "the pack header holds no revision record: ");
                push_str(&mut out, reason);
            },
        }
        out
    }
}

/// What every revision record a parse finds looks like: the branch is a
/// Subversion caret path, and neither field holds a `|`, since the two
/// separators are what delimit them.
pub open spec fn record_shape(r: RevisionView) -> bool {
    &&& r.branch.len() >= 2
    &&& r.branch[0] == '^'
    &&& r.branch[1] == '/'
    &&& forall|k: int| 0 <= k < r.branch.len() ==> #[trigger] r.branch[k] != '|'
    &&& forall|k: int| 0 <= k < r.stamp.len() ==> #[trigger] r.stamp[k] != '|'
}

/// A run judged to hold the record has the record's shape.
proof fn lemma_verdict_shape(run: Seq<u8>)
    ensures
        run_verdict(run) matches RunVerdict::Found(r) ==> record_shape(r),
{
    if let RunVerdict::Found(r) = run_verdict(run) {
        let p1 = next_bar(run, 0)->0;
        let p2 = next_bar(run, p1 + 1)->0;
        lemma_first_from(run, is_byte(0x7c), 0);
        lemma_first_from(run, is_byte(0x7c), p1 + 1);
        lemma_first_from(run, is_byte(0x7c), p2 + 1);
        let branch = run.subrange(p1 + 1, p2);
        let stamp = run.subrange(p2 + 1, run.len() as int);
        assert forall|k: int| 0 <= k < r.branch.len() implies #[trigger] r.branch[k] != '|' by {
            assert(r.branch[k] == (run[p1 + 1 + k] as char));
            assert(!is_byte(0x7c)(run[p1 + 1 + k]));
        }
        assert forall|k: int| 0 <= k < r.stamp.len() implies #[trigger] r.stamp[k] != '|' by {
            assert(r.stamp[k] == (run[p2 + 1 + k] as char));
            assert(!is_byte(0x7c)(run[p2 + 1 + k]));
        }
        assert(r.branch[0] == (branch[0] as char));
        assert(r.branch[1] == (branch[1] as char));
    }
}

/// Whatever the walk from `i` on finds has the record's shape.
proof fn lemma_scan_shape(w: Seq<u8>, i: int, start: Option<int>, best: Option<Seq<char>>)
    ensures
        scan_from(w, i, start, best).0 matches Some(r) ==> record_shape(r),
    decreases w.len() - i,
{
    if 0 <= i < w.len() {
        if is_printable(w[i]) {
            lemma_scan_shape(w, i + 1, if start is None { Some(i) } else { start }, best);
        } else {
            match start {
                None => lemma_scan_shape(w, i + 1, None, best),
                Some(from) => {
                    lemma_verdict_shape(w.subrange(from, i));
                    match run_verdict(w.subrange(from, i)) {
                        RunVerdict::Found(r) => {},
                        RunVerdict::Failed(reason) => lemma_scan_shape(
                            w,
                            i + 1,
                            None,
                            if best is None { Some(reason) } else { best },
                        ),
                        RunVerdict::Skipped => lemma_scan_shape(w, i + 1, None, best),
                    }
                },
            }
        }
    }
}

/// Every revision record a parse returns has a Subversion caret path for its
/// branch, and neither its branch nor its stamp holds a `|`.
pub proof fn lemma_parsed_record_shape(header: Seq<u8>)
    ensures
        parse_spec(header) matches ParseView::Found(r) ==> record_shape(r),
{
    lemma_scan_shape(window_of(header), 0, None, None);
}

} // verus!
