//! Text helpers every module shares.
//!
//! The logic here works on sequences of characters. A `String` is built up
//! one character at a time, and a `&str` is read into its characters first.

use vstd::prelude::*;
use vstd::std_specs::iter::IteratorSpec;

verus! {

/// Append one character to a string.
///
/// Trusted: calls `String::push`, which the standard library documents as
/// appending the character to the end of the string.
#[verifier::external_body]
pub(crate) fn push_char(s: &mut String, c: char)
    ensures
        final(s)@ == old(s)@.push(c),
{
    s.push(c);
}

/// The characters of a string slice, in order.
pub fn chars_of(s: &str) -> (out: Vec<char>)
    ensures
        out@ == s@,
{
    let mut out: Vec<char> = Vec::new();
    for c in iter: s.chars()
        invariant
            iter.seq() == s@,
            out@ == s@.take(iter.index() as int),
    {
        out.push(c);
    }
    out
}

/// A string holding exactly these characters.
pub fn string_of(cs: &[char]) -> (out: String)
    ensures
        out@ == cs@,
{
    let mut out = String::new();
    let mut i: usize = 0;
    while i < cs.len()
        invariant
            i <= cs@.len(),
            out@ == cs@.take(i as int),
        decreases cs@.len() - i,
    {
        push_char(&mut out, cs[i]);
        i = i + 1;
        assert(cs@.take(i as int) == cs@.take((i - 1) as int).push(cs@[i - 1]));
    }
    assert(cs@.take(cs@.len() as int) == cs@);
    out
}

/// The character a byte stands for when bytes are taken one to one.
pub fn byte_char(b: u8) -> (c: char)
    ensures
        c == b as char,
{
    b as char
}

} // verus!

verus! {

/// The lowercase hexadecimal digit for a value below sixteen.
pub open spec fn hex_digit(n: int) -> char {
    if n < 10 {
        (n + 48) as char
    } else {
        (n - 10 + 97) as char
    }
}

/// A byte as two lowercase hexadecimal digits, high nibble first.
pub open spec fn hex2(b: u8) -> Seq<char> {
    seq![hex_digit((b / 16) as int), hex_digit((b % 16) as int)]
}

/// Every byte of a sequence as two lowercase hexadecimal digits, in order.
pub open spec fn hex_bytes(s: Seq<u8>) -> Seq<char>
    decreases s.len(),
{
    if s.len() == 0 {
        Seq::empty()
    } else {
        hex_bytes(s.drop_last()) + hex2(s.last())
    }
}

/// The digit character for a value below sixteen.
pub fn hex_digit_char(n: u8) -> (c: char)
    requires
        n < 16,
    ensures
        c == hex_digit(n as int),
        c == (if n < 10 { (n + 48) as char } else { (n + 87) as char }),
{
    if n < 10 {
        (n + 48) as char
    } else {
        (n - 10 + 97) as char
    }
}

/// Append a byte as two lowercase hexadecimal digits.
pub fn push_hex2(s: &mut String, b: u8)
    ensures
        final(s)@ == old(s)@ + hex2(b),
{
    push_char(s, hex_digit_char(b / 16));
    push_char(s, hex_digit_char(b % 16));
    assert(final(s)@ == old(s)@ + hex2(b));
}

/// Append a string slice.
pub fn push_str(s: &mut String, t: &str)
    ensures
        final(s)@ == old(s)@ + t@,
{
    s.append(t);
}

/// Whether two string slices hold the same characters.
pub fn str_eq(a: &str, b: &str) -> (r: bool)
    ensures
        r == (a@ == b@),
{
    let x = chars_of(a);
    let y = chars_of(b);
    chars_eq(x.as_slice(), y.as_slice())
}

/// Whether two character slices are equal.
pub fn chars_eq(x: &[char], y: &[char]) -> (r: bool)
    ensures
        r == (x@ == y@),
{
    if x.len() != y.len() {
        return false;
    }
    let mut i: usize = 0;
    while i < x.len()
        invariant
            x@.len() == y@.len(),
            i <= x@.len(),
            forall|j: int| 0 <= j < i ==> x@[j] == y@[j],
        decreases x@.len() - i,
    {
        if x[i] != y[i] {
            return false;
        }
        i = i + 1;
    }
    assert(x@ =~= y@);
    true
}

} // verus!

verus! {

/// The first index from `i` on whose element satisfies `p`.
pub open spec fn first_from<A>(s: Seq<A>, p: spec_fn(A) -> bool, i: int) -> Option<int>
    decreases s.len() - i,
{
    if i < 0 || i >= s.len() {
        None
    } else if p(s[i]) {
        Some(i)
    } else {
        first_from(s, p, i + 1)
    }
}

/// What [`first_from`] finds, stated without recursion.
pub proof fn lemma_first_from<A>(s: Seq<A>, p: spec_fn(A) -> bool, i: int)
    requires
        0 <= i,
    ensures
        first_from(s, p, i) matches Some(k) ==> i <= k < s.len() && p(s[k]) && forall|j: int|
            i <= j < k ==> !p(#[trigger] s[j]),
        first_from(s, p, i) is None ==> forall|j: int| i <= j < s.len() ==> !p(#[trigger] s[j]),
    decreases s.len() - i,
{
    if i < s.len() && !p(s[i]) {
        lemma_first_from(s, p, i + 1);
    }
}

/// With no element from `from` on satisfying `p`, there is no first one.
pub proof fn lemma_first_from_none<A>(s: Seq<A>, p: spec_fn(A) -> bool, from: int)
    requires
        0 <= from,
        forall|j: int| from <= j < s.len() ==> !p(#[trigger] s[j]),
    ensures
        first_from(s, p, from) is None,
{
    lemma_first_from(s, p, from);
}

/// The first element from `from` on satisfying `p` is at `i` when `p` holds
/// there and nowhere between.
pub proof fn lemma_first_from_at<A>(s: Seq<A>, p: spec_fn(A) -> bool, from: int, i: int)
    requires
        0 <= from <= i < s.len(),
        p(s[i]),
        forall|j: int| from <= j < i ==> !p(#[trigger] s[j]),
    ensures
        first_from(s, p, from) == Some(i),
{
    lemma_first_from(s, p, from);
    if let Some(k) = first_from(s, p, from) {
        if k < i {
            assert(!p(s[k]));
        }
        if i < k {
            assert(!p(s[i]));
        }
    }
}

/// The predicate that holds of one byte value.
pub open spec fn is_byte(b: u8) -> spec_fn(u8) -> bool {
    |x: u8| x == b
}

/// The first position from `from` on holding the byte `b`.
pub fn find_byte(s: &[u8], b: u8, from: usize) -> (r: Option<usize>)
    ensures
        r matches Some(k) ==> first_from(s@, is_byte(b), from as int) == Some(k as int),
        r is None ==> first_from(s@, is_byte(b), from as int) is None,
{
    let mut i: usize = from;
    while i < s.len()
        invariant
            from <= i,
            forall|j: int| from <= j < i && j < s@.len() ==> #[trigger] s@[j] != b,
        decreases s@.len() - i,
    {
        if s[i] == b {
            proof {
                lemma_first_from_at(s@, is_byte(b), from as int, i as int);
            }
            return Some(i);
        }
        i = i + 1;
    }
    proof {
        lemma_first_from_none(s@, is_byte(b), from as int);
    }
    None
}

/// The characters bytes stand for when taken one to one.
pub open spec fn byte_chars(s: Seq<u8>) -> Seq<char> {
    Seq::new(s.len(), |i: int| s[i] as char)
}

/// A string of the bytes `lo..hi`, each taken as the character it stands for.
pub fn string_of_bytes(bytes: &[u8], lo: usize, hi: usize) -> (out: String)
    requires
        lo <= hi <= bytes@.len(),
    ensures
        out@ == byte_chars(bytes@.subrange(lo as int, hi as int)),
{
    let mut out = String::new();
    let mut i: usize = lo;
    while i < hi
        invariant
            lo <= i <= hi <= bytes@.len(),
            out@ == byte_chars(bytes@.subrange(lo as int, i as int)),
        decreases hi - i,
    {
        push_char(&mut out, byte_char(bytes[i]));
        i = i + 1;
        assert(byte_chars(bytes@.subrange(lo as int, i as int)) =~= byte_chars(
            bytes@.subrange(lo as int, (i - 1) as int),
        ).push(bytes@[i - 1] as char));
    }
    out
}

/// The decimal digits of a number, most significant first, with no leading zero.
pub open spec fn decimal(n: nat) -> Seq<char>
    decreases n,
{
    if n < 10 {
        seq![(n + 48) as char]
    } else {
        decimal(n / 10).push(((n % 10) + 48) as char)
    }
}

/// A number written in decimal.
#[verifier::rlimit(40)]
pub fn decimal_string(n: u64) -> (out: String)
    ensures
        out@ == decimal(n as nat),
{
    let mut digits: Vec<char> = Vec::new();
    let mut m: u64 = n;
    while m >= 10
        invariant
            decimal(n as nat) == decimal(m as nat) + digits@.reverse(),
        decreases m,
    {
        let d = ((m % 10) as u8 + 48) as char;
        proof {
            assert(decimal(m as nat) == decimal((m / 10) as nat).push(d));
            assert(digits@.push(d).reverse() =~= seq![d] + digits@.reverse());
            assert(decimal((m / 10) as nat).push(d) + digits@.reverse() =~= decimal((m / 10) as nat)
                + seq![d] + digits@.reverse());
        }
        digits.push(d);
        m = m / 10;
    }
    let mut out = String::new();
    push_char(&mut out, ((m as u8) + 48) as char);
    let mut i: usize = digits.len();
    while i > 0
        invariant
            i <= digits@.len(),
            decimal(n as nat) == out@ + digits@.take(i as int).reverse(),
        decreases i,
    {
        i = i - 1;
        let ghost before = out@;
        proof {
            assert(digits@.take(i + 1 as int).reverse() =~= seq![digits@[i as int]] + digits@.take(
                i as int,
            ).reverse());
        }
        push_char(&mut out, digits[i]);
        proof {
            assert(out@ + digits@.take(i as int).reverse() =~= before + seq![digits@[i as int]]
                + digits@.take(i as int).reverse());
        }
    }
    assert(digits@.take(0).reverse() =~= Seq::<char>::empty());
    assert(out@ + Seq::<char>::empty() =~= out@);
    out
}

/// A character with ASCII upper case folded to lower case.
pub open spec fn ascii_lower(c: char) -> char {
    if 'A' <= c <= 'Z' {
        ((c as u32) + 32) as char
    } else {
        c
    }
}

/// Whether two strings are equal once ASCII upper case is folded.
pub open spec fn eq_ignore_case(a: Seq<char>, b: Seq<char>) -> bool {
    a.len() == b.len() && forall|i: int| 0 <= i < a.len() ==> ascii_lower(#[trigger] a[i]) == ascii_lower(b[i])
}

/// Fold one character's ASCII upper case to lower case.
pub fn lower_char(c: char) -> (r: char)
    ensures
        r == ascii_lower(c),
{
    if 'A' <= c && c <= 'Z' {
        ((c as u8) + 32) as char
    } else {
        c
    }
}

/// Whether two character runs are equal once ASCII upper case is folded.
pub fn chars_eq_ignore_case(a: &[char], b: &[char]) -> (r: bool)
    ensures
        r == eq_ignore_case(a@, b@),
{
    if a.len() != b.len() {
        return false;
    }
    let mut i: usize = 0;
    while i < a.len()
        invariant
            a@.len() == b@.len(),
            i <= a@.len(),
            forall|j: int| 0 <= j < i ==> ascii_lower(#[trigger] a@[j]) == ascii_lower(b@[j]),
        decreases a@.len() - i,
    {
        if lower_char(a[i]) != lower_char(b[i]) {
            return false;
        }
        i = i + 1;
    }
    true
}

/// Whether the characters `lo..hi` of `s` equal `word` once ASCII upper case
/// is folded.
pub fn range_eq_ignore_case(s: &[char], lo: usize, hi: usize, word: &str) -> (r: bool)
    requires
        lo <= hi <= s@.len(),
    ensures
        r == eq_ignore_case(s@.subrange(lo as int, hi as int), word@),
{
    let w = chars_of(word);
    chars_eq_ignore_case(&s[lo..hi], w.as_slice())
}

/// A string holding the characters `lo..hi` of `s`.
pub fn string_of_range(s: &[char], lo: usize, hi: usize) -> (out: String)
    requires
        lo <= hi <= s@.len(),
    ensures
        out@ == s@.subrange(lo as int, hi as int),
{
    string_of(&s[lo..hi])
}

/// An ASCII decimal digit.
pub open spec fn is_dec(c: char) -> bool {
    '0' <= c <= '9'
}

/// The value of a run of decimal digits.
pub open spec fn dec_value(s: Seq<char>) -> nat
    decreases s.len(),
{
    if s.len() == 0 {
        0
    } else {
        dec_value(s.drop_last()) * 10 + ((s.last() as int) - 48) as nat
    }
}

/// The digits a number is written with, after an optional leading `+`.
pub open spec fn unsigned_digits(s: Seq<char>) -> Seq<char> {
    if s.len() > 0 && s[0] == '+' {
        s.drop_first()
    } else {
        s
    }
}

/// What parsing text as a `u64` gives: an optional `+`, then one or more
/// decimal digits whose value fits.
pub open spec fn spec_parse_u64(s: Seq<char>) -> Option<u64> {
    let d = unsigned_digits(s);
    if d.len() == 0 || !(forall|i: int| 0 <= i < d.len() ==> is_dec(#[trigger] d[i])) || dec_value(d)
        > u64::MAX {
        None
    } else {
        Some(dec_value(d) as u64)
    }
}

/// Appending digits never makes a value smaller.
pub proof fn lemma_dec_grows(s: Seq<char>, i: int)
    requires
        0 <= i <= s.len(),
        forall|k: int| 0 <= k < s.len() ==> is_dec(#[trigger] s[k]),
    ensures
        dec_value(s) >= dec_value(s.take(i)),
    decreases s.len() - i,
{
    if i < s.len() {
        lemma_dec_grows(s, i + 1);
        assert(s.take(i + 1).drop_last() == s.take(i));
    } else {
        assert(s.take(i) == s);
    }
}

/// Parse text as a `u64` the way `str::parse` does.
#[verifier::rlimit(40)]
pub fn parse_u64(text: &str) -> (r: Option<u64>)
    ensures
        r == spec_parse_u64(text@),
{
    let s = chars_of(text);
    let start: usize = if s.len() > 0 && s[0] == '+' {
        1
    } else {
        0
    };
    let ghost d = unsigned_digits(s@);
    proof {
        assert(d == s@.subrange(start as int, s@.len() as int));
    }
    if start == s.len() {
        return None;
    }
    let mut acc: u64 = 0;
    let mut i: usize = start;
    while i < s.len()
        invariant
            start <= i <= s@.len(),
            s@ == text@,
            d == unsigned_digits(s@),
            d == s@.subrange(start as int, s@.len() as int),
            forall|k: int| 0 <= k < i - start ==> is_dec(#[trigger] d[k]),
            dec_value(d.take(i - start)) == acc,
        decreases s@.len() - i,
    {
        let c = s[i];
        if !('0' <= c && c <= '9') {
            assert(!is_dec(d[i - start]));
            return None;
        }
        assert(d.take(i - start + 1).drop_last() == d.take(i - start));
        let next: u128 = (acc as u128) * 10 + ((c as u32) - 48) as u128;
        if next > 0xFFFF_FFFF_FFFF_FFFF {
            proof {
                if forall|j: int| 0 <= j < d.len() ==> is_dec(#[trigger] d[j]) {
                    lemma_dec_grows(d, i - start + 1);
                }
            }
            return None;
        }
        acc = next as u64;
        i = i + 1;
    }
    assert(d.take(d.len() as int) == d);
    Some(acc)
}

/// A control character that a debug rendering writes as a `\\u{..}` escape.
pub open spec fn is_escaped_control(c: char) -> bool {
    (c as u32) < 0x20 || (0x7f <= (c as u32) && (c as u32) < 0xa0)
}

/// The lowercase hexadecimal digits of a value below 256, with no leading zero.
pub open spec fn short_hex(v: int) -> Seq<char> {
    if v < 16 {
        seq![hex_digit(v)]
    } else {
        seq![hex_digit(v / 16), hex_digit(v % 16)]
    }
}

/// How one character is written inside a debug rendering quoted by `quote`.
///
/// Tab, carriage return, line feed, backslash, NUL and the quote get a
/// backslash escape, and the C0 and C1 control characters a `\\u{..}` escape.
/// Every other character is written as it is.
pub open spec fn escape_char(c: char, quote: char) -> Seq<char> {
    if c == '\t' {
        seq!['\\', 't']
    } else if c == '\r' {
        seq!['\\', 'r']
    } else if c == '\n' {
        seq!['\\', 'n']
    } else if c == '\\' {
        seq!['\\', '\\']
    } else if c == '\0' {
        seq!['\\', '0']
    } else if c == quote {
        seq!['\\', quote]
    } else if is_escaped_control(c) {
        seq!['\\', 'u', '{'] + short_hex(c as u32 as int) + seq!['}']
    } else {
        seq![c]
    }
}

/// Every character of a string escaped for a debug rendering quoted by `quote`.
pub open spec fn escape_all(s: Seq<char>, quote: char) -> Seq<char>
    decreases s.len(),
{
    if s.len() == 0 {
        Seq::empty()
    } else {
        escape_all(s.drop_last(), quote) + escape_char(s.last(), quote)
    }
}

/// A string as its debug rendering shows it: in double quotes, escaped.
pub open spec fn debug_str_text(s: Seq<char>) -> Seq<char> {
    seq!['"'] + escape_all(s, '"') + seq!['"']
}

/// A character as its debug rendering shows it: in single quotes, escaped.
pub open spec fn debug_char_text(c: char) -> Seq<char> {
    seq!['\''] + escape_char(c, '\'') + seq!['\'']
}

/// Append one character escaped for a debug rendering quoted by `quote`.
pub fn push_escaped(out: &mut String, c: char, quote: char)
    ensures
        final(out)@ == old(out)@ + escape_char(c, quote),
{
    if c == '\t' {
        push_char(out, '\\');
        push_char(out, 't');
    } else if c == '\r' {
        push_char(out, '\\');
        push_char(out, 'r');
    } else if c == '\n' {
        push_char(out, '\\');
        push_char(out, 'n');
    } else if c == '\\' {
        push_char(out, '\\');
        push_char(out, '\\');
    } else if c == '\0' {
        push_char(out, '\\');
        push_char(out, '0');
    } else if c == quote {
        push_char(out, '\\');
        push_char(out, quote);
    } else if (c as u32) < 0x20 || (0x7f <= (c as u32) && (c as u32) < 0xa0) {
        let v = c as u32;
        push_char(out, '\\');
        push_char(out, 'u');
        push_char(out, '{');
        if v < 16 {
            push_char(out, hex_digit_char(v as u8));
        } else {
            push_char(out, hex_digit_char((v / 16) as u8));
            push_char(out, hex_digit_char((v % 16) as u8));
        }
        push_char(out, '}');
    } else {
        push_char(out, c);
    }
}

/// A string as its debug rendering shows it.
pub fn debug_str(s: &str) -> (out: String)
    ensures
        out@ == debug_str_text(s@),
{
    let cs = chars_of(s);
    let mut out = String::new();
    push_char(&mut out, '"');
    let mut i: usize = 0;
    while i < cs.len()
        invariant
            i <= cs@.len(),
            out@ == seq!['"'] + escape_all(cs@.take(i as int), '"'),
        decreases cs@.len() - i,
    {
        push_escaped(&mut out, cs[i], '"');
        i = i + 1;
        assert(cs@.take(i as int).drop_last() == cs@.take(i - 1));
    }
    push_char(&mut out, '"');
    assert(cs@.take(cs@.len() as int) == cs@);
    out
}

/// A character as its debug rendering shows it.
pub fn debug_char(c: char) -> (out: String)
    ensures
        out@ == debug_char_text(c),
{
    let mut out = String::new();
    push_char(&mut out, '\'');
    push_escaped(&mut out, c, '\'');
    push_char(&mut out, '\'');
    out
}

/// A character Unicode calls white space, as `char::is_whitespace` does.
pub open spec fn is_ws(c: char) -> bool {
    c == ' ' || ('\t' <= c <= '\r') || c == '\u{85}' || c == '\u{a0}' || c == '\u{1680}' || ('\u{2000}'
        <= c <= '\u{200a}') || c == '\u{2028}' || c == '\u{2029}' || c == '\u{202f}' || c == '\u{205f}'
        || c == '\u{3000}'
}

/// Whether a character is white space.
pub fn is_ws_char(c: char) -> (r: bool)
    ensures
        r == is_ws(c),
{
    c == ' ' || ('\t' <= c && c <= '\r') || c == '\u{85}' || c == '\u{a0}' || c == '\u{1680}' || ('\u{2000}'
        <= c && c <= '\u{200a}') || c == '\u{2028}' || c == '\u{2029}' || c == '\u{202f}' || c
        == '\u{205f}' || c == '\u{3000}'
}

/// The predicate that holds of anything but white space.
pub open spec fn not_ws() -> spec_fn(char) -> bool {
    |c: char| !is_ws(c)
}

/// The text with its leading white space removed.
pub open spec fn trim_start(s: Seq<char>) -> Seq<char> {
    match first_from(s, not_ws(), 0) {
        Some(k) => s.subrange(k, s.len() as int),
        None => Seq::empty(),
    }
}

/// The text with its trailing white space removed.
pub open spec fn trim_end(s: Seq<char>) -> Seq<char>
    decreases s.len(),
{
    if s.len() == 0 {
        s
    } else if is_ws(s.last()) {
        trim_end(s.drop_last())
    } else {
        s
    }
}

/// The text with white space removed at both ends.
pub open spec fn trim(s: Seq<char>) -> Seq<char> {
    trim_end(trim_start(s))
}

/// Drop leading white space.
pub fn trim_start_chars(s: &[char]) -> (r: Vec<char>)
    ensures
        r@ == trim_start(s@),
{
    let mut k: usize = 0;
    while k < s.len() && is_ws_char(s[k])
        invariant
            k <= s@.len(),
            forall|j: int| 0 <= j < k ==> is_ws(#[trigger] s@[j]),
        decreases s@.len() - k,
    {
        k = k + 1;
    }
    proof {
        if k < s.len() {
            lemma_first_from_at(s@, not_ws(), 0, k as int);
        } else {
            lemma_first_from_none(s@, not_ws(), 0);
        }
    }
    let mut r: Vec<char> = Vec::new();
    let mut i = k;
    while i < s.len()
        invariant
            k <= i <= s@.len(),
            r@ == s@.subrange(k as int, i as int),
        decreases s@.len() - i,
    {
        r.push(s[i]);
        i = i + 1;
        assert(r@ =~= s@.subrange(k as int, i as int));
    }
    proof {
        if k == s.len() {
            assert(r@ =~= Seq::<char>::empty());
        }
    }
    r
}

/// Drop trailing white space.
pub fn trim_end_chars(s: &[char]) -> (r: Vec<char>)
    ensures
        r@ == trim_end(s@),
{
    let mut n: usize = s.len();
    assert(s@.take(n as int) == s@);
    while n > 0 && is_ws_char(s[n - 1])
        invariant
            n <= s@.len(),
            trim_end(s@) == trim_end(s@.take(n as int)),
        decreases n,
    {
        assert(s@.take(n as int).drop_last() == s@.take(n - 1));
        n = n - 1;
    }
    let mut r: Vec<char> = Vec::new();
    let mut i: usize = 0;
    while i < n
        invariant
            i <= n <= s@.len(),
            r@ == s@.subrange(0, i as int),
        decreases n - i,
    {
        r.push(s[i]);
        i = i + 1;
        assert(r@ =~= s@.subrange(0, i as int));
    }
    proof {
        assert(r@ =~= s@.take(n as int));
        if n > 0 {
            assert(s@.take(n as int).last() == s@[n - 1]);
        }
    }
    r
}

/// Drop white space at both ends.
pub fn trim_chars(s: &[char]) -> (r: Vec<char>)
    ensures
        r@ == trim(s@),
{
    let a = trim_start_chars(s);
    trim_end_chars(a.as_slice())
}

/// Whether `pat` occurs in `s` at position `i`.
pub open spec fn occurs_at(s: Seq<char>, pat: Seq<char>, i: int) -> bool {
    0 <= i && i + pat.len() <= s.len() && s.subrange(i, i + pat.len()) == pat
}

/// The first position from `from` on where `pat` occurs.
pub open spec fn find_from(s: Seq<char>, pat: Seq<char>, from: int) -> Option<int> {
    first_from(Seq::new(s.len() + 1, |k: int| k), |k: int| occurs_at(s, pat, k), from)
}

/// Where [`find_from`] finds a pattern, it occurs, and nowhere before.
pub proof fn lemma_find_from(s: Seq<char>, pat: Seq<char>, from: int)
    requires
        0 <= from,
    ensures
        find_from(s, pat, from) matches Some(k) ==> from <= k <= s.len() && occurs_at(s, pat, k) && forall|j: int|
            from <= j < k ==> !occurs_at(s, pat, j),
{
    let idx = Seq::new(s.len() + 1, |k: int| k);
    let p = |k: int| occurs_at(s, pat, k);
    lemma_first_from(idx, p, from);
    if let Some(k) = find_from(s, pat, from) {
        assert(p(idx[k]));
        assert forall|j: int| from <= j < k implies !occurs_at(s, pat, j) by {
            assert(!p(idx[j]));
        }
    }
}

/// Whether `pat` occurs in `s` at position `i`.
pub fn occurs_at_exec(s: &[char], pat: &[char], i: usize) -> (r: bool)
    ensures
        r == occurs_at(s@, pat@, i as int),
{
    if i > s.len() || pat.len() > s.len() - i {
        return false;
    }
    let mut k: usize = 0;
    while k < pat.len()
        invariant
            i + pat@.len() <= s.len(),
            k <= pat@.len(),
            forall|j: int| 0 <= j < k ==> s@[i + j] == #[trigger] pat@[j],
        decreases pat@.len() - k,
    {
        if s[i + k] != pat[k] {
            assert(s@.subrange(i as int, i + pat@.len())[k as int] != pat@[k as int]);
            return false;
        }
        k = k + 1;
    }
    assert(s@.subrange(i as int, i + pat@.len()) =~= pat@);
    true
}

/// The first position from `from` on where `pat` occurs.
pub fn find_chars(s: &[char], pat: &[char], from: usize) -> (r: Option<usize>)
    ensures
        match r {
            Some(k) => find_from(s@, pat@, from as int) == Some(k as int),
            None => find_from(s@, pat@, from as int) is None,
        },
        s@.len() <= usize::MAX,
{
    let ghost idx = Seq::new(s@.len() + 1, |k: int| k);
    let ghost p = |k: int| occurs_at(s@, pat@, k);
    let len = s.len();
    let mut k: usize = from;
    while k <= len
        invariant
            len == s@.len(),
            from <= k,
            idx == Seq::new(s@.len() + 1, |k: int| k),
            p == (|k: int| occurs_at(s@, pat@, k)),
            forall|j: int| from <= j < k && j < idx.len() ==> !p(#[trigger] idx[j]),
        ensures
            forall|j: int| from <= j < idx.len() ==> !p(#[trigger] idx[j]),
        decreases s@.len() + 1 - k,
    {
        if occurs_at_exec(s, pat, k) {
            proof {
                lemma_first_from_at(idx, p, from as int, k as int);
            }
            return Some(k);
        }
        if k == len {
            break;
        }
        k = k + 1;
    }
    proof {
        lemma_first_from_none(idx, p, from as int);
    }
    None
}

/// Whether `s` begins with `prefix`.
pub fn starts_with_chars(s: &[char], prefix: &str) -> (r: bool)
    ensures
        r == occurs_at(s@, prefix@, 0),
{
    let p = chars_of(prefix);
    occurs_at_exec(s, p.as_slice(), 0)
}

/// A line with one trailing carriage return dropped.
pub open spec fn strip_cr(s: Seq<char>) -> Seq<char> {
    if s.len() > 0 && s.last() == '\r' {
        s.drop_last()
    } else {
        s
    }
}

/// The lines of a text as `str::lines` splits it: at each line feed, with a
/// carriage return before it dropped, and no empty line after a final one.
pub open spec fn spec_lines(s: Seq<char>) -> Seq<Seq<char>>
    decreases s.len(),
    via lemma_spec_lines_decreases
{
    if s.len() == 0 {
        Seq::empty()
    } else {
        match first_from(s, |c: char| c == '\n', 0) {
            None => seq![s],
            Some(i) => seq![strip_cr(s.take(i))] + spec_lines(s.subrange(i + 1, s.len() as int)),
        }
    }
}

/// Each line [`spec_lines`] splits off leaves less text behind.
#[via_fn]
proof fn lemma_spec_lines_decreases(s: Seq<char>) {
    lemma_first_from(s, |c: char| c == '\n', 0);
}

/// The lines of a text.
pub fn lines(text: &str) -> (out: Vec<Vec<char>>)
    ensures
        out@.len() == spec_lines(text@).len(),
        forall|i: int| 0 <= i < out@.len() ==> #[trigger] out@[i]@ == spec_lines(text@)[i],
{
    let s = chars_of(text);
    let mut out: Vec<Vec<char>> = Vec::new();
    let mut pos: usize = 0;
    let ghost whole = spec_lines(s@);
    assert(s@.subrange(0, s@.len() as int) == s@);
    assert(Seq::new(out@.len(), |i: int| out@[i]@) + whole =~= whole);
    while pos < s.len()
        invariant
            s@ == text@,
            pos <= s@.len(),
            whole == spec_lines(s@),
            Seq::new(out@.len(), |i: int| out@[i]@) + spec_lines(s@.subrange(pos as int, s@.len() as int))
                == whole,
        decreases s@.len() - pos,
    {
        let ghost rest = s@.subrange(pos as int, s@.len() as int);
        let ghost before = Seq::new(out@.len(), |i: int| out@[i]@);
        let mut end = pos;
        while end < s.len() && s[end] != '\n'
            invariant
                pos <= end <= s@.len(),
                forall|j: int| pos <= j < end ==> #[trigger] s@[j] != '\n',
            decreases s@.len() - end,
        {
            end = end + 1;
        }
        let mut line: Vec<char> = Vec::new();
        let mut i = pos;
        while i < end
            invariant
                pos <= i <= end,
                end <= s@.len(),
                line@ == s@.subrange(pos as int, i as int),
            decreases end - i,
        {
            line.push(s[i]);
            i = i + 1;
            assert(line@ =~= s@.subrange(pos as int, i as int));
        }
        if end < s.len() && line.len() > 0 && line[line.len() - 1] == '\r' {
            line.pop();
        }
        proof {
            assert(forall|j: int| 0 <= j < end - pos ==> #[trigger] rest[j] == s@[pos + j]);
            if end < s.len() {
                lemma_first_from_at(rest, |c: char| c == '\n', 0, end - pos);
                assert(rest.take(end - pos) =~= s@.subrange(pos as int, end as int));
                assert(rest.subrange(end - pos + 1, rest.len() as int) =~= s@.subrange(end + 1, s@.len() as int));
            } else {
                lemma_first_from_none(rest, |c: char| c == '\n', 0);
                assert(rest =~= s@.subrange(pos as int, end as int));
            }
        }
        out.push(line);
        proof {
            if end < s.len() {
                assert(Seq::new(out@.len(), |i: int| out@[i]@) =~= before.push(strip_cr(s@.subrange(pos as int, end as int))));
            } else {
                assert(Seq::new(out@.len(), |i: int| out@[i]@) =~= before.push(s@.subrange(pos as int, end as int)));
            }
        }
        if end == s.len() {
            proof {
                assert(spec_lines(s@.subrange(s@.len() as int, s@.len() as int)) =~= Seq::<Seq<char>>::empty());
                assert(Seq::new(out@.len(), |i: int| out@[i]@) =~= before + spec_lines(rest));
            }
            pos = end;
        } else {
            proof {
                assert(Seq::new(out@.len(), |i: int| out@[i]@) + spec_lines(s@.subrange(end + 1, s@.len() as int))
                    =~= before + spec_lines(rest));
            }
            pos = end + 1;
        }
    }
    proof {
        assert(s@.subrange(pos as int, s@.len() as int) =~= Seq::<char>::empty());
        assert(Seq::new(out@.len(), |i: int| out@[i]@) =~= whole);
        assert forall|i: int| 0 <= i < out@.len() implies #[trigger] out@[i]@ == whole[i] by {
            assert(Seq::new(out@.len(), |i: int| out@[i]@)[i] == out@[i]@);
        }
    }
    out
}

/// A hexadecimal digit of either case.
pub open spec fn is_hex(c: char) -> bool {
    ('0' <= c <= '9') || ('a' <= c <= 'f') || ('A' <= c <= 'F')
}

/// The value of one hexadecimal digit.
pub open spec fn hex_val(c: char) -> int {
    if '0' <= c <= '9' {
        (c as int) - 48
    } else if 'a' <= c <= 'f' {
        (c as int) - 87
    } else {
        (c as int) - 55
    }
}

/// The value of a run of hexadecimal digits.
pub open spec fn hex_value(s: Seq<char>) -> nat
    decreases s.len(),
{
    if s.len() == 0 {
        0
    } else {
        hex_value(s.drop_last()) * 16 + hex_val(s.last()) as nat
    }
}

/// What parsing text as a hexadecimal `u64` gives: an optional `+`, then one
/// or more hexadecimal digits whose value fits.
pub open spec fn spec_parse_hex(s: Seq<char>) -> Option<u64> {
    let d = unsigned_digits(s);
    if d.len() == 0 || !(forall|i: int| 0 <= i < d.len() ==> is_hex(#[trigger] d[i])) || hex_value(d)
        > u64::MAX {
        None
    } else {
        Some(hex_value(d) as u64)
    }
}

/// Appending hexadecimal digits never makes a value smaller.
pub proof fn lemma_hex_grows(s: Seq<char>, i: int)
    requires
        0 <= i <= s.len(),
        forall|k: int| 0 <= k < s.len() ==> is_hex(#[trigger] s[k]),
    ensures
        hex_value(s) >= hex_value(s.take(i)),
    decreases s.len() - i,
{
    if i < s.len() {
        lemma_hex_grows(s, i + 1);
        assert(s.take(i + 1).drop_last() == s.take(i));
    } else {
        assert(s.take(i) == s);
    }
}

/// Parse characters as a hexadecimal `u64` the way `u64::from_str_radix` does.
#[verifier::rlimit(40)]
pub fn parse_hex(s: &[char]) -> (r: Option<u64>)
    ensures
        r == spec_parse_hex(s@),
{
    let start: usize = if s.len() > 0 && s[0] == '+' {
        1
    } else {
        0
    };
    let ghost d = unsigned_digits(s@);
    proof {
        assert(d == s@.subrange(start as int, s@.len() as int));
    }
    if start == s.len() {
        return None;
    }
    let mut acc: u64 = 0;
    let mut i: usize = start;
    while i < s.len()
        invariant
            start <= i <= s@.len(),
            d == unsigned_digits(s@),
            d == s@.subrange(start as int, s@.len() as int),
            forall|k: int| 0 <= k < i - start ==> is_hex(#[trigger] d[k]),
            hex_value(d.take(i - start)) == acc,
        decreases s@.len() - i,
    {
        let c = s[i];
        let v: u32 = if '0' <= c && c <= '9' {
            (c as u32) - 48
        } else if 'a' <= c && c <= 'f' {
            (c as u32) - 87
        } else if 'A' <= c && c <= 'F' {
            (c as u32) - 55
        } else {
            assert(!is_hex(d[i - start]));
            return None;
        };
        assert(d.take(i - start + 1).drop_last() == d.take(i - start));
        let next: u128 = (acc as u128) * 16 + v as u128;
        if next > 0xFFFF_FFFF_FFFF_FFFF {
            proof {
                if forall|j: int| 0 <= j < d.len() ==> is_hex(#[trigger] d[j]) {
                    lemma_hex_grows(d, i - start + 1);
                }
            }
            return None;
        }
        acc = next as u64;
        i = i + 1;
    }
    assert(d.take(d.len() as int) == d);
    Some(acc)
}

/// The lowercase hexadecimal digits of a number, with no leading zero.
pub open spec fn hex_text(n: nat) -> Seq<char>
    decreases n,
{
    if n < 16 {
        seq![hex_digit(n as int)]
    } else {
        hex_text(n / 16).push(hex_digit((n % 16) as int))
    }
}

/// A number written in lowercase hexadecimal.
#[verifier::rlimit(40)]
pub fn hex_string(n: u64) -> (out: String)
    ensures
        out@ == hex_text(n as nat),
{
    let mut digits: Vec<char> = Vec::new();
    let mut m: u64 = n;
    while m >= 16
        invariant
            hex_text(n as nat) == hex_text(m as nat) + digits@.reverse(),
        decreases m,
    {
        let d = hex_digit_char((m % 16) as u8);
        proof {
            assert(hex_text(m as nat) == hex_text((m / 16) as nat).push(d));
            assert(digits@.push(d).reverse() =~= seq![d] + digits@.reverse());
            assert(hex_text((m / 16) as nat).push(d) + digits@.reverse() =~= hex_text((m / 16) as nat)
                + seq![d] + digits@.reverse());
        }
        digits.push(d);
        m = m / 16;
    }
    let mut out = String::new();
    push_char(&mut out, hex_digit_char(m as u8));
    let mut i: usize = digits.len();
    while i > 0
        invariant
            i <= digits@.len(),
            hex_text(n as nat) == out@ + digits@.take(i as int).reverse(),
        decreases i,
    {
        i = i - 1;
        let ghost before = out@;
        proof {
            assert(digits@.take(i + 1 as int).reverse() =~= seq![digits@[i as int]] + digits@.take(
                i as int,
            ).reverse());
        }
        push_char(&mut out, digits[i]);
        proof {
            assert(out@ + digits@.take(i as int).reverse() =~= before + seq![digits@[i as int]]
                + digits@.take(i as int).reverse());
        }
    }
    assert(digits@.take(0).reverse() =~= Seq::<char>::empty());
    assert(out@ + Seq::<char>::empty() =~= out@);
    out
}

/// A signed number written in decimal, with a minus sign when negative.
pub open spec fn signed_decimal(n: int) -> Seq<char> {
    if n < 0 {
        seq!['-'] + decimal((-n) as nat)
    } else {
        decimal(n as nat)
    }
}

/// A signed number written in decimal.
pub fn signed_decimal_string(n: i32) -> (out: String)
    ensures
        out@ == signed_decimal(n as int),
{
    if n < 0 {
        let mut out = String::new();
        push_char(&mut out, '-');
        let magnitude: u64 = (-(n as i64)) as u64;
        push_str(&mut out, decimal_string(magnitude).as_str());
        out
    } else {
        decimal_string(n as u64)
    }
}

/// The text from `pos` on with every occurrence of a non-empty `pat`, taken
/// left to right without overlap, replaced by `with`.
pub open spec fn replace_from(s: Seq<char>, pat: Seq<char>, with: Seq<char>, pos: int) -> Seq<char>
    decreases s.len() - pos,
    via lemma_replace_from_decreases
{
    if pat.len() == 0 || pos < 0 || pos > s.len() {
        s
    } else {
        match find_from(s, pat, pos) {
            None => s.subrange(pos, s.len() as int),
            Some(k) => s.subrange(pos, k) + with + replace_from(s, pat, with, k + pat.len()),
        }
    }
}

/// An occurrence found from `pos` on ends past `pos`.
#[via_fn]
proof fn lemma_replace_from_decreases(s: Seq<char>, pat: Seq<char>, with: Seq<char>, pos: int) {
    if pat.len() > 0 && 0 <= pos <= s.len() {
        lemma_find_from(s, pat, pos);
    }
}

/// The text with every occurrence of a non-empty `pat` replaced by `with`, as
/// `str::replace` does.
pub open spec fn replace_all(s: Seq<char>, pat: Seq<char>, with: Seq<char>) -> Seq<char> {
    replace_from(s, pat, with, 0)
}

/// Replace every occurrence of a non-empty pattern.
pub fn replace_chars(s: &[char], pat: &[char], with: &[char]) -> (out: Vec<char>)
    requires
        pat@.len() > 0,
    ensures
        out@ == replace_all(s@, pat@, with@),
{
    let mut out: Vec<char> = Vec::new();
    let mut pos: usize = 0;
    loop
        invariant
            pat@.len() > 0,
            pos <= s@.len(),
            out@ + replace_from(s@, pat@, with@, pos as int) == replace_all(s@, pat@, with@),
        decreases s@.len() - pos,
    {
        let ghost before = out@;
        match find_chars(s, pat, pos) {
            None => {
                let mut i = pos;
                while i < s.len()
                    invariant
                        pos <= i <= s@.len(),
                        out@ == before + s@.subrange(pos as int, i as int),
                    decreases s@.len() - i,
                {
                    out.push(s[i]);
                    i = i + 1;
                    assert(out@ =~= before + s@.subrange(pos as int, i as int));
                }
                return out;
            },
            Some(k) => {
                proof {
                    lemma_find_from(s@, pat@, pos as int);
                }
                let mut i = pos;
                while i < k
                    invariant
                        pos <= i <= k,
                        k + pat@.len() <= s@.len(),
                        out@ == before + s@.subrange(pos as int, i as int),
                    decreases k - i,
                {
                    out.push(s[i]);
                    i = i + 1;
                    assert(out@ =~= before + s@.subrange(pos as int, i as int));
                }
                let mut j: usize = 0;
                while j < with.len()
                    invariant
                        j <= with@.len(),
                        pos <= k,
                        k + pat@.len() <= s.len(),
                        out@ == before + s@.subrange(pos as int, k as int) + with@.take(j as int),
                    decreases with@.len() - j,
                {
                    out.push(with[j]);
                    j = j + 1;
                    assert(out@ =~= before + s@.subrange(pos as int, k as int) + with@.take(j as int));
                }
                proof {
                    assert(with@.take(with@.len() as int) == with@);
                    assert(out@ + replace_from(s@, pat@, with@, k + pat@.len()) =~= before + replace_from(s@, pat@, with@, pos as int));
                }
                pos = k + pat.len();
            },
        }
    }
}

/// The last position at or below `hi` where `pat` occurs.
pub open spec fn rfind_from(s: Seq<char>, pat: Seq<char>, hi: int) -> Option<int>
    decreases hi + 1,
{
    if hi < 0 {
        None
    } else if occurs_at(s, pat, hi) {
        Some(hi)
    } else {
        rfind_from(s, pat, hi - 1)
    }
}

/// The last position where `pat` occurs.
pub open spec fn rfind(s: Seq<char>, pat: Seq<char>) -> Option<int> {
    rfind_from(s, pat, s.len() - pat.len())
}

/// The last position where `pat` occurs.
pub fn rfind_chars(s: &[char], pat: &[char]) -> (r: Option<usize>)
    ensures
        match r {
            Some(k) => rfind(s@, pat@) == Some(k as int) && k + pat@.len() <= s@.len(),
            None => rfind(s@, pat@) is None,
        },
        s@.len() <= usize::MAX,
{
    let len = s.len();
    if pat.len() > len {
        return None;
    }
    let mut k: usize = len - pat.len();
    loop
        invariant
            len == s@.len(),
            k + pat@.len() <= s@.len(),
            rfind(s@, pat@) == rfind_from(s@, pat@, k as int),
        decreases k,
    {
        if occurs_at_exec(s, pat, k) {
            return Some(k);
        }
        if k == 0 {
            assert(rfind_from(s@, pat@, -1) is None);
            return None;
        }
        k = k - 1;
    }
}

/// The words of a text as `str::split_whitespace` splits it, from `i` on.
pub open spec fn tokens_from(s: Seq<char>, i: int) -> Seq<Seq<char>>
    decreases s.len() - i,
    via lemma_tokens_from_decreases
{
    if i < 0 || i >= s.len() {
        Seq::empty()
    } else {
        match first_from(s, not_ws(), i) {
            None => Seq::empty(),
            Some(st) => {
                let e = match first_from(s, |c: char| is_ws(c), st) {
                    Some(e) => e,
                    None => s.len() as int,
                };
                seq![s.subrange(st, e)] + tokens_from(s, e)
            },
        }
    }
}

/// Each word [`tokens_from`] splits off leaves less text behind.
#[via_fn]
proof fn lemma_tokens_from_decreases(s: Seq<char>, i: int) {
    if 0 <= i < s.len() {
        lemma_first_from(s, not_ws(), i);
        if let Some(st) = first_from(s, not_ws(), i) {
            lemma_first_from(s, |c: char| is_ws(c), st);
            if let Some(e) = first_from(s, |c: char| is_ws(c), st) {
                if e == st {
                    assert(!is_ws(s[st]));
                }
            }
        }
    }
}

/// The words of a text as `str::split_whitespace` splits it.
pub open spec fn tokens(s: Seq<char>) -> Seq<Seq<char>> {
    tokens_from(s, 0)
}

/// The words of a text.
pub fn split_whitespace(s: &[char]) -> (out: Vec<Vec<char>>)
    ensures
        out@.len() == tokens(s@).len(),
        forall|i: int| 0 <= i < out@.len() ==> #[trigger] out@[i]@ == tokens(s@)[i],
{
    let mut out: Vec<Vec<char>> = Vec::new();
    let mut i: usize = 0;
    let ghost whole = tokens(s@);
    while i < s.len()
        invariant
            i <= s@.len(),
            whole == tokens(s@),
            Seq::new(out@.len(), |k: int| out@[k]@) + tokens_from(s@, i as int) == whole,
        decreases s@.len() - i,
    {
        let ghost before = Seq::new(out@.len(), |k: int| out@[k]@);
        let mut st = i;
        while st < s.len() && is_ws_char(s[st])
            invariant
                i <= st <= s@.len(),
                forall|j: int| i <= j < st ==> is_ws(#[trigger] s@[j]),
            decreases s@.len() - st,
        {
            st = st + 1;
        }
        if st == s.len() {
            proof {
                lemma_first_from_none(s@, not_ws(), i as int);
                assert(tokens_from(s@, i as int) =~= Seq::<Seq<char>>::empty());
                assert(tokens_from(s@, s@.len() as int) =~= Seq::<Seq<char>>::empty());
            }
            i = st;
        } else {
            proof {
                lemma_first_from_at(s@, not_ws(), i as int, st as int);
            }
            let mut e = st;
            while e < s.len() && !is_ws_char(s[e])
                invariant
                    st <= e <= s@.len(),
                    forall|j: int| st <= j < e ==> !is_ws(#[trigger] s@[j]),
                decreases s@.len() - e,
            {
                e = e + 1;
            }
            proof {
                if e < s.len() {
                    lemma_first_from_at(s@, |c: char| is_ws(c), st as int, e as int);
                } else {
                    lemma_first_from_none(s@, |c: char| is_ws(c), st as int);
                }
            }
            let mut word: Vec<char> = Vec::new();
            let mut k = st;
            while k < e
                invariant
                    st <= k <= e <= s@.len(),
                    word@ == s@.subrange(st as int, k as int),
                decreases e - k,
            {
                word.push(s[k]);
                k = k + 1;
                assert(word@ =~= s@.subrange(st as int, k as int));
            }
            out.push(word);
            proof {
                assert(Seq::new(out@.len(), |k: int| out@[k]@) =~= before.push(s@.subrange(st as int, e as int)));
                assert(Seq::new(out@.len(), |k: int| out@[k]@) + tokens_from(s@, e as int) =~= before + tokens_from(s@, i as int));
            }
            i = e;
        }
    }
    proof {
        assert(tokens_from(s@, i as int) =~= Seq::<Seq<char>>::empty());
        assert(Seq::new(out@.len(), |k: int| out@[k]@) =~= whole);
        assert forall|k: int| 0 <= k < out@.len() implies #[trigger] out@[k]@ == whole[k] by {
            assert(Seq::new(out@.len(), |k: int| out@[k]@)[k] == out@[k]@);
        }
    }
    out
}

/// Text with ASCII upper case folded to lower case.
pub open spec fn ascii_lowercase(s: Seq<char>) -> Seq<char> {
    Seq::new(s.len(), |i: int| ascii_lower(s[i]))
}

/// Fold ASCII upper case to lower case.
pub fn to_ascii_lowercase(s: &[char]) -> (r: Vec<char>)
    ensures
        r@ == ascii_lowercase(s@),
{
    let mut r: Vec<char> = Vec::new();
    let mut i: usize = 0;
    while i < s.len()
        invariant
            i <= s@.len(),
            r@ == ascii_lowercase(s@.take(i as int)),
        decreases s@.len() - i,
    {
        r.push(lower_char(s[i]));
        i = i + 1;
        assert(r@ =~= ascii_lowercase(s@.take(i as int)));
    }
    assert(s@.take(s@.len() as int) =~= s@);
    r
}

/// The characters `lo..hi` of a run, copied.
pub fn range_vec(s: &[char], lo: usize, hi: usize) -> (r: Vec<char>)
    requires
        lo <= hi <= s@.len(),
    ensures
        r@ == s@.subrange(lo as int, hi as int),
{
    let mut r: Vec<char> = Vec::new();
    let mut i = lo;
    while i < hi
        invariant
            lo <= i <= hi <= s@.len(),
            r@ == s@.subrange(lo as int, i as int),
        decreases hi - i,
    {
        r.push(s[i]);
        i = i + 1;
        assert(r@ =~= s@.subrange(lo as int, i as int));
    }
    r
}

/// Whether `char::is_alphanumeric` holds of a character: Unicode calls it
/// alphabetic or numeric.
pub uninterp spec fn alphanumeric(c: char) -> bool;

/// Whether a character is alphabetic or numeric.
///
/// Trusted: calls `char::is_alphanumeric`, which the standard library
/// documents as Unicode's alphabetic or numeric property. The contract names
/// the result, and states what that means for ASCII: letters and digits are,
/// every other ASCII character is not.
#[verifier::external_body]
pub(crate) fn is_alphanumeric_char(c: char) -> (r: bool)
    ensures
        r == alphanumeric(c),
        ('a' <= c <= 'z') || ('A' <= c <= 'Z') || ('0' <= c <= '9') ==> r,
        (c as u32) < 128 && !(('a' <= c <= 'z') || ('A' <= c <= 'Z') || ('0' <= c <= '9')) ==> !r,
{
    c.is_alphanumeric()
}

/// What `str::to_lowercase` makes of a text.
pub uninterp spec fn lowercase(s: Seq<char>) -> Seq<char>;

/// Text in lower case.
///
/// Trusted: calls `str::to_lowercase`, which the standard library documents
/// as the Unicode lowercase mapping. The contract names the result, and
/// states what that means for ASCII text: each upper-case letter becomes its
/// lower-case letter and everything else stays.
#[verifier::external_body]
pub(crate) fn to_lowercase_text(s: &str) -> (r: String)
    ensures
        r@ == lowercase(s@),
        (forall|i: int| 0 <= i < s@.len() ==> (#[trigger] s@[i] as u32) < 128) ==> r@ == ascii_lowercase(s@),
{
    s.to_lowercase()
}

/// The lowest `w` hexadecimal digits of a number, lowercase, most
/// significant first, zeros in front.
pub open spec fn hex_fixed(n: nat, w: nat) -> Seq<char>
    decreases w,
{
    if w == 0 {
        Seq::empty()
    } else {
        hex_fixed(n / 16, (w - 1) as nat).push(hex_digit((n % 16) as int))
    }
}

/// A 32-bit number as eight lowercase hexadecimal digits, zeros in front.
pub fn hex8_string(n: u32) -> (out: String)
    ensures
        out@ == hex_fixed(n as nat, 8),
{
    let mut digits: Vec<char> = Vec::new();
    let mut m: u32 = n;
    let mut k: usize = 0;
    while k < 8
        invariant
            k <= 8,
            digits@.len() == k,
            hex_fixed(n as nat, 8) == hex_fixed(m as nat, (8 - k) as nat) + digits@.reverse(),
        decreases 8 - k,
    {
        let d = hex_digit_char((m % 16) as u8);
        proof {
            assert(hex_fixed(m as nat, (8 - k) as nat) == hex_fixed((m / 16) as nat, (8 - k - 1) as nat).push(d));
            assert(digits@.push(d).reverse() =~= seq![d] + digits@.reverse());
            assert(hex_fixed((m / 16) as nat, (8 - k - 1) as nat).push(d) + digits@.reverse() =~= hex_fixed(
                (m / 16) as nat,
                (8 - k - 1) as nat,
            ) + (seq![d] + digits@.reverse()));
        }
        digits.push(d);
        m = m / 16;
        k = k + 1;
    }
    assert(hex_fixed(m as nat, 0) =~= Seq::<char>::empty());
    let mut out = String::new();
    let mut i: usize = 8;
    while i > 0
        invariant
            i <= 8,
            digits@.len() == 8,
            hex_fixed(n as nat, 8) == out@ + digits@.take(i as int).reverse(),
        decreases i,
    {
        i = i - 1;
        let ghost before = out@;
        proof {
            assert(digits@.take(i + 1 as int).reverse() =~= seq![digits@[i as int]] + digits@.take(i as int).reverse());
        }
        push_char(&mut out, digits[i]);
        proof {
            assert(out@ + digits@.take(i as int).reverse() =~= before + seq![digits@[i as int]] + digits@.take(
                i as int,
            ).reverse());
        }
    }
    assert(digits@.take(0).reverse() =~= Seq::<char>::empty());
    assert(out@ + Seq::<char>::empty() =~= out@);
    out
}

} // verus!
