//! Readers over the repository's own configuration.
//!
//! Each reads a committed file's text for a property the workspace depends
//! on: every crate a manifest declares is referenced, the commit hook reads
//! the scope list in one place, and every tool the check installs is pinned in
//! one place.

use vstd::prelude::*;

use crate::text::{
    lowercase, to_lowercase_text, alphanumeric, chars_of, find_chars, find_from, is_alphanumeric_char, occurs_at, occurs_at_exec,
    split_whitespace, string_of, tokens,
};

verus! {

/// The position after a match of `pat` at `k`, which for an empty pattern is
/// the next character, so every position is tried once.
pub open spec fn step_after(k: int, pat: Seq<char>) -> int {
    if pat.len() == 0 {
        k + 1
    } else {
        k + pat.len()
    }
}

/// A character an identifier carries in JavaScript.
pub open spec fn is_js_ident(c: char) -> bool {
    alphanumeric(c) || c == '_' || c == '$'
}

/// Whether the match of `name` at `at` is a use of the identifier: no
/// identifier character or hyphen before it, no identifier character after.
pub open spec fn is_identifier_use(code: Seq<char>, name: Seq<char>, at: int) -> bool {
    &&& (at == 0 || !(is_js_ident(code[at - 1]) || code[at - 1] == '-'))
    &&& (at + name.len() == code.len() || !is_js_ident(code[at + name.len()]))
}

/// How many of the matches of `name` from `pos` on, taken left to right
/// without overlap, are uses of the identifier.
pub open spec fn uses_from(code: Seq<char>, name: Seq<char>, pos: int) -> nat
    decreases code.len() + 1 - pos,
    via lemma_uses_from_decreases
{
    if pos < 0 || pos > code.len() {
        0
    } else {
        match find_from(code, name, pos) {
            None => 0,
            Some(k) => (if is_identifier_use(code, name, k) {
                1nat
            } else {
                0nat
            }) + uses_from(code, name, step_after(k, name)),
        }
    }
}

/// Each match found leaves less text to search.
#[via_fn]
proof fn lemma_uses_from_decreases(code: Seq<char>, name: Seq<char>, pos: int) {
    if 0 <= pos <= code.len() {
        crate::text::lemma_find_from(code, name, pos);
    }
}

/// Whether a character is an identifier character in JavaScript.
fn js_ident_char(c: char) -> (r: bool)
    ensures
        r == is_js_ident(c),
{
    is_alphanumeric_char(c) || c == '_' || c == '$'
}

/// How many times `code` uses `name` as an identifier. A use is the name
/// with no identifier character or hyphen before it and no identifier
/// character after it, so a file path holding the name is not one.
pub fn identifier_uses(code: &str, name: &str) -> (r: usize)
    requires
        code@.len() < usize::MAX,
    ensures
        r == uses_from(code@, name@, 0),
{
    let c = chars_of(code);
    let n = chars_of(name);
    let len = c.len();
    let mut count: usize = 0;
    let mut pos: usize = 0;
    loop
        invariant
            c@ == code@,
            n@ == name@,
            len == c@.len(),
            len < usize::MAX,
            pos <= len + 1,
            count <= pos,
            count + uses_from(code@, name@, pos as int) == uses_from(code@, name@, 0),
        decreases len + 1 - pos,
    {
        if pos > len {
            return count;
        }
        match find_chars(c.as_slice(), n.as_slice(), pos) {
            None => return count,
            Some(k) => {
                proof {
                    crate::text::lemma_find_from(code@, name@, pos as int);
                }
                let before_ok = k == 0 || !(js_ident_char(c[k - 1]) || c[k - 1] == '-');
                let after_ok = k + n.len() == len || !js_ident_char(c[k + n.len()]);
                if before_ok && after_ok {
                    count = count + 1;
                }
                pos = if n.len() == 0 {
                    k + 1
                } else {
                    k + n.len()
                };
            },
        }
    }
}

/// A character a Rust identifier carries.
pub open spec fn is_rust_ident(c: char) -> bool {
    alphanumeric(c) || c == '_'
}

/// Whether the match of `ident` at `at` references the crate: the name stands
/// as a whole word and opens a path, or follows `use` or `extern crate`.
pub open spec fn references_at(text: Seq<char>, ident: Seq<char>, at: int) -> bool {
    let head = text.take(at);
    let rest = text.subrange(at + ident.len(), text.len() as int);
    &&& (head.len() == 0 || !is_rust_ident(head.last()))
    &&& (rest.len() == 0 || !is_rust_ident(rest[0]))
    &&& (occurs_at(rest, "::"@, 0) || ends_with(head, "use "@) || ends_with(head, "extern crate "@))
}

/// Whether `s` ends with `suffix`.
pub open spec fn ends_with(s: Seq<char>, suffix: Seq<char>) -> bool {
    suffix.len() <= s.len() && s.subrange(s.len() - suffix.len(), s.len() as int) == suffix
}

/// Whether one of the matches of `ident` from `pos` on, taken left to right
/// without overlap, references the crate.
pub open spec fn references_from(text: Seq<char>, ident: Seq<char>, pos: int) -> bool
    decreases text.len() + 1 - pos,
    via lemma_references_from_decreases
{
    if pos < 0 || pos > text.len() {
        false
    } else {
        match find_from(text, ident, pos) {
            None => false,
            Some(k) => references_at(text, ident, k) || references_from(text, ident, step_after(k, ident)),
        }
    }
}

/// Each match found leaves less text to search.
#[via_fn]
proof fn lemma_references_from_decreases(text: Seq<char>, ident: Seq<char>, pos: int) {
    if 0 <= pos <= text.len() {
        crate::text::lemma_find_from(text, ident, pos);
    }
}

/// Whether the characters before `at` end with `suffix`.
fn ends_with_at(s: &[char], at: usize, suffix: &str) -> (r: bool)
    requires
        at <= s@.len(),
    ensures
        r == ends_with(s@.take(at as int), suffix@),
{
    let p = chars_of(suffix);
    if p.len() > at {
        return false;
    }
    let start = at - p.len();
    let r = occurs_at_exec(s, p.as_slice(), start);
    proof {
        assert(s@.take(at as int).subrange(start as int, at as int) =~= s@.subrange(start as int, at as int));
    }
    r
}

/// Whether `text` references the crate `ident`.
///
/// A reference is the name opening a path, or following `use` or
/// `extern crate`. The name has to end at a non-identifier character, because
/// `cargo machete` reads `serde` and `serde_json` as two crates and a check
/// that reads the first inside the second demands a prune that makes machete
/// fail on the same name.
pub fn references_crate(text: &str, ident: &str) -> (r: bool)
    requires
        text@.len() < usize::MAX,
    ensures
        r == references_from(text@, ident@, 0),
{
    let t = chars_of(text);
    let n = chars_of(ident);
    let colons = chars_of("::");
    let len = t.len();
    let mut pos: usize = 0;
    loop
        invariant
            t@ == text@,
            n@ == ident@,
            colons@ == "::"@,
            len == t@.len(),
            len < usize::MAX,
            pos <= len + 1,
            references_from(text@, ident@, 0) == references_from(text@, ident@, pos as int),
        decreases len + 1 - pos,
    {
        if pos > len {
            return false;
        }
        match find_chars(t.as_slice(), n.as_slice(), pos) {
            None => return false,
            Some(k) => {
                proof {
                    crate::text::lemma_find_from(text@, ident@, pos as int);
                }
                let end = k + n.len();
                let head_ok = k == 0 || !(is_alphanumeric_char(t[k - 1]) || t[k - 1] == '_');
                let rest_ok = end == len || !(is_alphanumeric_char(t[end]) || t[end] == '_');
                let opens_path = occurs_at_exec(t.as_slice(), colons.as_slice(), end);
                let after_use = ends_with_at(t.as_slice(), k, "use ");
                let after_extern = ends_with_at(t.as_slice(), k, "extern crate ");
                proof {
                    reveal_strlit("::");
                    let rest = text@.subrange(end as int, text@.len() as int);
                    assert(occurs_at(rest, "::"@, 0) == occurs_at(text@, "::"@, end as int)) by {
                        if end + 2 <= text@.len() {
                            assert(rest.subrange(0, 2) =~= text@.subrange(end as int, end + 2));
                        }
                    }
                    if k > 0 {
                        assert(text@.take(k as int).last() == text@[k - 1]);
                    }
                    if end < len {
                        assert(rest[0] == text@[end as int]);
                    }
                }
                if head_ok && rest_ok && (opens_path || after_use || after_extern) {
                    return true;
                }
                pos = if n.len() == 0 {
                    k + 1
                } else {
                    end
                };
            },
        }
    }
}

/// Whether a word is not a flag.
pub open spec fn not_flag() -> spec_fn(Seq<char>) -> bool {
    |w: Seq<char>| !(w.len() > 0 && w[0] == '-')
}

/// The package an install command names, for a command that is a
/// `cargo install`: the first word past `cargo install` that is not a flag.
pub open spec fn install_package(words: Seq<Seq<char>>) -> Option<Seq<char>> {
    if words.len() < 2 || words[0] != "cargo"@ || words[1] != "install"@ {
        None
    } else {
        match crate::text::first_from(words, not_flag(), 2) {
            Some(k) => Some(words[k]),
            None => None,
        }
    }
}

/// The package an install command names, for a command that is a
/// `cargo install`.
///
/// The flag and the package can come in either order, so the package is the
/// first word past `cargo install` that is not a flag.
pub fn cargo_install_package(install: &str) -> (r: Option<String>)
    ensures
        match r {
            Some(p) => install_package(tokens(install@)) == Some(p@),
            None => install_package(tokens(install@)) is None,
        },
{
    let cs = chars_of(install);
    let words = split_whitespace(cs.as_slice());
    let ghost all = tokens(install@);
    if words.len() < 2 {
        return None;
    }
    if !crate::text::chars_eq(words[0].as_slice(), chars_of("cargo").as_slice())
        || !crate::text::chars_eq(words[1].as_slice(), chars_of("install").as_slice()) {
        return None;
    }
    let mut k: usize = 2;
    while k < words.len()
        invariant
            2 <= k <= words@.len(),
            all == tokens(install@),
            all[0] == "cargo"@,
            all[1] == "install"@,
            words@.len() == all.len(),
            forall|j: int| 0 <= j < words@.len() ==> #[trigger] words@[j]@ == all[j],
            forall|j: int| 2 <= j < k ==> (#[trigger] all[j]).len() > 0 && all[j][0] == '-',
        decreases words@.len() - k,
    {
        let w = words[k].as_slice();
        if !(w.len() > 0 && w[0] == '-') {
            proof {
                crate::text::lemma_first_from_at(all, not_flag(), 2, k as int);
            }
            return Some(string_of(w));
        }
        k = k + 1;
    }
    proof {
        crate::text::lemma_first_from_none(all, not_flag(), 2);
    }
    None
}

/// How many backticks run from position `i` on.
pub open spec fn backtick_run(s: Seq<char>, i: int) -> int {
    match crate::text::first_from(s, |c: char| c != '`', i) {
        Some(k) => k - i,
        None => s.len() - i,
    }
}

/// Prose from position `i` on with inline code spans read as the one word
/// `code` and fences as a space. `in_code` says whether a span is open.
pub open spec fn code_pass(s: Seq<char>, i: int, in_code: bool) -> Seq<char>
    decreases s.len() - i,
    via lemma_code_pass_decreases
{
    if i < 0 || i >= s.len() {
        Seq::empty()
    } else if s[i] == '`' {
        let run = backtick_run(s, i);
        if run < 3 {
            (if !in_code {
                " code "@
            } else {
                Seq::empty()
            }) + code_pass(s, i + run, !in_code)
        } else {
            seq![' '] + code_pass(s, i + run, in_code)
        }
    } else {
        (if !in_code {
            seq![s[i]]
        } else {
            Seq::empty()
        }) + code_pass(s, i + 1, in_code)
    }
}

/// A backtick run is at least one character long.
#[via_fn]
proof fn lemma_code_pass_decreases(s: Seq<char>, i: int, in_code: bool) {
    if 0 <= i < s.len() && s[i] == '`' {
        crate::text::lemma_first_from(s, |c: char| c != '`', i);
    }
}

/// Read code spans as the word `code` and fences as a space.
fn strip_code(s: &[char]) -> (r: Vec<char>)
    ensures
        r@ == code_pass(s@, 0, false),
{
    let code = chars_of(" code ");
    let mut out: Vec<char> = Vec::new();
    let mut in_code = false;
    let mut i: usize = 0;
    while i < s.len()
        invariant
            i <= s@.len(),
            code@ == " code "@,
            out@ + code_pass(s@, i as int, in_code) == code_pass(s@, 0, false),
        decreases s@.len() - i,
    {
        let ghost before = out@;
        if s[i] == '`' {
            let mut end = i;
            while end < s.len() && s[end] == '`'
                invariant
                    i <= end <= s@.len(),
                    forall|j: int| i <= j < end ==> #[trigger] s@[j] == '`',
                decreases s@.len() - end,
            {
                end = end + 1;
            }
            proof {
                if end < s.len() {
                    crate::text::lemma_first_from_at(s@, |c: char| c != '`', i as int, end as int);
                } else {
                    crate::text::lemma_first_from_none(s@, |c: char| c != '`', i as int);
                }
            }
            if end - i < 3 {
                if !in_code {
                    let mut k: usize = 0;
                    while k < code.len()
                        invariant
                            k <= code@.len(),
                            out@ == before + code@.take(k as int),
                        decreases code@.len() - k,
                    {
                        out.push(code[k]);
                        k = k + 1;
                        assert(out@ =~= before + code@.take(k as int));
                    }
                    assert(code@.take(code@.len() as int) =~= code@);
                } else {
                    assert(out@ =~= before + Seq::<char>::empty());
                }
                proof {
                    assert(out@ + code_pass(s@, end as int, !in_code) =~= before + code_pass(s@, i as int, in_code));
                }
                in_code = !in_code;
            } else {
                out.push(' ');
                proof {
                    assert(out@ + code_pass(s@, end as int, in_code) =~= before + code_pass(s@, i as int, in_code));
                }
            }
            i = end;
        } else {
            if !in_code {
                out.push(s[i]);
            }
            proof {
                assert(out@ + code_pass(s@, i + 1, in_code) =~= before + code_pass(s@, i as int, in_code));
            }
            i = i + 1;
        }
    }
    proof {
        assert(out@ + code_pass(s@, i as int, in_code) =~= out@);
    }
    out
}

/// Punctuation that closes a path token and still ends a sentence or clause.
pub open spec fn is_closer(c: char) -> bool {
    c == '.' || c == ',' || c == ';' || c == '!' || c == '?' || c == ')' || c == ']'
}

/// Where the run of closing punctuation at the end of a token begins.
pub open spec fn closing_start(t: Seq<char>) -> int
    decreases t.len(),
{
    if t.len() == 0 {
        0
    } else if is_closer(t.last()) {
        closing_start(t.drop_last())
    } else {
        t.len() as int
    }
}

/// A token holding a `/` read as the one word `path`, its closing
/// punctuation kept.
pub open spec fn path_word(t: Seq<char>) -> Seq<char> {
    if exists|i: int| 0 <= i < t.len() && t[i] == '/' {
        "path"@ + t.subrange(closing_start(t), t.len() as int)
    } else {
        t
    }
}

/// Words joined by single spaces.
pub open spec fn join_words(ws: Seq<Seq<char>>) -> Seq<char>
    decreases ws.len(),
{
    if ws.len() == 0 {
        Seq::empty()
    } else if ws.len() == 1 {
        ws[0]
    } else {
        join_words(ws.drop_last()) + seq![' '] + ws.last()
    }
}

/// Text with every whitespace-separated token that holds a `/` read as the
/// one word `path`, the tokens joined by single spaces.
pub open spec fn paths_as_words_text(text: Seq<char>) -> Seq<char> {
    join_words(Seq::new(tokens(text).len(), |i: int| path_word(tokens(text)[i])))
}

/// A token with a `/` read as `path`.
fn path_word_exec(t: &[char]) -> (r: Vec<char>)
    ensures
        r@ == path_word(t@),
{
    let mut has_slash = false;
    let mut i: usize = 0;
    while i < t.len()
        invariant
            i <= t@.len(),
            has_slash == exists|j: int| 0 <= j < i && t@[j] == '/',
        decreases t@.len() - i,
    {
        if t[i] == '/' {
            has_slash = true;
        }
        i = i + 1;
    }
    if !has_slash {
        return crate::text::range_vec(t, 0, t.len());
    }
    let mut n: usize = t.len();
    assert(t@.take(n as int) == t@);
    while n > 0 && (t[n - 1] == '.' || t[n - 1] == ',' || t[n - 1] == ';' || t[n - 1] == '!' || t[n - 1] == '?'
        || t[n - 1] == ')' || t[n - 1] == ']')
        invariant
            n <= t@.len(),
            closing_start(t@) == closing_start(t@.take(n as int)),
            forall|j: int| n <= j < t@.len() ==> is_closer(#[trigger] t@[j]),
        decreases n,
    {
        assert(t@.take(n as int).drop_last() == t@.take(n - 1));
        n = n - 1;
    }
    let mut r = chars_of("path");
    let ghost head = r@;
    let tail = crate::text::range_vec(t, n, t.len());
    let mut k: usize = 0;
    while k < tail.len()
        invariant
            k <= tail@.len(),
            r@ == head + tail@.take(k as int),
        decreases tail@.len() - k,
    {
        r.push(tail[k]);
        k = k + 1;
        assert(r@ =~= head + tail@.take(k as int));
    }
    assert(tail@.take(tail@.len() as int) =~= tail@);
    r
}

/// Read path tokens as the word `path`.
fn paths_as_words(text: &[char]) -> (r: Vec<char>)
    ensures
        r@ == paths_as_words_text(text@),
{
    let toks = split_whitespace(text);
    let ghost all = tokens(text@);
    let ghost mapped = Seq::new(all.len(), |i: int| path_word(all[i]));
    let mut out: Vec<char> = Vec::new();
    let mut i: usize = 0;
    while i < toks.len()
        invariant
            i <= toks@.len(),
            toks@.len() == all.len(),
            forall|j: int| 0 <= j < toks@.len() ==> #[trigger] toks@[j]@ == all[j],
            mapped == Seq::new(all.len(), |i: int| path_word(all[i])),
            out@ == join_words(mapped.take(i as int)),
        decreases toks@.len() - i,
    {
        let ghost before = out@;
        let w = path_word_exec(toks[i].as_slice());
        if i > 0 {
            out.push(' ');
        }
        let mut k: usize = 0;
        let ghost mid = out@;
        while k < w.len()
            invariant
                k <= w@.len(),
                out@ == mid + w@.take(k as int),
            decreases w@.len() - k,
        {
            out.push(w[k]);
            k = k + 1;
            assert(out@ =~= mid + w@.take(k as int));
        }
        proof {
            assert(w@.take(w@.len() as int) =~= w@);
            assert(mapped.take(i + 1).drop_last() =~= mapped.take(i as int));
            assert(mapped.take(i + 1).last() == w@);
            if i == 0 {
                assert(out@ =~= join_words(mapped.take(1)));
            } else {
                assert(out@ =~= join_words(mapped.take(i + 1)));
            }
        }
        i = i + 1;
    }
    proof {
        assert(mapped.take(all.len() as int) =~= mapped);
    }
    out
}

/// A character a word holds: a letter, a digit, a hyphen or an apostrophe.
pub open spec fn is_word_char(c: char) -> bool {
    alphanumeric(c) || c == '-' || c == '\''
}

/// The pieces a text splits into at every character no word holds, empty
/// pieces included.
pub open spec fn pieces(s: Seq<char>) -> Seq<Seq<char>>
    decreases s.len(),
{
    if s.len() == 0 {
        seq![Seq::empty()]
    } else {
        let p = pieces(s.drop_last());
        if is_word_char(s.last()) {
            p.update(p.len() - 1, p.last().push(s.last()))
        } else {
            p.push(Seq::empty())
        }
    }
}

/// An apostrophe or a hyphen, which a word loses at either end.
pub open spec fn is_edge(c: char) -> bool {
    c == '\'' || c == '-'
}

/// Where a piece's leading apostrophes and hyphens end.
pub open spec fn edge_start(p: Seq<char>) -> int {
    match crate::text::first_from(p, |c: char| !is_edge(c), 0) {
        Some(k) => k,
        None => p.len() as int,
    }
}

/// Where a piece's trailing apostrophes and hyphens begin.
pub open spec fn edge_end(p: Seq<char>) -> int
    decreases p.len(),
{
    if p.len() == 0 {
        0
    } else if is_edge(p.last()) {
        edge_end(p.drop_last())
    } else {
        p.len() as int
    }
}

/// A piece without apostrophes and hyphens at either end.
pub open spec fn trim_edges(p: Seq<char>) -> Seq<char> {
    if edge_start(p) >= edge_end(p) {
        Seq::empty()
    } else {
        p.subrange(edge_start(p), edge_end(p))
    }
}

/// The words the pieces make: each trimmed, the empty ones dropped, the rest
/// in lower case.
pub open spec fn words_of_pieces(ps: Seq<Seq<char>>) -> Seq<Seq<char>>
    decreases ps.len(),
{
    if ps.len() == 0 {
        Seq::empty()
    } else {
        let t = trim_edges(ps.last());
        words_of_pieces(ps.drop_last()) + if t.len() > 0 {
            seq![lowercase(t)]
        } else {
            Seq::empty()
        }
    }
}

/// The lowercase words of a clause, split at anything that is not a letter, a
/// digit, a hyphen or an apostrophe.
pub open spec fn words_text(clause: Seq<char>) -> Seq<Seq<char>> {
    words_of_pieces(pieces(clause))
}

/// A piece without apostrophes and hyphens at either end.
fn trim_edges_exec(p: &[char]) -> (r: Vec<char>)
    ensures
        r@ == trim_edges(p@),
{
    let mut a: usize = 0;
    while a < p.len() && (p[a] == '\'' || p[a] == '-')
        invariant
            a <= p@.len(),
            forall|j: int| 0 <= j < a ==> is_edge(#[trigger] p@[j]),
        decreases p@.len() - a,
    {
        a = a + 1;
    }
    proof {
        if a < p.len() {
            crate::text::lemma_first_from_at(p@, |c: char| !is_edge(c), 0, a as int);
        } else {
            crate::text::lemma_first_from_none(p@, |c: char| !is_edge(c), 0);
        }
    }
    let mut b: usize = p.len();
    assert(p@.take(b as int) == p@);
    while b > 0 && (p[b - 1] == '\'' || p[b - 1] == '-')
        invariant
            b <= p@.len(),
            edge_end(p@) == edge_end(p@.take(b as int)),
        decreases b,
    {
        assert(p@.take(b as int).drop_last() == p@.take(b - 1));
        b = b - 1;
    }
    if a >= b {
        return Vec::new();
    }
    crate::text::range_vec(p, a, b)
}

/// Add the word a finished piece makes, if any.
fn push_word(out: &mut Vec<Vec<char>>, piece: &[char])
    ensures
        Seq::new(final(out)@.len(), |i: int| final(out)@[i]@) == Seq::new(old(out)@.len(), |i: int| old(out)@[i]@) + if trim_edges(piece@).len() > 0 {
            seq![lowercase(trim_edges(piece@))]
        } else {
            Seq::<Seq<char>>::empty()
        },
{
    let ghost before = Seq::new(out@.len(), |i: int| out@[i]@);
    let t = trim_edges_exec(piece);
    if t.len() > 0 {
        let lowered = to_lowercase_text(string_of(t.as_slice()).as_str());
        let w = chars_of(lowered.as_str());
        out.push(w);
        proof {
            assert(Seq::new(out@.len(), |i: int| out@[i]@) =~= before.push(lowercase(t@)));
        }
    } else {
        proof {
            assert(Seq::new(out@.len(), |i: int| out@[i]@) =~= before + Seq::<Seq<char>>::empty());
        }
    }
}

/// The lowercase words of a clause.
fn words(clause: &[char]) -> (r: Vec<Vec<char>>)
    ensures
        Seq::new(r@.len(), |i: int| r@[i]@) == words_text(clause@),
{
    let mut out: Vec<Vec<char>> = Vec::new();
    let mut current: Vec<char> = Vec::new();
    let mut i: usize = 0;
    proof {
        assert(clause@.take(0) =~= Seq::<char>::empty());
        assert(pieces(clause@.take(0)).drop_last() =~= Seq::<Seq<char>>::empty());
        assert(Seq::new(out@.len(), |i: int| out@[i]@) =~= Seq::<Seq<char>>::empty());
    }
    while i < clause.len()
        invariant
            i <= clause@.len(),
            pieces(clause@.take(i as int)).len() >= 1,
            current@ == pieces(clause@.take(i as int)).last(),
            Seq::new(out@.len(), |i: int| out@[i]@) == words_of_pieces(pieces(clause@.take(i as int)).drop_last()),
        decreases clause@.len() - i,
    {
        let c = clause[i];
        let ghost prev = pieces(clause@.take(i as int));
        proof {
            assert(clause@.take(i + 1).drop_last() =~= clause@.take(i as int));
            assert(clause@.take(i + 1).last() == c);
        }
        if is_alphanumeric_char(c) || c == '-' || c == '\'' {
            current.push(c);
            proof {
                let next = pieces(clause@.take(i + 1));
                assert(next == prev.update(prev.len() - 1, prev.last().push(c)));
                assert(next.drop_last() =~= prev.drop_last());
            }
        } else {
            push_word(&mut out, current.as_slice());
            current = Vec::new();
            proof {
                let next = pieces(clause@.take(i + 1));
                assert(next == prev.push(Seq::empty()));
                assert(next.drop_last() == prev);
                assert(prev.drop_last().push(prev.last()) =~= prev);
                assert(current@ =~= Seq::<char>::empty());
            }
        }
        i = i + 1;
    }
    push_word(&mut out, current.as_slice());
    proof {
        assert(clause@.take(clause@.len() as int) =~= clause@);
        let ps = pieces(clause@);
        assert(ps.drop_last().push(ps.last()) =~= ps);
    }
    out
}

/// Whether position `i` ends a sentence: a `.`, `!` or `?` with white space
/// or the end of the text after it.
pub open spec fn ends_sentence(s: Seq<char>, i: int) -> bool {
    (s[i] == '.' || s[i] == '!' || s[i] == '?') && (i + 1 == s.len() || crate::text::is_ws(s[i + 1]))
}

/// Whether position `i` ends a clause: the end of a sentence, or one of
/// `;,()[]`.
pub open spec fn breaks_clause(s: Seq<char>, i: int) -> bool {
    ends_sentence(s, i) || s[i] == ';' || s[i] == ',' || s[i] == '(' || s[i] == ')' || s[i] == '[' || s[i] == ']'
}

/// The clauses of the first `n` characters, the last one still open.
pub open spec fn raw_clauses(s: Seq<char>, n: int) -> Seq<Seq<char>>
    decreases n,
{
    if n <= 0 {
        seq![Seq::empty()]
    } else {
        let p = raw_clauses(s, n - 1);
        if breaks_clause(s, n - 1) {
            p.push(Seq::empty())
        } else {
            p.update(p.len() - 1, p.last().push(s[n - 1]))
        }
    }
}

/// The clauses of a text, at least one.
proof fn lemma_raw_clauses_len(s: Seq<char>, n: int)
    ensures
        raw_clauses(s, n).len() >= 1,
    decreases n,
{
    if n > 0 {
        lemma_raw_clauses_len(s, n - 1);
    }
}

/// The clauses of prose, each as its lowercase words.
///
/// An inline code span reads as the one word `code`, and a fence as a space.
/// A path token reads as the one word `path`. A sentence ends at `.`, `!` or
/// `?` followed by white space, and a clause at `;`, `,` and brackets.
pub open spec fn clauses_text(prose: Seq<char>) -> Seq<Seq<Seq<char>>> {
    let plain = paths_as_words_text(code_pass(prose, 0, false));
    let raw = raw_clauses(plain, plain.len() as int);
    Seq::new(raw.len(), |i: int| words_text(raw[i]))
}

/// The clauses of prose, each as its lowercase words.
fn clauses(prose: &str) -> (r: Vec<Vec<Vec<char>>>)
    ensures
        r@.len() == clauses_text(prose@).len(),
        forall|i: int| 0 <= i < r@.len() ==> Seq::new((#[trigger] r@[i])@.len(), |j: int| r@[i]@[j]@) == clauses_text(prose@)[i],
{
    let chars = chars_of(prose);
    let stripped = strip_code(chars.as_slice());
    let plain = paths_as_words(stripped.as_slice());
    let ghost raw = raw_clauses(plain@, plain@.len() as int);
    let mut out: Vec<Vec<Vec<char>>> = Vec::new();
    let mut current: Vec<char> = Vec::new();
    let mut i: usize = 0;
    proof {
        lemma_raw_clauses_len(plain@, 0);
    }
    while i < plain.len()
        invariant
            i <= plain@.len(),
            raw_clauses(plain@, i as int).len() >= 1,
            out@.len() == raw_clauses(plain@, i as int).len() - 1,
            current@ == raw_clauses(plain@, i as int).last(),
            forall|k: int| 0 <= k < out@.len() ==> Seq::new((#[trigger] out@[k])@.len(), |j: int| out@[k]@[j]@) == words_text(raw_clauses(plain@, i as int)[k]),
        decreases plain@.len() - i,
    {
        let c = plain[i];
        let ghost prev = raw_clauses(plain@, i as int);
        let ends = (c == '.' || c == '!' || c == '?') && (i + 1 == plain.len() || crate::text::is_ws_char(plain[i + 1]));
        if ends || c == ';' || c == ',' || c == '(' || c == ')' || c == '[' || c == ']' {
            let ws = words(current.as_slice());
            out.push(ws);
            current = Vec::new();
            proof {
                let next = raw_clauses(plain@, i + 1);
                assert(next == prev.push(Seq::empty()));
                assert forall|k: int| 0 <= k < out@.len() implies Seq::new((#[trigger] out@[k])@.len(), |j: int| out@[k]@[j]@) == words_text(next[k]) by {
                    assert(next[k] == prev[k]);
                }
                assert(current@ =~= Seq::<char>::empty());
            }
        } else {
            current.push(c);
            proof {
                let next = raw_clauses(plain@, i + 1);
                assert(next == prev.update(prev.len() - 1, prev.last().push(c)));
                assert forall|k: int| 0 <= k < out@.len() implies Seq::new((#[trigger] out@[k])@.len(), |j: int| out@[k]@[j]@) == words_text(next[k]) by {
                    assert(next[k] == prev[k]);
                }
            }
        }
        i = i + 1;
    }
    let ws = words(current.as_slice());
    out.push(ws);
    proof {
        assert forall|k: int| 0 <= k < out@.len() implies Seq::new((#[trigger] out@[k])@.len(), |j: int| out@[k]@[j]@) == clauses_text(prose@)[k] by {
            assert(clauses_text(prose@)[k] == words_text(raw[k]));
        }
    }
    out
}

/// Number words the prose check reads as a count.
///
/// "One" is left out, because a sentence naming one step names a step rather
/// than counting the check's. Ordinals are left out, because "the first step"
/// is a position.
pub const COUNT_WORDS: [&'static str; 27] = [
    "two",
    "three",
    "four",
    "five",
    "six",
    "seven",
    "eight",
    "nine",
    "ten",
    "eleven",
    "twelve",
    "thirteen",
    "fourteen",
    "fifteen",
    "sixteen",
    "seventeen",
    "eighteen",
    "nineteen",
    "twenty",
    "thirty",
    "forty",
    "fifty",
    "sixty",
    "seventy",
    "eighty",
    "ninety",
    "dozen",
];

/// The tens a hyphenated count opens with, as in "twenty-one".
pub const TENS_WORDS: [&'static str; 8] = ["twenty", "thirty", "forty", "fifty", "sixty", "seventy", "eighty", "ninety"];

/// The units a hyphenated count closes with, as in "twenty-one".
pub const UNIT_WORDS: [&'static str; 9] = ["one", "two", "three", "four", "five", "six", "seven", "eight", "nine"];

/// The nouns whose count the prose check refuses when the count comes first.
pub const COUNTED_NOUNS: [&'static str; 10] = [
    "step",
    "steps",
    "stage",
    "stages",
    "check",
    "checks",
    "command",
    "commands",
    "tool",
    "tools",
];

/// The nouns the prose check also reads with the count after them, as in
/// `Steps: 13`.
pub const COUNTED_BEFORE: [&'static str; 3] = ["steps", "stages", "tools"];

/// Whether a word is one of a list.
pub open spec fn listed(list: Seq<&'static str>, w: Seq<char>) -> bool {
    exists|i: int| 0 <= i < list.len() && (#[trigger] list[i])@ == w
}

/// Whether a word is one of a list.
fn listed_exec(list: &[&'static str], w: &[char]) -> (r: bool)
    ensures
        r == listed(list@, w@),
{
    let mut i: usize = 0;
    while i < list.len()
        invariant
            i <= list@.len(),
            forall|j: int| 0 <= j < i ==> (#[trigger] list@[j])@ != w@,
        decreases list@.len() - i,
    {
        if crate::text::chars_eq(chars_of(list[i]).as_slice(), w) {
            return true;
        }
        i = i + 1;
    }
    false
}

/// Whether a word is a count: a run of one to three digits, a number word
/// from two up, or a hyphenated tens and unit. A longer run of digits is an
/// id or a measurement, never a count of steps or tools.
pub open spec fn is_count(w: Seq<char>) -> bool {
    ||| (1 <= w.len() <= 3 && forall|i: int| 0 <= i < w.len() ==> crate::text::is_dec(#[trigger] w[i]))
    ||| listed(COUNT_WORDS@, w)
    ||| match find_from(w, "-"@, 0) {
        Some(k) => listed(TENS_WORDS@, w.take(k)) && listed(UNIT_WORDS@, w.subrange(k + 1, w.len() as int)),
        None => false,
    }
}

/// Whether a word is a count.
fn is_count_exec(w: &[char]) -> (r: bool)
    ensures
        r == is_count(w@),
{
    if 1 <= w.len() && w.len() <= 3 {
        let mut all = true;
        let mut i: usize = 0;
        while i < w.len()
            invariant
                i <= w@.len(),
                all == forall|j: int| 0 <= j < i ==> crate::text::is_dec(#[trigger] w@[j]),
            decreases w@.len() - i,
        {
            if !('0' <= w[i] && w[i] <= '9') {
                all = false;
            }
            i = i + 1;
        }
        if all {
            return true;
        }
    }
    if listed_exec(&COUNT_WORDS, w) {
        return true;
    }
    let dash = chars_of("-");
    proof {
        reveal_strlit("-");
    }
    match find_chars(w, dash.as_slice(), 0) {
        None => false,
        Some(k) => {
            proof {
                crate::text::lemma_find_from(w@, dash@, 0);
            }
            let head = crate::text::range_vec(w, 0, k);
            let tail = crate::text::range_vec(w, k + 1, w.len());
            listed_exec(&TENS_WORDS, head.as_slice()) && listed_exec(&UNIT_WORDS, tail.as_slice())
        },
    }
}

/// The first offset below `reach` past `from` whose word satisfies `p`.
pub open spec fn first_within(ws: Seq<Seq<char>>, from: int, reach: int, p: spec_fn(Seq<char>) -> bool) -> Option<int> {
    let window = ws.subrange(from, if from + reach < ws.len() { from + reach } else { ws.len() as int });
    crate::text::first_from(window, p, 0)
}

/// Whether a word is one of the nouns counted after their count.
pub open spec fn noun() -> spec_fn(Seq<char>) -> bool {
    |w: Seq<char>| listed(COUNTED_NOUNS@, w)
}

/// Whether a word is a count.
pub open spec fn count_word() -> spec_fn(Seq<char>) -> bool {
    |w: Seq<char>| is_count(w)
}

/// The phrase stating a count that starts at word `i` of a clause, if any.
///
/// Three shapes count: a count hyphenated to a counted noun, as in
/// `eleven-step`; a count, then a counted noun with at most two words
/// between; a noun counted before its count straight after it, as in
/// `Steps: 13`, or "step count" or "tool count" then a count with at most two
/// words between.
pub open spec fn phrase_at(ws: Seq<Seq<char>>, i: int) -> Option<Seq<char>> {
    let w = ws[i];
    let hyphen = crate::text::rfind(w, "-"@);
    if hyphen matches Some(k) && is_count(w.take(k)) && listed(COUNTED_NOUNS@, w.subrange(k + 1, w.len() as int)) {
        Some(w)
    } else if is_count(w) && first_within(ws, i + 1, 3, noun()) is Some {
        Some(join_words(ws.subrange(i, i + 2 + first_within(ws, i + 1, 3, noun())->0)))
    } else {
        let (end, reach) = if listed(COUNTED_BEFORE@, w) {
            (i, 1int)
        } else if (w == "step"@ || w == "tool"@) && i + 1 < ws.len() && ws[i + 1] == "count"@ {
            (i + 1, 3int)
        } else {
            (-1int, 0int)
        };
        if end >= 0 && first_within(ws, end + 1, reach, count_word()) is Some {
            Some(join_words(ws.subrange(i, end + 2 + first_within(ws, end + 1, reach, count_word())->0)))
        } else {
            None
        }
    }
}

/// Words as plain values.
pub open spec fn views(ws: Seq<Vec<char>>) -> Seq<Seq<char>> {
    Seq::new(ws.len(), |i: int| ws[i]@)
}

/// The first offset below `reach` past `from` whose word is a counted noun,
/// or a count when `nouns` is false.
fn first_within_exec(ws: &[Vec<char>], from: usize, reach: usize, nouns: bool) -> (r: Option<usize>)
    requires
        from <= ws@.len(),
        reach <= 3,
    ensures
        r matches Some(k) ==> first_within(views(ws@), from as int, reach as int, if nouns { noun() } else { count_word() })
            == Some(k as int) && k < reach && from + k < ws@.len(),
        r is None ==> first_within(views(ws@), from as int, reach as int, if nouns { noun() } else { count_word() }) is None,
{
    let ghost p = if nouns { noun() } else { count_word() };
    let end: usize = if ws.len() - from > reach { from + reach } else { ws.len() };
    let ghost window = views(ws@).subrange(from as int, end as int);
    let mut k: usize = 0;
    while from + k < end
        invariant
            from + k <= end <= ws@.len(),
            end <= from + reach,
            end == (if from + reach < ws@.len() { from + reach } else { ws@.len() as int }),
            window == views(ws@).subrange(from as int, end as int),
            p == (if nouns { noun() } else { count_word() }),
            forall|j: int| 0 <= j < k ==> !p(#[trigger] window[j]),
        decreases end - (from + k),
    {
        let w = ws[from + k].as_slice();
        let hit = if nouns {
            listed_exec(&COUNTED_NOUNS, w)
        } else {
            is_count_exec(w)
        };
        assert(window[k as int] == w@);
        if hit {
            proof {
                crate::text::lemma_first_from_at(window, p, 0, k as int);
                assert(first_within(views(ws@), from as int, reach as int, p) == Some(k as int));
            }
            return Some(k);
        }
        k = k + 1;
    }
    proof {
        crate::text::lemma_first_from_none(window, p, 0);
    }
    None
}

/// Words `lo` to `hi` joined by single spaces.
fn join_exec(ws: &[Vec<char>], lo: usize, hi: usize) -> (r: Vec<char>)
    requires
        lo <= hi <= ws@.len(),
    ensures
        r@ == join_words(views(ws@).subrange(lo as int, hi as int)),
{
    let mut out: Vec<char> = Vec::new();
    let mut i = lo;
    proof {
        assert(views(ws@).subrange(lo as int, lo as int) =~= Seq::<Seq<char>>::empty());
    }
    while i < hi
        invariant
            lo <= i <= hi <= ws@.len(),
            out@ == join_words(views(ws@).subrange(lo as int, i as int)),
        decreases hi - i,
    {
        let ghost before = out@;
        if i > lo {
            out.push(' ');
        }
        let w = ws[i].as_slice();
        let mut k: usize = 0;
        let ghost mid = out@;
        while k < w.len()
            invariant
                k <= w@.len(),
                out@ == mid + w@.take(k as int),
            decreases w@.len() - k,
        {
            out.push(w[k]);
            k = k + 1;
            assert(out@ =~= mid + w@.take(k as int));
        }
        proof {
            assert(w@.take(w@.len() as int) =~= w@);
            let next = views(ws@).subrange(lo as int, i + 1);
            assert(next.drop_last() =~= views(ws@).subrange(lo as int, i as int));
            assert(next.last() == w@);
            if i == lo {
                assert(out@ =~= join_words(next));
            } else {
                assert(out@ =~= join_words(next));
            }
        }
        i = i + 1;
    }
    out
}

/// The phrase stating a count that starts at word `i` of a clause, if any.
fn phrase_at_exec(ws: &[Vec<char>], i: usize) -> (r: Option<Vec<char>>)
    requires
        i < ws@.len(),
    ensures
        match r {
            Some(p) => phrase_at(views(ws@), i as int) == Some(p@),
            None => phrase_at(views(ws@), i as int) is None,
        },
{
    let w = ws[i].as_slice();
    let ghost vs = views(ws@);
    assert(vs[i as int] == w@);
    let dash = chars_of("-");
    proof {
        reveal_strlit("-");
    }
    if let Some(k) = crate::text::rfind_chars(w, dash.as_slice()) {
        let head = crate::text::range_vec(w, 0, k);
        let tail = crate::text::range_vec(w, k + 1, w.len());
        if is_count_exec(head.as_slice()) && listed_exec(&COUNTED_NOUNS, tail.as_slice()) {
            return Some(crate::text::range_vec(w, 0, w.len()));
        }
    }
    let ghost a_cond = crate::text::rfind(vs[i as int], "-"@) matches Some(k) && is_count(vs[i as int].take(k))
        && listed(COUNTED_NOUNS@, vs[i as int].subrange(k + 1, vs[i as int].len() as int));
    assert(!a_cond);
    if is_count_exec(w) {
        if let Some(offset) = first_within_exec(ws, i + 1, 3, true) {
            assert(first_within(vs, i + 1, 3, noun()) == Some(offset as int));
            let joined = join_exec(ws, i, i + 2 + offset);
            assert(phrase_at(vs, i as int) == Some(joined@));
            return Some(joined);
        }
    }
    let step = chars_of("step");
    let tool = chars_of("tool");
    let count = chars_of("count");
    let (end, reach, found): (usize, usize, bool) = if listed_exec(&COUNTED_BEFORE, w) {
        (i, 1, true)
    } else if (crate::text::chars_eq(w, step.as_slice()) || crate::text::chars_eq(w, tool.as_slice())) && i + 1
        < ws.len() && crate::text::chars_eq(ws[i + 1].as_slice(), count.as_slice()) {
        assert(vs[i + 1] == ws@[i + 1]@);
        (i + 1, 3, true)
    } else {
        (0, 0, false)
    };
    if found {
        if let Some(offset) = first_within_exec(ws, end + 1, reach, false) {
            return Some(join_exec(ws, i, end + 2 + offset));
        }
    }
    None
}

/// The phrases stating counts among the first `n` words of a clause.
pub open spec fn phrases_upto(ws: Seq<Seq<char>>, n: int) -> Seq<Seq<char>>
    decreases n,
{
    if n <= 0 {
        Seq::empty()
    } else {
        phrases_upto(ws, n - 1) + match phrase_at(ws, n - 1) {
            Some(p) => seq![p],
            None => Seq::empty(),
        }
    }
}

/// The phrases stating counts in every clause, clause by clause.
pub open spec fn all_phrases(cs: Seq<Seq<Seq<char>>>) -> Seq<Seq<char>>
    decreases cs.len(),
{
    if cs.len() == 0 {
        Seq::empty()
    } else {
        all_phrases(cs.drop_last()) + phrases_upto(cs.last(), cs.last().len() as int)
    }
}

/// Every phrase in prose that states how many check steps or pinned tools
/// there are, in order.
pub fn stated_counts(prose: &str) -> (r: Vec<String>)
    ensures
        Seq::new(r@.len(), |i: int| r@[i]@) == all_phrases(clauses_text(prose@)),
{
    let cs = clauses(prose);
    let ghost all = clauses_text(prose@);
    let mut found: Vec<String> = Vec::new();
    let mut c: usize = 0;
    proof {
        assert(all.take(0) =~= Seq::<Seq<Seq<char>>>::empty());
        assert(Seq::new(found@.len(), |i: int| found@[i]@) =~= Seq::<Seq<char>>::empty());
    }
    while c < cs.len()
        invariant
            c <= cs@.len(),
            cs@.len() == all.len(),
            forall|k: int| 0 <= k < cs@.len() ==> views((#[trigger] cs@[k])@) == all[k],
            Seq::new(found@.len(), |i: int| found@[i]@) == all_phrases(all.take(c as int)),
        decreases cs@.len() - c,
    {
        let ws = cs[c].as_slice();
        let ghost base = Seq::new(found@.len(), |i: int| found@[i]@);
        let mut i: usize = 0;
        proof {
            assert(views(cs@[c as int]@) =~= Seq::new(cs@[c as int]@.len(), |j: int| cs@[c as int]@[j]@));
        }
        while i < ws.len()
            invariant
                i <= ws@.len(),
                Seq::new(found@.len(), |k: int| found@[k]@) == base + phrases_upto(views(ws@), i as int),
            decreases ws@.len() - i,
        {
            let ghost before = Seq::new(found@.len(), |k: int| found@[k]@);
            match phrase_at_exec(ws, i) {
                Some(p) => {
                    found.push(string_of(p.as_slice()));
                    proof {
                        assert(Seq::new(found@.len(), |k: int| found@[k]@) =~= before.push(p@));
                    }
                },
                None => {
                    proof {
                        assert(before + Seq::<Seq<char>>::empty() =~= before);
                    }
                },
            }
            proof {
                assert(Seq::new(found@.len(), |k: int| found@[k]@) =~= base + phrases_upto(views(ws@), i + 1));
            }
            i = i + 1;
        }
        proof {
            assert(all.take(c + 1).drop_last() =~= all.take(c as int));
            assert(all.take(c + 1).last() == views(ws@));
        }
        c = c + 1;
    }
    proof {
        assert(all.take(all.len() as int) =~= all);
    }
    found
}

/// How the prose check reads a file.
#[derive(Debug, Clone, Copy, PartialEq, Eq, Structural)]
pub enum ProseKind {
    /// Markdown and the issue forms, read whole, code blocks included.
    Whole,
    /// Rust, TypeScript and JavaScript, read for their comment lines.
    SlashComments,
    /// YAML, read for its `#` comments and its `name:` values.
    Yaml,
    /// TOML and the extensionless hook, pin and ignore files, read for their
    /// `#` comments.
    HashComments,
}

/// The extension of a path's last component, without its dot; empty when it
/// has none.
pub open spec fn extension_text(path: Seq<char>) -> Seq<char> {
    let e = crate::sig::extension_start(path);
    if e >= path.len() {
        Seq::empty()
    } else {
        path.subrange(e + 1, path.len() as int)
    }
}

/// Whether a path has a component named `ISSUE_TEMPLATE`.
pub open spec fn in_forms(path: Seq<char>) -> bool {
    exists|k: int|
        crate::steam::starts_component(path, k) && #[trigger] crate::steam::comp_end(path, k) - k == 14
            && path.subrange(k, crate::steam::comp_end(path, k)) == "ISSUE_TEMPLATE"@
}

/// The way the prose check reads a path, or `None` when the file carries no
/// prose it reads.
pub open spec fn prose_kind_of(path: Seq<char>) -> Option<ProseKind> {
    let ext = extension_text(path);
    if ext == "md"@ || in_forms(path) {
        Some(ProseKind::Whole)
    } else if ext == "rs"@ || ext == "ts"@ || ext == "js"@ || ext == "mjs"@ || ext == "cjs"@ {
        Some(ProseKind::SlashComments)
    } else if ext == "yml"@ || ext == "yaml"@ {
        Some(ProseKind::Yaml)
    } else if ext == "toml"@ || ext.len() == 0 {
        Some(ProseKind::HashComments)
    } else {
        None
    }
}

/// Whether a component named `ISSUE_TEMPLATE` starts at one of the positions.
fn names_forms(path: &[char]) -> (r: bool)
    ensures
        r == in_forms(path@),
{
    let mut k: usize = 0;
    while k < path.len()
        invariant
            k <= path@.len(),
            forall|j: int| 0 <= j < k ==> !(crate::steam::starts_component(path@, j) && #[trigger] crate::steam::comp_end(path@, j) - j == 14
                && path@.subrange(j, crate::steam::comp_end(path@, j)) == "ISSUE_TEMPLATE"@),
        decreases path@.len() - k,
    {
        let starts = !(path[k] == '/' || path[k] == '\\') && (k == 0 || path[k - 1] == '/' || path[k - 1] == '\\');
        if starts {
            let e = crate::steam::find_sep(path, k);
            let word = chars_of("ISSUE_TEMPLATE");
            proof {
                reveal_strlit("ISSUE_TEMPLATE");
            }
            if e - k == 14 && crate::text::chars_eq(&path[k..e], word.as_slice()) {
                return true;
            }
        }
        k = k + 1;
    }
    proof {
        assert forall|j: int| !(crate::steam::starts_component(path@, j) && #[trigger] crate::steam::comp_end(path@, j) - j == 14
            && path@.subrange(j, crate::steam::comp_end(path@, j)) == "ISSUE_TEMPLATE"@) by {
            if !(0 <= j < path@.len()) {
                assert(!crate::steam::starts_component(path@, j));
            }
        }
    }
    false
}

/// The way the prose check reads a path.
pub fn prose_kind(path: &str) -> (r: Option<ProseKind>)
    ensures
        r == prose_kind_of(path@),
{
    let p = chars_of(path);
    let e = crate::sig::find_extension(p.as_slice());
    let ext: Vec<char> = if e >= p.len() {
        Vec::new()
    } else {
        crate::text::range_vec(p.as_slice(), e + 1, p.len())
    };
    proof {
        if e >= p@.len() {
            assert(ext@ =~= Seq::<char>::empty());
        }
    }
    let is = |w: &str| -> (b: bool)
        ensures
            b == (ext@ == w@),
        { crate::text::chars_eq(ext.as_slice(), chars_of(w).as_slice()) };
    if is("md") || names_forms(p.as_slice()) {
        Some(ProseKind::Whole)
    } else if is("rs") || is("ts") || is("js") || is("mjs") || is("cjs") {
        Some(ProseKind::SlashComments)
    } else if is("yml") || is("yaml") {
        Some(ProseKind::Yaml)
    } else if is("toml") || ext.len() == 0 {
        Some(ProseKind::HashComments)
    } else {
        None
    }
}

/// A marker character a comment line opens with.
pub open spec fn is_marker(c: char) -> bool {
    c == '/' || c == '*' || c == '!'
}

/// The text with its leading comment markers removed.
pub open spec fn strip_markers(t: Seq<char>) -> Seq<char> {
    match crate::text::first_from(t, |c: char| !is_marker(c), 0) {
        Some(k) => t.subrange(k, t.len() as int),
        None => Seq::empty(),
    }
}

/// The text of a `//`, `///`, `//!` or block comment line, markers removed.
pub open spec fn slash_comment_text(line: Seq<char>) -> Option<Seq<char>> {
    let t = crate::text::trim_start(line);
    if occurs_at(t, "//"@, 0) || occurs_at(t, "*"@, 0) || occurs_at(t, "/*"@, 0) {
        Some(strip_markers(t))
    } else {
        None
    }
}

/// The text of a `#` comment, whether it opens the line or trails a value.
pub open spec fn hash_comment_text(line: Seq<char>) -> Option<Seq<char>> {
    let t = crate::text::trim_start(line);
    if t.len() > 0 && t[0] == '#' {
        Some(t.subrange(1, t.len() as int))
    } else {
        match find_from(line, " #"@, 0) {
            Some(k) => Some(line.subrange(k + 2, line.len() as int)),
            None => None,
        }
    }
}

/// A quote character a YAML value may be wrapped in.
pub open spec fn is_quote_char(c: char) -> bool {
    c == '"' || c == '\''
}

/// The text without quote characters at either end.
pub open spec fn trim_quotes(t: Seq<char>) -> Seq<char> {
    let a = match crate::text::first_from(t, |c: char| !is_quote_char(c), 0) {
        Some(k) => k,
        None => t.len() as int,
    };
    let b = quote_end(t);
    if a >= b {
        Seq::empty()
    } else {
        t.subrange(a, b)
    }
}

/// Where trailing quote characters begin.
pub open spec fn quote_end(t: Seq<char>) -> int
    decreases t.len(),
{
    if t.len() == 0 {
        0
    } else if is_quote_char(t.last()) {
        quote_end(t.drop_last())
    } else {
        t.len() as int
    }
}

/// The value of a YAML `name:` key, which the Actions page shows as prose.
pub open spec fn yaml_name_text(line: Seq<char>) -> Option<Seq<char>> {
    let t0 = crate::text::trim_start(line);
    let t = if occurs_at(t0, "- "@, 0) {
        t0.subrange(2, t0.len() as int)
    } else {
        t0
    };
    if !occurs_at(t, "name:"@, 0) {
        None
    } else {
        let v0 = t.subrange(5, t.len() as int);
        let v = match find_from(v0, " #"@, 0) {
            Some(k) => v0.take(k),
            None => v0,
        };
        Some(trim_quotes(crate::text::trim(v)))
    }
}

/// Drop leading comment markers.
fn strip_markers_exec(t: &[char]) -> (r: Vec<char>)
    ensures
        r@ == strip_markers(t@),
{
    let mut k: usize = 0;
    while k < t.len() && (t[k] == '/' || t[k] == '*' || t[k] == '!')
        invariant
            k <= t@.len(),
            forall|j: int| 0 <= j < k ==> is_marker(#[trigger] t@[j]),
        decreases t@.len() - k,
    {
        k = k + 1;
    }
    proof {
        if k < t.len() {
            crate::text::lemma_first_from_at(t@, |c: char| !is_marker(c), 0, k as int);
        } else {
            crate::text::lemma_first_from_none(t@, |c: char| !is_marker(c), 0);
        }
    }
    if k == t.len() {
        return Vec::new();
    }
    crate::text::range_vec(t, k, t.len())
}

/// The text of a comment line, markers removed.
fn slash_comment(line: &[char]) -> (r: Option<Vec<char>>)
    ensures
        match r {
            Some(c) => slash_comment_text(line@) == Some(c@),
            None => slash_comment_text(line@) is None,
        },
{
    let t = crate::text::trim_start_chars(line);
    if crate::text::starts_with_chars(t.as_slice(), "//") || crate::text::starts_with_chars(t.as_slice(), "*")
        || crate::text::starts_with_chars(t.as_slice(), "/*") {
        Some(strip_markers_exec(t.as_slice()))
    } else {
        None
    }
}

/// The text of a `#` comment.
fn hash_comment(line: &[char]) -> (r: Option<Vec<char>>)
    ensures
        match r {
            Some(c) => hash_comment_text(line@) == Some(c@),
            None => hash_comment_text(line@) is None,
        },
{
    let t = crate::text::trim_start_chars(line);
    if t.len() > 0 && t[0] == '#' {
        return Some(crate::text::range_vec(t.as_slice(), 1, t.len()));
    }
    let pat = chars_of(" #");
    proof {
        reveal_strlit(" #");
    }
    match find_chars(line, pat.as_slice(), 0) {
        Some(k) => {
            proof {
                crate::text::lemma_find_from(line@, pat@, 0);
            }
            Some(crate::text::range_vec(line, k + 2, line.len()))
        },
        None => None,
    }
}

/// The text without quote characters at either end.
fn trim_quotes_exec(t: &[char]) -> (r: Vec<char>)
    ensures
        r@ == trim_quotes(t@),
{
    let mut a: usize = 0;
    while a < t.len() && (t[a] == '"' || t[a] == '\'')
        invariant
            a <= t@.len(),
            forall|j: int| 0 <= j < a ==> is_quote_char(#[trigger] t@[j]),
        decreases t@.len() - a,
    {
        a = a + 1;
    }
    proof {
        if a < t.len() {
            crate::text::lemma_first_from_at(t@, |c: char| !is_quote_char(c), 0, a as int);
        } else {
            crate::text::lemma_first_from_none(t@, |c: char| !is_quote_char(c), 0);
        }
    }
    let mut b: usize = t.len();
    assert(t@.take(b as int) == t@);
    while b > 0 && (t[b - 1] == '"' || t[b - 1] == '\'')
        invariant
            b <= t@.len(),
            quote_end(t@) == quote_end(t@.take(b as int)),
        decreases b,
    {
        assert(t@.take(b as int).drop_last() == t@.take(b - 1));
        b = b - 1;
    }
    if a >= b {
        return Vec::new();
    }
    crate::text::range_vec(t, a, b)
}

/// The value of a YAML `name:` key.
fn yaml_name(line: &[char]) -> (r: Option<Vec<char>>)
    ensures
        match r {
            Some(v) => yaml_name_text(line@) == Some(v@),
            None => yaml_name_text(line@) is None,
        },
{
    proof {
        reveal_strlit("- ");
        reveal_strlit("name:");
        reveal_strlit(" #");
    }
    let t0 = crate::text::trim_start_chars(line);
    let t = if crate::text::starts_with_chars(t0.as_slice(), "- ") {
        crate::text::range_vec(t0.as_slice(), 2, t0.len())
    } else {
        t0
    };
    if !crate::text::starts_with_chars(t.as_slice(), "name:") {
        return None;
    }
    let v0 = crate::text::range_vec(t.as_slice(), 5, t.len());
    let pat = chars_of(" #");
    let v = match find_chars(v0.as_slice(), pat.as_slice(), 0) {
        Some(k) => {
            proof {
                crate::text::lemma_find_from(v0@, pat@, 0);
            }
            crate::text::range_vec(v0.as_slice(), 0, k)
        },
        None => v0,
    };
    let trimmed = crate::text::trim_chars(v.as_slice());
    Some(trim_quotes_exec(trimmed.as_slice()))
}

/// The pieces of text from `pos` on, split at every occurrence of a
/// non-empty pattern, taken left to right without overlap.
pub open spec fn split_from(s: Seq<char>, pat: Seq<char>, pos: int) -> Seq<Seq<char>>
    decreases s.len() + 1 - pos,
    via lemma_split_from_decreases
{
    if pat.len() == 0 || pos < 0 || pos > s.len() {
        Seq::empty()
    } else {
        match find_from(s, pat, pos) {
            None => seq![s.subrange(pos, s.len() as int)],
            Some(k) => seq![s.subrange(pos, k)] + split_from(s, pat, k + pat.len()),
        }
    }
}

/// Each piece split off leaves less text behind.
#[via_fn]
proof fn lemma_split_from_decreases(s: Seq<char>, pat: Seq<char>, pos: int) {
    if pat.len() > 0 && 0 <= pos <= s.len() {
        crate::text::lemma_find_from(s, pat, pos);
    }
}

/// The comment text a line carries for a kind of file, trimmed.
pub open spec fn comment_of(kind: ProseKind, line: Seq<char>) -> Option<Seq<char>> {
    let c = if kind == ProseKind::SlashComments {
        slash_comment_text(line)
    } else {
        hash_comment_text(line)
    };
    match c {
        Some(t) => Some(crate::text::trim(t)),
        None => None,
    }
}

/// The paragraphs found so far and the one being gathered, after one more
/// line.
pub open spec fn paragraph_step(kind: ProseKind, state: (Seq<Seq<char>>, Seq<char>), line: Seq<char>) -> (Seq<Seq<char>>, Seq<char>) {
    let (done, current) = state;
    let flushed = if current.len() > 0 {
        done.push(current)
    } else {
        done
    };
    if kind == ProseKind::Yaml && yaml_name_text(line) is Some {
        (flushed.push(yaml_name_text(line)->0), Seq::empty())
    } else {
        match comment_of(kind, line) {
            Some(prose) => if prose.len() > 0 {
                (done, current + seq![' '] + prose)
            } else {
                (flushed, Seq::empty())
            },
            None => (flushed, Seq::empty()),
        }
    }
}

/// The paragraphs after the given lines.
pub open spec fn paragraph_run(kind: ProseKind, ls: Seq<Seq<char>>) -> (Seq<Seq<char>>, Seq<char>)
    decreases ls.len(),
{
    if ls.len() == 0 {
        (Seq::empty(), Seq::empty())
    } else {
        paragraph_step(kind, paragraph_run(kind, ls.drop_last()), ls.last())
    }
}

/// The prose a text carries, as paragraphs, given the path it came from.
///
/// Markdown and the issue forms split at blank lines. Elsewhere consecutive
/// comment lines join into one paragraph, each line's text after a space, so
/// a phrase wrapped across two of them reads whole; a YAML `name:` value is a
/// paragraph of its own. A file no kind reads yields nothing.
pub open spec fn prose_paragraphs_text(path: Seq<char>, text: Seq<char>) -> Seq<Seq<char>> {
    match prose_kind_of(path) {
        None => Seq::empty(),
        Some(ProseKind::Whole) => split_from(text, "\n\n"@, 0),
        Some(kind) => {
            let (done, current) = paragraph_run(kind, crate::text::spec_lines(text));
            if current.len() > 0 {
                done.push(current)
            } else {
                done
            }
        },
    }
}

/// Text split at every blank line.
fn split_paragraphs(s: &[char]) -> (r: Vec<Vec<char>>)
    ensures
        views(r@) == split_from(s@, "\n\n"@, 0),
{
    let pat = chars_of("\n\n");
    proof {
        reveal_strlit("\n\n");
    }
    let len = s.len();
    let mut out: Vec<Vec<char>> = Vec::new();
    let mut pos: usize = 0;
    proof {
        assert(views(out@) =~= Seq::<Seq<char>>::empty());
    }
    loop
        invariant
            pat@ == "\n\n"@,
            pat@.len() == 2,
            len == s@.len(),
            pos <= len,
            views(out@) + split_from(s@, pat@, pos as int) == split_from(s@, pat@, 0),
        decreases len + 1 - pos,
    {
        let ghost before = views(out@);
        match find_chars(s, pat.as_slice(), pos) {
            None => {
                out.push(crate::text::range_vec(s, pos, len));
                proof {
                    assert(views(out@) =~= before + split_from(s@, pat@, pos as int));
                }
                return out;
            },
            Some(k) => {
                proof {
                    crate::text::lemma_find_from(s@, pat@, pos as int);
                }
                out.push(crate::text::range_vec(s, pos, k));
                proof {
                    assert(views(out@) + split_from(s@, pat@, k + 2) =~= before + split_from(s@, pat@, pos as int));
                }
                pos = k + 2;
            },
        }
    }
}

/// The prose a text carries, as paragraphs, given the path it came from.
pub fn prose_paragraphs(path: &str, text: &str) -> (r: Vec<String>)
    ensures
        Seq::new(r@.len(), |i: int| r@[i]@) == prose_paragraphs_text(path@, text@),
{
    let kind = match prose_kind(path) {
        None => return Vec::new(),
        Some(kind) => kind,
    };
    let mut out: Vec<String> = Vec::new();
    if kind == ProseKind::Whole {
        let pieces = split_paragraphs(chars_of(text).as_slice());
        let mut i: usize = 0;
        while i < pieces.len()
            invariant
                i <= pieces@.len(),
                out@.len() == i,
                forall|k: int| 0 <= k < i ==> (#[trigger] out@[k])@ == pieces@[k]@,
            decreases pieces@.len() - i,
        {
            out.push(string_of(pieces[i].as_slice()));
            i = i + 1;
        }
        proof {
            assert(Seq::new(out@.len(), |i: int| out@[i]@) =~= views(pieces@));
        }
        return out;
    }
    let ls = crate::text::lines(text);
    let ghost all = crate::text::spec_lines(text@);
    let mut current: Vec<char> = Vec::new();
    let mut i: usize = 0;
    proof {
        assert(all.take(0) =~= Seq::<Seq<char>>::empty());
        assert(Seq::new(out@.len(), |i: int| out@[i]@) =~= Seq::<Seq<char>>::empty());
    }
    while i < ls.len()
        invariant
            i <= ls@.len(),
            kind != ProseKind::Whole,
            ls@.len() == all.len(),
            forall|j: int| 0 <= j < ls@.len() ==> #[trigger] ls@[j]@ == all[j],
            (Seq::new(out@.len(), |i: int| out@[i]@), current@) == paragraph_run(kind, all.take(i as int)),
        decreases ls@.len() - i,
    {
        let line = ls[i].as_slice();
        let ghost state = paragraph_run(kind, all.take(i as int));
        proof {
            assert(all.take(i + 1).drop_last() =~= all.take(i as int));
            assert(all.take(i + 1).last() == line@);
        }
        let ghost before = Seq::new(out@.len(), |i: int| out@[i]@);
        let name = if kind == ProseKind::Yaml {
            yaml_name(line)
        } else {
            None
        };
        if let Some(name) = name {
            if current.len() > 0 {
                out.push(string_of(current.as_slice()));
            }
            out.push(string_of(name.as_slice()));
            current = Vec::new();
            proof {
                assert(Seq::new(out@.len(), |i: int| out@[i]@) =~= paragraph_step(kind, state, line@).0);
                assert(current@ =~= paragraph_step(kind, state, line@).1);
            }
        } else {
            let comment = if kind == ProseKind::SlashComments {
                slash_comment(line)
            } else {
                hash_comment(line)
            };
            let prose = match comment {
                Some(c) => Some(crate::text::trim_chars(c.as_slice())),
                None => None,
            };
            match prose {
                Some(p) => {
                    if p.len() > 0 {
                        current.push(' ');
                        let mut k: usize = 0;
                        let ghost mid = current@;
                        while k < p.len()
                            invariant
                                k <= p@.len(),
                                current@ == mid + p@.take(k as int),
                            decreases p@.len() - k,
                        {
                            current.push(p[k]);
                            k = k + 1;
                            assert(current@ =~= mid + p@.take(k as int));
                        }
                        proof {
                            assert(p@.take(p@.len() as int) =~= p@);
                        }
                    } else {
                        if current.len() > 0 {
                            out.push(string_of(current.as_slice()));
                        }
                        current = Vec::new();
                    }
                },
                None => {
                    if current.len() > 0 {
                        out.push(string_of(current.as_slice()));
                    }
                    current = Vec::new();
                },
            }
            proof {
                assert(Seq::new(out@.len(), |i: int| out@[i]@) =~= paragraph_step(kind, state, line@).0);
                assert(current@ =~= paragraph_step(kind, state, line@).1);
            }
        }
        i = i + 1;
    }
    proof {
        assert(all.take(all.len() as int) =~= all);
    }
    if current.len() > 0 {
        let ghost before = Seq::new(out@.len(), |i: int| out@[i]@);
        out.push(string_of(current.as_slice()));
        proof {
            assert(Seq::new(out@.len(), |i: int| out@[i]@) =~= before.push(current@));
        }
    }
    out
}

} // verus!
