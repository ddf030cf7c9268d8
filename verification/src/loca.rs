//! Materialization of a client build's localization tables.
//!
//! A mod that displays a line names a `LocaTagId`, and only the client carries
//! the table that resolves one. This command is the build step that turns the
//! decoded tables into files, so everything it writes lands under the
//! gitignored `.cache/loca/<buildid>` and is regenerated from a client the
//! developer fetched.
//!
//! One tab-separated file per language, because a developer reads the text to
//! find the id and commits the id alone. Decoding the client's containers is
//! the binary's part; choosing the languages, naming the files and writing the
//! rows is this module's.

use vstd::prelude::*;

use crate::text::{chars_of, decimal, decimal_string, push_char, push_str};
use crate::ui::owned;

verus! {

/// The language the tables are authored in.
pub const KEENGLISH: u32 = 0;

/// English, the one shipped language with a name of its own.
pub const ENGLISH: u32 = 1;

/// The columns every table opens with.
///
/// The id is decimal, because that is the spelling a mod's own constant takes.
pub const HEADER: &'static str = "id\targuments\tgeneric\ttext";

/// The line ending every table uses, matching the schema dumps.
pub const EOL: &'static str = "\r\n";

/// One decoded localization tag.
#[derive(Debug, Clone, PartialEq, Eq)]
pub struct LocaTag {
    /// The id a mod names.
    pub id: u32,
    /// The text.
    pub text: String,
    /// How many arguments the text takes.
    pub arguments: u32,
    /// How many generic arguments the text takes.
    pub generic_arguments: u32,
}

/// How one character of a tag's text is written in a table.
pub open spec fn escape_char(c: char) -> Seq<char> {
    if c == '\\' {
        seq!['\\', '\\']
    } else if c == '\t' {
        seq!['\\', 't']
    } else if c == '\n' {
        seq!['\\', 'n']
    } else if c == '\r' {
        seq!['\\', 'r']
    } else {
        seq![c]
    }
}

/// A tag's text as a table writes it.
pub open spec fn escape_text(text: Seq<char>) -> Seq<char>
    decreases text.len(),
{
    if text.len() == 0 {
        Seq::empty()
    } else {
        escape_text(text.drop_last()) + escape_char(text.last())
    }
}

/// One tag's text, with everything that would end a row or a column escaped.
///
/// UI text carries line breaks, so a row holding a raw one would read as two
/// rows and shift every column after it.
pub fn escape(text: &str) -> (r: String)
    ensures
        r@ == escape_text(text@),
{
    let cs = chars_of(text);
    let mut out = String::new();
    let mut i: usize = 0;
    while i < cs.len()
        invariant
            i <= cs@.len(),
            out@ == escape_text(cs@.take(i as int)),
        decreases cs@.len() - i,
    {
        let c = cs[i];
        if c == '\\' {
            push_char(&mut out, '\\');
            push_char(&mut out, '\\');
        } else if c == '\t' {
            push_char(&mut out, '\\');
            push_char(&mut out, 't');
        } else if c == '\n' {
            push_char(&mut out, '\\');
            push_char(&mut out, 'n');
        } else if c == '\r' {
            push_char(&mut out, '\\');
            push_char(&mut out, 'r');
        } else {
            push_char(&mut out, c);
        }
        i = i + 1;
        assert(cs@.take(i as int).drop_last() == cs@.take(i - 1));
    }
    assert(cs@.take(cs@.len() as int) == cs@);
    out
}

/// Escaped text holds no tab, line feed or carriage return, so it never ends
/// a column or a row.
pub proof fn lemma_escaped_text_stays_in_its_cell(text: Seq<char>)
    ensures
        forall|i: int| 0 <= i < escape_text(text).len() ==> {
            let c = #[trigger] escape_text(text)[i];
            c != '\t' && c != '\n' && c != '\r'
        },
    decreases text.len(),
{
    if text.len() > 0 {
        lemma_escaped_text_stays_in_its_cell(text.drop_last());
        let head = escape_text(text.drop_last());
        let tail = escape_char(text.last());
        assert forall|i: int| 0 <= i < escape_text(text).len() implies {
            let c = #[trigger] escape_text(text)[i];
            c != '\t' && c != '\n' && c != '\r'
        } by {
            if i >= head.len() {
                assert(escape_text(text)[i] == tail[i - head.len()]);
            } else {
                assert(escape_text(text)[i] == head[i]);
            }
        }
    }
}

/// Reading an escaped text back: every backslash pair and every other
/// character decoded in turn. `None` when a lone backslash ends it.
pub open spec fn unescape_text(s: Seq<char>) -> Option<Seq<char>>
    decreases s.len(),
{
    if s.len() == 0 {
        Some(Seq::empty())
    } else if s[0] == '\\' {
        if s.len() < 2 {
            None
        } else {
            let c = if s[1] == 't' {
                '\t'
            } else if s[1] == 'n' {
                '\n'
            } else if s[1] == 'r' {
                '\r'
            } else {
                s[1]
            };
            match unescape_text(s.subrange(2, s.len() as int)) {
                Some(rest) => Some(seq![c] + rest),
                None => None,
            }
        }
    } else {
        match unescape_text(s.drop_first()) {
            Some(rest) => Some(seq![s[0]] + rest),
            None => None,
        }
    }
}

/// Escaping then prefixing: reading `escape_char(c) + rest` back gives `c`
/// before what `rest` reads as.
proof fn lemma_unescape_prefix(c: char, rest: Seq<char>)
    ensures
        unescape_text(escape_char(c) + rest) == match unescape_text(rest) {
            Some(r) => Some(seq![c] + r),
            None => None::<Seq<char>>,
        },
{
    let s = escape_char(c) + rest;
    if c == '\\' || c == '\t' || c == '\n' || c == '\r' {
        assert(s.subrange(2, s.len() as int) =~= rest);
    } else {
        assert(s.drop_first() =~= rest);
    }
}

/// Escaping text with one more character in front.
proof fn lemma_escape_front(c: char, text: Seq<char>)
    ensures
        escape_text(seq![c] + text) == escape_char(c) + escape_text(text),
    decreases text.len(),
{
    if text.len() == 0 {
        assert(seq![c] + text =~= seq![c]);
        assert(seq![c].drop_last() =~= Seq::<char>::empty());
        assert(seq![c].last() == c);
        assert(escape_text(Seq::<char>::empty()) == Seq::<char>::empty());
        assert(escape_text(seq![c]) == escape_text(seq![c].drop_last()) + escape_char(c));
        assert(escape_char(c) + escape_text(text) =~= escape_char(c));
        assert(escape_text(seq![c]) =~= escape_char(c));
    } else {
        lemma_escape_front(c, text.drop_last());
        assert((seq![c] + text).drop_last() =~= seq![c] + text.drop_last());
        assert((seq![c] + text).last() == text.last());
        assert(escape_text(seq![c] + text) =~= escape_char(c) + escape_text(text.drop_last()) + escape_char(text.last()));
    }
}

/// Escaped text reads back as the text it came from, so two different texts
/// never share a cell.
pub proof fn lemma_escape_round_trips(text: Seq<char>)
    ensures
        unescape_text(escape_text(text)) == Some(text),
    decreases text.len(),
{
    if text.len() > 0 {
        let rest = text.drop_first();
        lemma_escape_round_trips(rest);
        assert(text =~= seq![text[0]] + rest);
        lemma_escape_front(text[0], rest);
        lemma_unescape_prefix(text[0], escape_text(rest));
        assert(seq![text[0]] + rest =~= text);
    }
}

/// The file one language's table is written to.
pub open spec fn table_name_text(id: u32) -> Seq<char> {
    if id == KEENGLISH {
        "keenglish.tsv"@
    } else if id == ENGLISH {
        "english.tsv"@
    } else {
        "language-"@ + decimal(id as nat) + ".tsv"@
    }
}

/// The file one language's table is written to.
///
/// Two ids have names and nothing here invents a name for the rest, so an
/// unidentified language keeps its number.
pub fn table_name(id: u32) -> (r: String)
    ensures
        r@ == table_name_text(id),
{
    if id == KEENGLISH {
        owned("keenglish.tsv")
    } else if id == ENGLISH {
        owned("english.tsv")
    } else {
        let mut r = owned("language-");
        push_str(&mut r, decimal_string(id as u64).as_str());
        push_str(&mut r, ".tsv");
        r
    }
}

/// One tag's row in a table.
pub open spec fn row_text(tag: LocaTag) -> Seq<char> {
    decimal(tag.id as nat) + seq!['\t'] + decimal(tag.arguments as nat) + seq!['\t'] + decimal(
        tag.generic_arguments as nat,
    ) + seq!['\t'] + escape_text(tag.text@) + EOL@
}

/// A table's text: the header, then one row per tag.
pub open spec fn table_text(tags: Seq<LocaTag>) -> Seq<char>
    decreases tags.len(),
{
    if tags.len() == 0 {
        HEADER@ + EOL@
    } else {
        table_text(tags.drop_last()) + row_text(tags.last())
    }
}

/// One language's table, as tab-separated rows under a header.
pub fn table(tags: &[LocaTag]) -> (r: String)
    ensures
        r@ == table_text(tags@),
{
    let mut out = owned(HEADER);
    push_str(&mut out, EOL);
    let mut i: usize = 0;
    while i < tags.len()
        invariant
            i <= tags@.len(),
            out@ == table_text(tags@.take(i as int)),
        decreases tags@.len() - i,
    {
        let tag = &tags[i];
        push_str(&mut out, decimal_string(tag.id as u64).as_str());
        push_char(&mut out, '\t');
        push_str(&mut out, decimal_string(tag.arguments as u64).as_str());
        push_char(&mut out, '\t');
        push_str(&mut out, decimal_string(tag.generic_arguments as u64).as_str());
        push_char(&mut out, '\t');
        push_str(&mut out, escape(tag.text.as_str()).as_str());
        push_str(&mut out, EOL);
        i = i + 1;
        assert(tags@.take(i as int).drop_last() == tags@.take(i - 1));
    }
    assert(tags@.take(tags@.len() as int) == tags@);
    out
}

/// The predicate that holds of a table carrying this id.
pub open spec fn has_id<H>(id: u32) -> spec_fn((u32, H)) -> bool {
    |p: (u32, H)| p.0 == id
}

/// The table a language id names: the authoring table for
/// [`KEENGLISH`], else the first shipped table carrying that id.
pub open spec fn language_of<H>(keenglish: H, languages: Seq<(u32, H)>, id: u32) -> Option<H> {
    if id == KEENGLISH {
        Some(keenglish)
    } else {
        match crate::text::first_from(languages, has_id::<H>(id), 0) {
            Some(k) => Some(languages[k].1),
            None => None,
        }
    }
}

/// The table a language id names.
fn language<H: Copy>(keenglish: H, languages: &[(u32, H)], id: u32) -> (r: Option<H>)
    ensures
        r == language_of(keenglish, languages@, id),
{
    if id == KEENGLISH {
        return Some(keenglish);
    }
    let mut k: usize = 0;
    while k < languages.len()
        invariant
            k <= languages@.len(),
            id != KEENGLISH,
            forall|j: int| 0 <= j < k ==> (#[trigger] languages@[j]).0 != id,
        decreases languages@.len() - k,
    {
        if languages[k].0 == id {
            proof {
                crate::text::lemma_first_from_at(languages@, has_id::<H>(id), 0, k as int);
            }
            return Some(languages[k].1);
        }
        k = k + 1;
    }
    proof {
        crate::text::lemma_first_from_none(languages@, has_id::<H>(id), 0);
    }
    None
}

/// Whether a list of tables is in ascending id order.
pub open spec fn ids_ascending<H>(s: Seq<(u32, H)>) -> bool {
    forall|i: int, j: int| 0 <= i < j < s.len() ==> (#[trigger] s[i]).0 <= (#[trigger] s[j]).0
}

/// Whether a list of ids is in ascending order with no repeats.
pub open spec fn strictly_ascending(s: Seq<u32>) -> bool {
    forall|i: int, j: int| 0 <= i < j < s.len() ==> #[trigger] s[i] < #[trigger] s[j]
}

/// Insert a table where its id sorts, after any with the same id.
fn insert_by_id<H: Copy>(out: &mut Vec<(u32, H)>, item: (u32, H))
    requires
        ids_ascending(old(out)@),
    ensures
        ids_ascending(final(out)@),
        final(out)@.to_multiset() == old(out)@.to_multiset().insert(item),
{
    let mut p: usize = 0;
    while p < out.len() && out[p].0 <= item.0
        invariant
            p <= out@.len(),
            out@ == old(out)@,
            forall|i: int| 0 <= i < p ==> (#[trigger] out@[i]).0 <= item.0,
        decreases out@.len() - p,
    {
        p = p + 1;
    }
    let ghost before = out@;
    out.insert(p, item);
    proof {
        vstd::seq_lib::to_multiset_insert(before, p as int, item);
        assert(out@ =~= before.insert(p as int, item));
    }
}

/// Insert an id into an ascending list with no repeats.
fn insert_id(out: &mut Vec<u32>, id: u32)
    requires
        strictly_ascending(old(out)@),
    ensures
        strictly_ascending(final(out)@),
        final(out)@.to_set() == old(out)@.to_set().insert(id),
{
    let mut p: usize = 0;
    while p < out.len() && out[p] < id
        invariant
            p <= out@.len(),
            out@ == old(out)@,
            forall|i: int| 0 <= i < p ==> #[trigger] out@[i] < id,
        decreases out@.len() - p,
    {
        p = p + 1;
    }
    if p < out.len() && out[p] == id {
        proof {
            assert(out@.to_set() =~= out@.to_set().insert(id));
        }
        return;
    }
    let ghost before = out@;
    out.insert(p, id);
    proof {
        assert(out@ =~= before.insert(p as int, id));
        assert forall|x: u32| #[trigger] out@.to_set().contains(x) == before.to_set().insert(id).contains(x) by {
            if out@.contains(x) {
                let k = choose|k: int| 0 <= k < out@.len() && out@[k] == x;
                if k < p {
                    assert(before[k] == x);
                } else if k > p {
                    assert(before[k - 1] == x);
                }
            }
            if before.contains(x) {
                let k = choose|k: int| 0 <= k < before.len() && before[k] == x;
                if k < p {
                    assert(out@[k] == x);
                } else {
                    assert(out@[k + 1] == x);
                }
            }
            if x == id {
                assert(out@[p as int] == id);
            }
        }
        assert(out@.to_set() =~= before.to_set().insert(id));
    }
}

/// The ids a build ships, authoring language first, as a refusal lists them.
pub open spec fn shipped_list<H>(languages: Seq<(u32, H)>) -> Seq<char>
    decreases languages.len(),
{
    if languages.len() == 0 {
        decimal(KEENGLISH as nat)
    } else {
        shipped_list(languages.drop_last()) + ", "@ + decimal(languages.last().0 as nat)
    }
}

/// The refusal for a named language the build does not ship.
pub open spec fn absent_language_text<H>(id: u32, languages: Seq<(u32, H)>) -> Seq<char> {
    "this build ships no language "@ + decimal(id as nat) + ". It carries "@ + shipped_list(languages)
        + "."@
}

/// The refusal for a named language the build does not ship.
fn absent_language<H: Copy>(id: u32, languages: &[(u32, H)]) -> (r: String)
    ensures
        r@ == absent_language_text(id, languages@),
{
    let mut list = decimal_string(KEENGLISH as u64);
    let mut i: usize = 0;
    while i < languages.len()
        invariant
            i <= languages@.len(),
            list@ == shipped_list(languages@.take(i as int)),
        decreases languages@.len() - i,
    {
        push_str(&mut list, ", ");
        push_str(&mut list, decimal_string(languages[i].0 as u64).as_str());
        i = i + 1;
        assert(languages@.take(i as int).drop_last() == languages@.take(i - 1));
    }
    assert(languages@.take(languages@.len() as int) == languages@);
    let mut r = owned("this build ships no language ");
    push_str(&mut r, decimal_string(id as u64).as_str());
    push_str(&mut r, ". It carries ");
    push_str(&mut r, list.as_str());
    push_str(&mut r, ".");
    r
}

/// The languages to write, as `(id, table)` in ascending id order.
///
/// With none named, every table the build carries is written, the authoring
/// language first and the shipped ones after it in ascending id order. Named
/// ids are written once each, in ascending order, and each must be one the
/// build ships: one that is not is refused by name rather than skipped,
/// because a silent skip leaves an empty directory looking like a successful
/// extraction.
///
/// # Errors
///
/// Returns the refusal for the smallest named id the build does not ship.
pub fn select_languages<H: Copy>(keenglish: H, languages: &[(u32, H)], wanted: &[u32]) -> (r: Result<Vec<(u32, H)>, String>)
    ensures
        wanted@.len() == 0 ==> (r matches Ok(v) && v@.len() == languages@.len() + 1 && v@[0] == (KEENGLISH, keenglish)
            && ids_ascending(v@.drop_first()) && v@.drop_first().to_multiset() == languages@.to_multiset()),
        wanted@.len() > 0 ==> match r {
            Ok(v) => strictly_ascending(Seq::new(v@.len(), |i: int| v@[i].0)) && Seq::new(v@.len(), |i: int| v@[i].0).to_set()
                == wanted@.to_set() && forall|i: int| 0 <= i < v@.len() ==> language_of(keenglish, languages@, (#[trigger] v@[i]).0)
                == Some(v@[i].1),
            Err(m) => exists|id: u32| wanted@.contains(id) && language_of(keenglish, languages@, id) is None && m@
                == absent_language_text(id, languages@) && forall|other: u32| #[trigger] wanted@.contains(other) && other < id
                ==> language_of(keenglish, languages@, other) is Some,
        },
{
    if wanted.len() == 0 {
        let mut shipped: Vec<(u32, H)> = Vec::new();
        assert(languages@.take(0) =~= shipped@);
        let mut i: usize = 0;
        while i < languages.len()
            invariant
                i <= languages@.len(),
                ids_ascending(shipped@),
                shipped@.to_multiset() == languages@.take(i as int).to_multiset(),
            decreases languages@.len() - i,
        {
            insert_by_id(&mut shipped, languages[i]);
            proof {
                assert(languages@.take(i + 1) =~= languages@.take(i as int).push(languages@[i as int]));
                vstd::seq_lib::to_multiset_build(languages@.take(i as int), languages@[i as int]);
            }
            i = i + 1;
        }
        assert(languages@.take(languages@.len() as int) =~= languages@);
        let mut all: Vec<(u32, H)> = Vec::new();
        all.push((KEENGLISH, keenglish));
        let ghost shipped_seq = shipped@;
        all.append(&mut shipped);
        proof {
            assert(all@.drop_first() =~= shipped_seq);
            vstd::seq_lib::to_multiset_len(shipped_seq);
            vstd::seq_lib::to_multiset_len(languages@);
        }
        return Ok(all);
    }
    let mut ids: Vec<u32> = Vec::new();
    let mut i: usize = 0;
    while i < wanted.len()
        invariant
            i <= wanted@.len(),
            strictly_ascending(ids@),
            ids@.to_set() == wanted@.take(i as int).to_set(),
        decreases wanted@.len() - i,
    {
        insert_id(&mut ids, wanted[i]);
        proof {
            assert(wanted@.take(i + 1) =~= wanted@.take(i as int).push(wanted@[i as int]));
            Seq::lemma_to_set_insert_commutes(wanted@.take(i as int), wanted@[i as int]);
            assert(wanted@.take(i as int) + seq![wanted@[i as int]] =~= wanted@.take(i + 1));
            assert(wanted@.take(i + 1).to_set() =~= wanted@.take(i as int).to_set().insert(wanted@[i as int]));
        }
        i = i + 1;
    }
    assert(wanted@.take(wanted@.len() as int) =~= wanted@);
    let mut out: Vec<(u32, H)> = Vec::new();
    let mut k: usize = 0;
    while k < ids.len()
        invariant
            k <= ids@.len(),
            strictly_ascending(ids@),
            ids@.to_set() == wanted@.to_set(),
            out@.len() == k,
            forall|j: int| 0 <= j < k ==> (#[trigger] out@[j]).0 == ids@[j] && language_of(keenglish, languages@, ids@[j]) == Some(out@[j].1),
        decreases ids@.len() - k,
    {
        let id = ids[k];
        match language(keenglish, languages, id) {
            Some(h) => out.push((id, h)),
            None => {
                proof {
                    assert(ids@.to_set().contains(id));
                    assert(wanted@.contains(id));
                    assert forall|other: u32| #[trigger] wanted@.contains(other) && other < id implies language_of(keenglish, languages@, other) is Some by {
                        assert(ids@.to_set().contains(other));
                        let j = choose|j: int| 0 <= j < ids@.len() && ids@[j] == other;
                        if j >= k {
                            if j > k {
                                assert(ids@[k as int] < ids@[j]);
                            }
                        }
                        assert(out@[j].0 == ids@[j]);
                    }
                }
                return Err(absent_language(id, languages));
            },
        }
        k = k + 1;
    }
    proof {
        assert(Seq::new(out@.len(), |i: int| out@[i].0) =~= ids@);
    }
    Ok(out)
}

/// Where the manifest lookup looked, in order: the client's install
/// directory, then the library root when there is one.
pub open spec fn tried_text(install: Seq<char>, library: Option<Seq<char>>) -> Seq<char> {
    match library {
        Some(l) => install + " or "@ + l,
        None => install,
    }
}

/// The error when no app manifest names the client's buildid.
pub open spec fn no_manifest_text(client: Seq<char>, install: Seq<char>, library: Option<Seq<char>>) -> Seq<char> {
    "no app manifest under a steamapps directory in "@ + tried_text(install, library)
        + ". Pass --build <buildid> to name the extraction directory for "@ + client + "."@
}

/// The buildid that names a client's output directory when none was named,
/// from what the app manifests recorded: the one under the client's install
/// directory, else the one under the library root (looked at only when there
/// is one), else the error naming where the lookup looked.
pub fn manifest_build_choice(
    client: &str,
    install: &str,
    at_install: Option<String>,
    library: Option<&str>,
    at_library: Option<String>,
) -> (r: Result<String, String>)
    ensures
        match at_install {
            Some(b) => r matches Ok(x) && x@ == b@,
            None => match (library, at_library) {
                (Some(_), Some(b)) => r matches Ok(x) && x@ == b@,
                _ => r matches Err(m) && m@ == no_manifest_text(
                    client@,
                    install@,
                    match library {
                        Some(l) => Some(l@),
                        None => None,
                    },
                ),
            },
        },
{
    if let Some(b) = at_install {
        return Ok(b);
    }
    if let (Some(_), Some(b)) = (library, at_library) {
        return Ok(b);
    }
    let mut m = String::new();
    push_str(&mut m, "no app manifest under a steamapps directory in ");
    push_str(&mut m, install);
    if let Some(l) = library {
        push_str(&mut m, " or ");
        push_str(&mut m, l);
    }
    push_str(&mut m, ". Pass --build <buildid> to name the extraction directory for ");
    push_str(&mut m, client);
    push_str(&mut m, ".");
    Err(m)
}

} // verus!
