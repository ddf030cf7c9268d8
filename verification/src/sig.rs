//! Following a hooked address from one build into the next.
//!
//! One subcommand per stage. `analyze` imports a build into a Ghidra project,
//! analyzes it and seeds a function at every program entry. `export` writes the
//! analyzed program out as a `BinExport` file. `diff` runs `BinDiff` over a pair of
//! those files. `read` prints what the result database proposes for an address.
//!
//! Seeding is why the rest works on an engine entry. A program record's entry
//! function is referenced only from the record in `.rdata`, so nothing calls
//! it, auto-analysis never reaches it, and an address the exporter does not
//! know as a function can never be matched. The entries come from the same walk
//! `schema extract` prints, so both commands read one list out of one image.
//!
//! **A proposal is a candidate, never an answer.** The differ matches call
//! graphs. Confirm every row against the binary itself, by the shape of the
//! call graph around it and by a string anchor, before it reaches a signature
//! row.
//!
//! This module holds what the stages decide: the seed list, the names of the
//! files each stage reads and writes, the arguments a headless run takes, and
//! how a finished run is judged. Starting the tools and waiting on them is the
//! binary's part.

use vstd::prelude::*;

use crate::image::Image;
use crate::schema::program::{ProgramView, spec_walk, walk};
use crate::steam::{is_sep, join, spec_join};
use crate::text::{
    chars_of, debug_str, debug_str_text, find_chars, find_from, hex_string, hex_text, lines,
    occurs_at, parse_hex, push_char, push_str, signed_decimal, signed_decimal_string, spec_lines,
    spec_parse_hex, string_of, string_of_range, trim, trim_chars, trim_start, trim_start_chars,
};
use crate::ui::{Mark, Row, RowView};

verus! {

/// The variable naming a Ghidra installation.
pub const GHIDRA_HOME: &'static str = "EMBER_GHIDRA_HOME";

/// The variable naming a `BinDiff` installation.
pub const BINDIFF_HOME: &'static str = "EMBER_BINDIFF_HOME";

/// The Ghidra class every headless stage drives.
pub const HEADLESS_CLASS: &'static str = "ghidra.app.util.headless.AnalyzeHeadless";

/// The directory holding the Ghidra scripts this module runs, under the
/// workspace root.
pub const SCRIPT_DIR: [&'static str; 2] = ["xtask", "ghidra"];

/// The script that creates a function at each seeded address.
pub const SEED_SCRIPT: &'static str = "SeedFunctions.java";

/// The script that writes the `BinExport` file.
pub const EXPORT_SCRIPT: &'static str = "ExportBinExport.java";

/// The file an analyze run writes its seed addresses to.
pub const SEED_FILE: &'static str = "seed-addresses.txt";

/// The server executable inside a fetched or archived build.
pub const SERVER_EXE: &'static str = "enshrouded_server.exe";

/// Java options every headless run carries.
///
/// The collector and the compiler are held to two threads each, so a run that
/// takes a quarter of an hour leaves the machine usable.
pub const VM_ARGS: &'static str = "-XX:ParallelGCThreads=2 -XX:CICompilerCount=2";

/// What a headless log holds once the program is on disk.
pub const SAVED: &'static str = "Save succeeded";

/// The line every generated address list opens with.
pub const SEED_HEADER: &'static str = "# Auto-generated by `cargo xtask sig analyze`. Do not edit.\n";

/// The digits an address is written with, once a `0x` or `0X` prefix is
/// dropped.
pub open spec fn address_digits(s: Seq<char>) -> Seq<char> {
    if occurs_at(s, "0x"@, 0) || occurs_at(s, "0X"@, 0) {
        s.subrange(2, s.len() as int)
    } else {
        s
    }
}

/// The refusal for text that is not an address.
pub open spec fn address_refusal(text: Seq<char>) -> Seq<char> {
    debug_str_text(text) + " is not a hexadecimal address"@
}

/// Read one address, with or without the `0x` prefix.
///
/// # Errors
///
/// Returns an error naming the text that is not an address.
pub fn parse_address(text: &str) -> (r: Result<u64, String>)
    ensures
        match spec_parse_hex(address_digits(text@)) {
            Some(v) => r == Ok::<u64, String>(v),
            None => r matches Err(m) && m@ == address_refusal(text@),
        },
{
    let s = chars_of(text);
    let lower = crate::text::starts_with_chars(s.as_slice(), "0x");
    let upper = crate::text::starts_with_chars(s.as_slice(), "0X");
    proof {
        reveal_strlit("0x");
        reveal_strlit("0X");
    }
    let value = if lower || upper {
        parse_hex(&s[2..s.len()])
    } else {
        parse_hex(s.as_slice())
    };
    match value {
        Some(v) => Ok(v),
        None => {
            let mut m = debug_str(text);
            push_str(&mut m, " is not a hexadecimal address");
            Err(m)
        },
    }
}

/// The text of the address list for these addresses.
pub open spec fn seed_list_text(addresses: Seq<u64>) -> Seq<char>
    decreases addresses.len(),
{
    if addresses.len() == 0 {
        SEED_HEADER@
    } else {
        seed_list_text(addresses.drop_last()) + "0x"@ + hex_text(addresses.last() as nat) + seq!['\n']
    }
}

/// The address list the seeding script reads: the generated header, then one
/// address per line in `0x` hexadecimal.
pub fn seed_list(addresses: &[u64]) -> (out: String)
    ensures
        out@ == seed_list_text(addresses@),
{
    let mut out = String::new();
    push_str(&mut out, SEED_HEADER);
    let mut i: usize = 0;
    while i < addresses.len()
        invariant
            i <= addresses@.len(),
            out@ == seed_list_text(addresses@.take(i as int)),
        decreases addresses@.len() - i,
    {
        push_str(&mut out, "0x");
        push_str(&mut out, hex_string(addresses[i]).as_str());
        push_char(&mut out, '\n');
        i = i + 1;
        assert(addresses@.take(i as int).drop_last() == addresses@.take(i - 1));
    }
    assert(addresses@.take(addresses@.len() as int) == addresses@);
    out
}

/// Whether a list of addresses is in ascending order with no repeats.
pub open spec fn strictly_ascending(s: Seq<u64>) -> bool {
    forall|i: int, j: int| 0 <= i < j < s.len() ==> #[trigger] s[i] < #[trigger] s[j]
}

/// The entry addresses of the program records that carry one.
pub open spec fn entry_set(programs: Seq<ProgramView>) -> Set<u64> {
    Set::new(|a: u64| a != 0 && exists|i: int| 0 <= i < programs.len() && #[trigger] programs[i].entry == a)
}

/// The addresses named by hand, when every one of them parses.
pub open spec fn extra_set(extra: Seq<Seq<char>>) -> Set<u64> {
    Set::new(|a: u64| exists|i: int| 0 <= i < extra.len() && spec_parse_hex(address_digits(#[trigger] extra[i])) == Some(a))
}

/// Insert an address into an ascending list with no repeats.
fn insert_address(out: &mut Vec<u64>, a: u64)
    requires
        strictly_ascending(old(out)@),
    ensures
        strictly_ascending(final(out)@),
        final(out)@.to_set() == old(out)@.to_set().insert(a),
{
    let mut p: usize = 0;
    while p < out.len() && out[p] < a
        invariant
            p <= out@.len(),
            out@ == old(out)@,
            forall|i: int| 0 <= i < p ==> #[trigger] out@[i] < a,
        decreases out@.len() - p,
    {
        p = p + 1;
    }
    if p < out.len() && out[p] == a {
        proof {
            assert(out@.to_set() =~= out@.to_set().insert(a));
        }
        return;
    }
    let ghost before = out@;
    out.insert(p, a);
    proof {
        assert(out@ =~= before.insert(p as int, a));
        assert forall|x: u64| #[trigger] out@.to_set().contains(x) == before.to_set().insert(a).contains(x) by {
            if out@.contains(x) {
                let k = choose|k: int| 0 <= k < out@.len() && out@[k] == x;
                if k < p {
                    assert(before[k] == x);
                } else if k > p {
                    assert(before[k - 1] == x);
                }
            }
            if before.contains(x) {
                let k = choose|k: int| 0 <= k < before.len() && before[k] == x;
                if k < p {
                    assert(out@[k] == x);
                } else {
                    assert(out@[k + 1] == x);
                }
            }
            if x == a {
                assert(out@[p as int] == a);
            }
        }
        assert(out@.to_set() =~= before.to_set().insert(a));
    }
}

/// Every address a function is created at, sorted and without repeats: the
/// entry of every program record that carries one, and each address named by
/// hand.
///
/// The program entries come from the image itself rather than from a dump on
/// disk, so this stage needs no extraction to have run first and cannot read a
/// stale one. A record whose entry is zero belongs to the other build and names
/// no address here.
///
/// # Errors
///
/// Returns the refusal of the first address named by hand that does not parse.
pub fn seed_addresses(image: &Image, extra: &[String]) -> (r: Result<Vec<u64>, String>)
    ensures
        match r {
            Ok(v) => (forall|i: int| 0 <= i < extra@.len() ==> spec_parse_hex(address_digits(#[trigger] extra@[i]@)) is Some)
                && strictly_ascending(v@) && v@.to_set() == entry_set(spec_walk(*image)) + extra_set(
                Seq::new(extra@.len(), |i: int| extra@[i]@),
            ),
            Err(m) => exists|i: int|
                0 <= i < extra@.len() && spec_parse_hex(address_digits(#[trigger] extra@[i]@)) is None && m@
                    == address_refusal(extra@[i]@) && forall|j: int|
                    0 <= j < i ==> spec_parse_hex(address_digits(#[trigger] extra@[j]@)) is Some,
        },
{
    let programs = walk(image);
    let ghost pv = spec_walk(*image);
    let ghost ev = Seq::new(extra@.len(), |i: int| extra@[i]@);
    let mut found: Vec<u64> = Vec::new();
    let mut i: usize = 0;
    while i < programs.len()
        invariant
            i <= programs@.len(),
            crate::schema::program::programs_view(programs@) == pv,
            strictly_ascending(found@),
            found@.to_set() == Set::new(|a: u64| a != 0 && exists|k: int| 0 <= k < i && #[trigger] pv[k].entry == a),
        decreases programs@.len() - i,
    {
        let entry = programs[i].entry;
        let ghost prev = found@.to_set();
        assert(pv[i as int].entry == entry);
        if entry != 0 {
            insert_address(&mut found, entry);
        }
        proof {
            assert(found@.to_set() =~= Set::new(|a: u64| a != 0 && exists|k: int| 0 <= k < i + 1 && #[trigger] pv[k].entry == a)) by {
                assert forall|a: u64| #[trigger] found@.to_set().contains(a) implies a != 0 && exists|k: int| 0 <= k < i + 1 && #[trigger] pv[k].entry == a by {
                    if a == entry && entry != 0 {
                        assert(pv[i as int].entry == a);
                    } else {
                        assert(prev.contains(a));
                    }
                }
                assert forall|a: u64| a != 0 && (exists|k: int| 0 <= k < i + 1 && #[trigger] pv[k].entry == a) implies #[trigger] found@.to_set().contains(a) by {
                    let k = choose|k: int| 0 <= k < i + 1 && #[trigger] pv[k].entry == a;
                    if k < i {
                        assert(prev.contains(a));
                    }
                }
            }
        }
        i = i + 1;
    }
    proof {
        assert(found@.to_set() =~= entry_set(pv));
    }
    let mut j: usize = 0;
    while j < extra.len()
        invariant
            j <= extra@.len(),
            ev == Seq::new(extra@.len(), |i: int| extra@[i]@),
            strictly_ascending(found@),
            found@.to_set() == entry_set(pv) + Set::new(|a: u64| exists|k: int| 0 <= k < j && spec_parse_hex(address_digits(#[trigger] ev[k])) == Some(a)),
            forall|k: int| 0 <= k < j ==> spec_parse_hex(address_digits(#[trigger] extra@[k]@)) is Some,
        decreases extra@.len() - j,
    {
        assert(ev[j as int] == extra@[j as int]@);
        let a = match parse_address(extra[j].as_str()) {
            Ok(a) => a,
            Err(m) => return Err(m),
        };
        let ghost prev = found@.to_set();
        insert_address(&mut found, a);
        proof {
            let want = entry_set(pv) + Set::new(|x: u64| exists|k: int| 0 <= k < j + 1 && spec_parse_hex(address_digits(#[trigger] ev[k])) == Some(x));
            assert forall|x: u64| #[trigger] found@.to_set().contains(x) == want.contains(x) by {
                if x == a {
                    assert(spec_parse_hex(address_digits(ev[j as int])) == Some(x));
                }
                if want.contains(x) && !entry_set(pv).contains(x) {
                    let k = choose|k: int| 0 <= k < j + 1 && spec_parse_hex(address_digits(#[trigger] ev[k])) == Some(x);
                    if k < j {
                        assert(prev.contains(x));
                    }
                }
            }
            assert(found@.to_set() =~= want);
        }
        j = j + 1;
    }
    proof {
        assert(Set::new(|a: u64| exists|k: int| 0 <= k < j && spec_parse_hex(address_digits(#[trigger] ev[k])) == Some(a)) =~= extra_set(ev));
    }
    Ok(found)
}

/// `a` then `b`.
fn concat2(a: &str, b: &str) -> (out: String)
    ensures
        out@ == a@ + b@,
{
    let mut out = String::new();
    push_str(&mut out, a);
    push_str(&mut out, b);
    out
}

/// The `BinExport` file one build's project holds.
pub fn export_path(project: &str, build: &str) -> (r: String)
    ensures
        r@ == spec_join(project@, build@ + ".BinExport"@),
{
    join(project, concat2(build, ".BinExport").as_str())
}

/// The file Ghidra writes for a project, which says the project is there.
///
/// The directory is no answer: this command creates it to hold the address
/// list before Ghidra runs at all.
pub fn project_file(project: &str, build: &str) -> (r: String)
    ensures
        r@ == spec_join(project@, build@ + ".gpr"@),
{
    join(project, concat2(build, ".gpr").as_str())
}

/// The result database a pair's directory holds.
///
/// `BinDiff` names its result after the two input file stems, which are the two
/// buildids.
pub fn result_path(pair: &str, old: &str, new: &str) -> (r: String)
    ensures
        r@ == spec_join(pair@, old@ + "_vs_"@ + new@ + ".BinDiff"@),
{
    let mut name = concat2(old, "_vs_");
    push_str(&mut name, new);
    push_str(&mut name, ".BinDiff");
    join(pair, name.as_str())
}

/// Where the last component of a path begins.
pub open spec fn name_start(s: Seq<char>) -> int
    decreases s.len(),
{
    if s.len() == 0 {
        0
    } else if is_sep(s.last()) {
        s.len() as int
    } else {
        name_start(s.drop_last())
    }
}

/// Where the extension of the last component begins, counting its dot: the
/// last dot of the name, unless that dot opens the name, in which case the
/// name has no extension and this is the length.
pub open spec fn extension_start(s: Seq<char>) -> int
    decreases s.len(),
{
    if s.len() == 0 || is_sep(s.last()) {
        s.len() as int
    } else if s.last() == '.' && name_start(s.drop_last()) < s.len() - 1 {
        s.len() - 1
    } else {
        let e = extension_start(s.drop_last());
        if e == s.len() - 1 {
            s.len() as int
        } else {
            e
        }
    }
}

/// The second log, holding what the child wrote to standard error: the log's
/// path with the extension of its name replaced by `err.log`.
pub open spec fn error_log_text(log: Seq<char>) -> Seq<char> {
    log.take(extension_start(log)) + ".err.log"@
}

/// Where the extension of the last component begins.
pub fn find_extension(s: &[char]) -> (r: usize)
    ensures
        r == extension_start(s@),
        r <= s@.len(),
{
    let mut i: usize = 0;
    let mut start: usize = 0;
    let mut ext: usize = 0;
    while i < s.len()
        invariant
            i <= s@.len(),
            start == name_start(s@.take(i as int)),
            ext == extension_start(s@.take(i as int)),
            ext <= i,
        decreases s@.len() - i,
    {
        let c = s[i];
        let ghost t = s@.take(i + 1);
        assert(t.drop_last() == s@.take(i as int));
        if c == '/' || c == '\\' {
            start = i + 1;
            ext = i + 1;
        } else if c == '.' && start < i {
            ext = i;
        } else if ext == i {
            ext = i + 1;
        }
        i = i + 1;
    }
    assert(s@.take(s@.len() as int) == s@);
    ext
}

/// The second log, holding what the child wrote to standard error.
pub fn error_log(log: &str) -> (r: String)
    ensures
        r@ == error_log_text(log@),
{
    let s = chars_of(log);
    let e = find_extension(s.as_slice());
    let mut out = string_of_range(s.as_slice(), 0, e);
    push_str(&mut out, ".err.log");
    out
}

/// A script line without the source tag Ghidra puts after it, trimmed.
pub open spec fn trim_ghidra_text(line: Seq<char>) -> Seq<char> {
    match find_from(line, " (Headless"@, 0) {
        Some(k) => trim(line.take(k)),
        None => trim(line),
    }
}

/// Drop the source tag Ghidra puts after every script line.
pub fn trim_ghidra(line: &str) -> (r: String)
    ensures
        r@ == trim_ghidra_text(line@),
{
    let s = chars_of(line);
    trim_ghidra_chars(s.as_slice())
}

/// Drop the source tag Ghidra puts after a script line.
fn trim_ghidra_chars(s: &[char]) -> (r: String)
    ensures
        r@ == trim_ghidra_text(s@),
{
    let tag = chars_of(" (Headless");
    let head: &[char] = match find_chars(s, tag.as_slice(), 0) {
        Some(k) => {
            proof {
                crate::text::lemma_first_from(Seq::new(s@.len() + 1, |k: int| k), |k: int| occurs_at(s@, tag@, k), 0);
            }
            &s[0..k]
        },
        None => s,
    };
    let t = trim_chars(head);
    string_of(t.as_slice())
}

/// The two kinds of script line a result row reports, by the prefix each
/// carries and the name its row takes.
pub open spec fn script_row(line: Seq<char>) -> Seq<RowView> {
    let t = trim_start(line);
    let seed = "INFO  seed "@;
    let export = "INFO  binexport "@;
    (if occurs_at(t, seed, 0) {
        seq![RowView { mark: Mark::Note, name: "seeded"@, value: trim_ghidra_text(t.subrange(seed.len() as int, t.len() as int)), note: Seq::empty() }]
    } else {
        Seq::empty()
    }) + (if occurs_at(t, export, 0) {
        seq![RowView { mark: Mark::Note, name: "exported"@, value: trim_ghidra_text(t.subrange(export.len() as int, t.len() as int)), note: Seq::empty() }]
    } else {
        Seq::empty()
    })
}

/// The rows of every script line among these lines, in order.
pub open spec fn script_rows(lines: Seq<Seq<char>>) -> Seq<RowView>
    decreases lines.len(),
{
    if lines.len() == 0 {
        Seq::empty()
    } else {
        script_rows(lines.drop_last()) + script_row(lines.last())
    }
}

/// Rows as plain values.
pub open spec fn rows_view(rows: Seq<Row>) -> Seq<RowView> {
    Seq::new(rows.len(), |i: int| rows[i]@)
}

/// Push the row a script line with one prefix reports, if it carries it.
fn push_script_row(rows: &mut Vec<Row>, t: &[char], prefix: &str, name: &str)
    ensures
        rows_view(final(rows)@) == rows_view(old(rows)@) + if occurs_at(t@, prefix@, 0) {
            seq![RowView { mark: Mark::Note, name: name@, value: trim_ghidra_text(t@.subrange(prefix@.len() as int, t@.len() as int)), note: Seq::empty() }]
        } else {
            Seq::<RowView>::empty()
        },
{
    let ghost before = rows_view(rows@);
    let p = chars_of(prefix);
    if crate::text::occurs_at_exec(t, p.as_slice(), 0) {
        let value = trim_ghidra_chars(&t[p.len()..t.len()]);
        let row = Row::new(Mark::Note, name, value.as_str());
        rows.push(row);
        proof {
            assert(rows_view(rows@) =~= before.push(row@));
        }
    } else {
        proof {
            assert(rows_view(rows@) =~= before + Seq::<RowView>::empty());
        }
    }
}

/// The one line each script prints, which is the part of a headless log worth
/// putting on the screen.
pub fn script_lines(text: &str) -> (rows: Vec<Row>)
    ensures
        rows_view(rows@) == script_rows(spec_lines(text@)),
{
    let ls = lines(text);
    let ghost all = spec_lines(text@);
    let mut rows: Vec<Row> = Vec::new();
    let mut i: usize = 0;
    proof {
        reveal_strlit("INFO  seed ");
        reveal_strlit("INFO  binexport ");
        assert(rows_view(rows@) =~= Seq::<RowView>::empty());
    }
    while i < ls.len()
        invariant
            i <= ls@.len(),
            ls@.len() == all.len(),
            forall|k: int| 0 <= k < ls@.len() ==> #[trigger] ls@[k]@ == all[k],
            rows_view(rows@) == script_rows(all.take(i as int)),
        decreases ls@.len() - i,
    {
        let t = trim_start_chars(ls[i].as_slice());
        let ghost before = rows_view(rows@);
        push_script_row(&mut rows, t.as_slice(), "INFO  seed ", "seeded");
        push_script_row(&mut rows, t.as_slice(), "INFO  binexport ", "exported");
        proof {
            assert(all.take(i + 1).drop_last() =~= all.take(i as int));
            assert(all.take(i + 1).last() == ls@[i as int]@);
            assert(rows_view(rows@) =~= before + script_row(ls@[i as int]@));
        }
        i = i + 1;
    }
    proof {
        assert(all.take(all.len() as int) =~= all);
    }
    rows
}

/// How an exit status reads in a result row: its code, or that it was killed.
pub open spec fn status_text_of(code: Option<i32>) -> Seq<char> {
    match code {
        Some(c) => "exit "@ + signed_decimal(c as int),
        None => "killed"@,
    }
}

/// How an exit status reads in a result row, given its exit code if it has one.
pub fn status_text(code: Option<i32>) -> (r: String)
    ensures
        r@ == status_text_of(code),
{
    match code {
        Some(c) => concat2("exit ", signed_decimal_string(c).as_str()),
        None => crate::ui::owned("killed"),
    }
}

/// The script arguments a headless run ends with.
pub fn post_script(script: &str, argument: &str, workspace: &str) -> (r: Vec<String>)
    ensures
        r@.len() == 5,
        r@[0]@ == "-scriptPath"@,
        r@[1]@ == spec_join(spec_join(workspace@, SCRIPT_DIR[0]@), SCRIPT_DIR[1]@),
        r@[2]@ == "-postScript"@,
        r@[3]@ == script@,
        r@[4]@ == argument@,
{
    let dir = join(join(workspace, SCRIPT_DIR[0]).as_str(), SCRIPT_DIR[1]);
    let mut r: Vec<String> = Vec::new();
    r.push(crate::ui::owned("-scriptPath"));
    r.push(dir);
    r.push(crate::ui::owned("-postScript"));
    r.push(crate::ui::owned(script));
    r.push(crate::ui::owned(argument));
    r
}

/// The arguments of one headless Ghidra run: the launcher's own, the heap
/// ceiling, the Java options and the headless class, then the stage's.
pub fn launch_args(heap: &str, tail: &[String]) -> (r: Vec<String>)
    ensures
        r@.len() == 6 + tail@.len(),
        r@[0]@ == "fg"@,
        r@[1]@ == "jdk"@,
        r@[2]@ == "Ghidra-Headless"@,
        r@[3]@ == heap@,
        r@[4]@ == VM_ARGS@,
        r@[5]@ == HEADLESS_CLASS@,
        forall|i: int| 0 <= i < tail@.len() ==> #[trigger] r@[6 + i]@ == tail@[i]@,
{
    let mut r: Vec<String> = Vec::new();
    r.push(crate::ui::owned("fg"));
    r.push(crate::ui::owned("jdk"));
    r.push(crate::ui::owned("Ghidra-Headless"));
    r.push(crate::ui::owned(heap));
    r.push(crate::ui::owned(VM_ARGS));
    r.push(crate::ui::owned(HEADLESS_CLASS));
    let mut i: usize = 0;
    while i < tail.len()
        invariant
            i <= tail@.len(),
            r@.len() == 6 + i,
            r@[0]@ == "fg"@,
            r@[1]@ == "jdk"@,
            r@[2]@ == "Ghidra-Headless"@,
            r@[3]@ == heap@,
            r@[4]@ == VM_ARGS@,
            r@[5]@ == HEADLESS_CLASS@,
            forall|k: int| 0 <= k < i ==> #[trigger] r@[6 + k]@ == tail@[k]@,
        decreases tail@.len() - i,
    {
        r.push(tail[i].clone());
        i = i + 1;
    }
    r
}

/// The last component of a path, once separators at its end are dropped; an
/// empty one or `..` names no file.
pub open spec fn file_name_text(s: Seq<char>) -> Option<Seq<char>>
    decreases s.len(),
{
    if s.len() > 0 && is_sep(s.last()) {
        file_name_text(s.drop_last())
    } else {
        let name = s.subrange(name_start(s), s.len() as int);
        if name.len() == 0 || name == ".."@ {
            None
        } else {
            Some(name)
        }
    }
}

/// Where the last component of a path begins.
fn find_name_start(s: &[char], n: usize) -> (r: usize)
    requires
        n <= s@.len(),
    ensures
        r == name_start(s@.take(n as int)),
        r <= n,
{
    let mut i: usize = 0;
    let mut start: usize = 0;
    while i < n
        invariant
            i <= n <= s@.len(),
            start == name_start(s@.take(i as int)),
            start <= i,
        decreases n - i,
    {
        assert(s@.take(i + 1).drop_last() == s@.take(i as int));
        if s[i] == '/' || s[i] == '\\' {
            start = i + 1;
        }
        i = i + 1;
    }
    start
}

/// The name Ghidra knows an imported executable by, which is its file name,
/// or the server's when the path names no file.
pub fn program_name(exe: &str) -> (r: String)
    ensures
        r@ == match file_name_text(exe@) {
            Some(name) => name,
            None => SERVER_EXE@,
        },
{
    let s = chars_of(exe);
    let mut n = s.len();
    assert(s@.take(n as int) == s@);
    while n > 0 && (s[n - 1] == '/' || s[n - 1] == '\\')
        invariant
            n <= s@.len(),
            file_name_text(s@) == file_name_text(s@.take(n as int)),
        decreases n,
    {
        assert(s@.take(n as int).drop_last() == s@.take(n - 1));
        n = n - 1;
    }
    let start = find_name_start(s.as_slice(), n);
    let ghost t = s@.take(n as int);
    assert(t.subrange(start as int, n as int) == s@.subrange(start as int, n as int));
    let name = string_of_range(s.as_slice(), start, n);
    let dots = crate::text::str_eq(name.as_str(), "..");
    if n == start || dots {
        return crate::ui::owned(SERVER_EXE);
    }
    name
}

/// Whether a directory is at the path.
///
/// Trusted: calls `std::path::Path::is_dir`, which reads the filesystem, so
/// the contract says nothing of the result.
#[verifier::external_body]
fn path_is_dir(path: &str) -> (r: bool) {
    std::path::Path::new(path).is_dir()
}

/// Whether a file is at the path.
///
/// Trusted: calls `std::path::Path::is_file`, which reads the filesystem, so
/// the contract says nothing of the result.
#[verifier::external_body]
fn path_is_file(path: &str) -> (r: bool) {
    std::path::Path::new(path).is_file()
}

/// The refusal for a tool variable that is unset or empty.
pub open spec fn unset_text(variable: Seq<char>, what: Seq<char>) -> Seq<char> {
    variable + " is not set. Point it at "@ + what
        + ", which this machine installs rather than a pin file, because no runner carries one."@
}

/// The directory a tool variable names.
///
/// The value is passed in rather than read here, so a caller can drive every
/// refusal without touching the environment the rest of the run reads.
///
/// # Errors
///
/// Returns an error naming the variable when it is unset or names no directory.
pub fn tool_home(variable: &str, what: &str, value: Option<&str>) -> (r: Result<String, String>)
    ensures
        match value {
            None => r matches Err(m) && m@ == unset_text(variable@, what@),
            Some(v) => if v@.len() == 0 {
                r matches Err(m) && m@ == unset_text(variable@, what@)
            } else {
                match r {
                    Ok(p) => p@ == v@,
                    Err(m) => m@ == variable@ + " names "@ + v@ + ", which is not a directory"@,
                }
            },
        },
{
    let v = match value {
        Some(v) => v,
        None => {
            let mut m = crate::ui::owned(variable);
            push_str(&mut m, " is not set. Point it at ");
            push_str(&mut m, what);
            push_str(&mut m, ", which this machine installs rather than a pin file, because no runner carries one.");
            return Err(m);
        },
    };
    let vs = chars_of(v);
    if vs.len() == 0 {
        let mut m = crate::ui::owned(variable);
        push_str(&mut m, " is not set. Point it at ");
        push_str(&mut m, what);
        push_str(&mut m, ", which this machine installs rather than a pin file, because no runner carries one.");
        return Err(m);
    }
    if !path_is_dir(v) {
        let mut m = crate::ui::owned(variable);
        push_str(&mut m, " names ");
        push_str(&mut m, v);
        push_str(&mut m, ", which is not a directory");
        return Err(m);
    }
    Ok(crate::ui::owned(v))
}

/// One file a tool home has to hold.
///
/// # Errors
///
/// Returns an error naming the variable and the file when it is not there.
pub fn under(home: &str, variable: &str, relative: &str) -> (r: Result<String, String>)
    ensures
        match r {
            Ok(p) => p@ == spec_join(home@, relative@),
            Err(m) => m@ == variable@ + " names "@ + home@ + ", which holds no "@ + relative@,
        },
{
    let path = join(home, relative);
    if !path_is_file(path.as_str()) {
        let mut m = crate::ui::owned(variable);
        push_str(&mut m, " names ");
        push_str(&mut m, home);
        push_str(&mut m, ", which holds no ");
        push_str(&mut m, relative);
        return Err(m);
    }
    Ok(path)
}

/// Whether `pat` occurs anywhere in `s`.
pub open spec fn contains_text(s: Seq<char>, pat: Seq<char>) -> bool {
    find_from(s, pat, 0) is Some
}

/// What a finished headless run comes to, given whether it exited zero, its
/// exit code, the text of its logs, the log's path and the stage's label.
///
/// A headless run exits zero when a post script throws, so the log is read for
/// the line the tool prints when it actually wrote something. The rows are
/// what the stage reports, and the flag whether it passed.
///
/// # Errors
///
/// Returns an error when a run that had to save exited zero with no save in
/// its log.
pub fn finish(success: bool, code: Option<i32>, text: &str, log: &str, label: &str, saved: bool) -> (r: Result<(bool, Vec<Row>), String>)
    ensures
        !success ==> (r matches Ok((passed, rows)) && !passed && rows_view(rows@) == seq![
            RowView { mark: Mark::Fail, name: label@, value: status_text_of(code), note: log@ },
        ]),
        success && saved && !contains_text(text@, SAVED@) ==> (r matches Err(m) && m@ == "the "@ + label@
            + " run exited zero and its log holds no "@ + debug_str_text(SAVED@)
            + ", so nothing was written to the project. Read "@ + log@ + "."@),
        success && !(saved && !contains_text(text@, SAVED@)) ==> (r matches Ok((passed, rows)) && passed
            && rows_view(rows@) == seq![RowView { mark: Mark::Pass, name: label@, value: "exit 0"@, note: log@ }]
            + script_rows(spec_lines(text@))),
{
    if !success {
        let row = Row::new(Mark::Fail, label, status_text(code).as_str()).note(log);
        let mut rows: Vec<Row> = Vec::new();
        rows.push(row);
        proof {
            assert(rows_view(rows@) =~= seq![row@]);
        }
        return Ok((false, rows));
    }
    let t = chars_of(text);
    let marker = chars_of(SAVED);
    let holds_save = find_chars(t.as_slice(), marker.as_slice(), 0).is_some();
    if saved && !holds_save {
        let mut m = crate::ui::owned("the ");
        push_str(&mut m, label);
        push_str(&mut m, " run exited zero and its log holds no ");
        push_str(&mut m, debug_str(SAVED).as_str());
        push_str(&mut m, ", so nothing was written to the project. Read ");
        push_str(&mut m, log);
        push_str(&mut m, ".");
        return Err(m);
    }
    let first = Row::new(Mark::Pass, label, "exit 0").note(log);
    let mut rows: Vec<Row> = Vec::new();
    rows.push(first);
    let mut more = script_lines(text);
    let ghost head = rows_view(rows@);
    let ghost tail = rows_view(more@);
    rows.append(&mut more);
    proof {
        assert(head =~= seq![first@]);
        assert(rows_view(rows@) =~= head + tail);
    }
    Ok((true, rows))
}

/// The digits an address list writes are hexadecimal digits, and read back
/// as the address.
proof fn lemma_hex_text_reads_back(n: nat)
    ensures
        forall|i: int| 0 <= i < hex_text(n).len() ==> crate::text::is_hex(#[trigger] hex_text(n)[i]),
        crate::text::hex_value(hex_text(n)) == n,
        hex_text(n).len() > 0,
    decreases n,
{
    let d = (n % 16) as int;
    assert(crate::text::hex_val(crate::text::hex_digit(d)) == d);
    if n < 16 {
        let t = hex_text(n);
        assert(t.drop_last() =~= Seq::<char>::empty());
        assert(t.last() == crate::text::hex_digit(d));
        assert(crate::text::hex_value(t) == crate::text::hex_value(t.drop_last()) * 16 + crate::text::hex_val(t.last()) as nat);
        assert(crate::text::hex_value(t) == d);
    } else {
        lemma_hex_text_reads_back(n / 16);
        let t = hex_text(n);
        assert(t.drop_last() == hex_text(n / 16));
        assert(t.last() == crate::text::hex_digit(d));
        assert(n == (n / 16) * 16 + d);
        assert(crate::text::hex_value(t) == crate::text::hex_value(t.drop_last()) * 16 + crate::text::hex_val(t.last()) as nat);
        assert forall|i: int| 0 <= i < t.len() implies crate::text::is_hex(#[trigger] t[i]) by {
            if i < t.len() - 1 {
                assert(t[i] == hex_text(n / 16)[i]);
            }
        }
    }
}

/// Every address the list writes is one [`parse_address`] reads back as
/// itself, so the seeding script and this command agree on every seed.
pub proof fn lemma_seed_address_round_trips(a: u64)
    ensures
        spec_parse_hex(address_digits("0x"@ + hex_text(a as nat))) == Some(a),
{
    reveal_strlit("0x");
    lemma_hex_text_reads_back(a as nat);
    let s = "0x"@ + hex_text(a as nat);
    assert(s.subrange(0, 2) =~= "0x"@);
    assert(s.subrange(2, s.len() as int) =~= hex_text(a as nat));
    assert(crate::text::unsigned_digits(hex_text(a as nat)) == hex_text(a as nat));
}

} // verus!
