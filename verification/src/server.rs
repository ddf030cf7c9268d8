//! Fetch, seed, launch, tail and stop a dedicated server build.
//!
//! Everything the loop controls lives in a run directory beside the fetched
//! build: the save, the server's own logs, the config, the captured output and
//! the pid file. The server runs with that directory as its working directory,
//! so its relative defaults land there as well. A build can be deleted and
//! refetched without losing a test world.
//!
//! The pid file is a hint, never an identity. Every command that reads it asks
//! the operating system what the pid is running and compares that to the
//! server in the build directory before it signals, waits on or kills anything.
//! A pid that is alive and is something else is a stale file, deleted and named.
//!
//! This module holds what those commands compute: the configuration a run
//! starts from, the passwords in it, what a pid file names, and the tail of a
//! log. Moving files and processes is the binary's part.

use vstd::prelude::*;

use crate::proc::{Claim, Server};
use crate::text::{decimal, decimal_string};
use crate::ui::{Mark, Row, RowView};
use crate::steam::{join, spec_join};
use crate::text::{chars_of, lines, push_char, replace_all, replace_chars, spec_lines, spec_parse_u64, string_of, trim};

verus! {

/// The server executable inside a build directory.
pub const SERVER_EXE: &'static str = "enshrouded_server.exe";

/// The server's configuration file.
pub const CONFIG: &'static str = "enshrouded_server.json";

/// The file recording the last launched process id.
pub const PID_FILE: &'static str = "server.pid";

/// The captured output of the last launch.
pub const LOG_FILE: &'static str = "server.log";

/// Seconds to wait for a clean stop when none is named.
pub const DEFAULT_STOP_TIMEOUT: u64 = 60;

/// Lines of log to print when none is named.
pub const DEFAULT_TAIL: usize = 40;

/// Lines of log shown when the server exits during the grace period.
pub const EARLY_EXIT_TAIL: usize = 12;

/// Characters a generated password is drawn from. Letters and digits that
/// read alike (`l`, `I`, `O`, `0`, `1`) are left out.
pub const ALPHABET: &'static str = "abcdefghijkmnopqrstuvwxyzABCDEFGHJKLMNPQRSTUVWXYZ23456789";

/// Characters in one generated password.
pub const PASSWORD_LEN: usize = 20;

/// The user groups the shipped configuration carries, in the order their
/// passwords are drawn.
pub const GROUPS: [&'static str; 4] = ["ADMIN", "FRIEND", "GUEST", "VISITOR"];

/// The configuration the server ships as its default, with this run's
/// directories and passwords left as placeholders and the bind address and
/// slot count narrowed to a dev server's.
pub const CONFIG_TEMPLATE: &'static str = "{
  \"name\": \"Enshrouded Server\",
  \"saveDirectory\": \"{SAVE_DIRECTORY}\",
  \"logDirectory\": \"{LOG_DIRECTORY}\",
  \"ip\": \"127.0.0.1\",
  \"queryPort\": 15637,
  \"slotCount\": 1,
  \"voiceChatMode\": \"Proximity\",
  \"enableVoiceChat\": false,
  \"enableTextChat\": false,
  \"gameSettingsPreset\": \"Default\",
  \"userGroups\": [
    {
      \"name\": \"Admin\",
      \"password\": \"{PASSWORD_ADMIN}\",
      \"canKickBan\": true,
      \"canAccessInventories\": true,
      \"canEditBase\": true,
      \"canExtendBase\": true,
      \"reservedSlots\": 0
    },
    {
      \"name\": \"Friend\",
      \"password\": \"{PASSWORD_FRIEND}\",
      \"canKickBan\": false,
      \"canAccessInventories\": true,
      \"canEditBase\": true,
      \"canExtendBase\": false,
      \"reservedSlots\": 0
    },
    {
      \"name\": \"Guest\",
      \"password\": \"{PASSWORD_GUEST}\",
      \"canKickBan\": false,
      \"canAccessInventories\": false,
      \"canEditBase\": false,
      \"canExtendBase\": false,
      \"reservedSlots\": 0
    },
    {
      \"name\": \"Visitor\",
      \"password\": \"{PASSWORD_VISITOR}\",
      \"canKickBan\": false,
      \"canAccessInventories\": false,
      \"canEditBase\": false,
      \"canExtendBase\": false,
      \"reservedSlots\": 0
    }
  ]
}
";

/// A path as a JSON string body, with every backslash doubled.
pub open spec fn json_string_text(path: Seq<char>) -> Seq<char>
    decreases path.len(),
{
    if path.len() == 0 {
        Seq::empty()
    } else {
        json_string_text(path.drop_last()) + if path.last() == '\\' {
            seq!['\\', '\\']
        } else {
            seq![path.last()]
        }
    }
}

/// A path as a JSON string body, with the separators escaped.
pub fn json_string(path: &str) -> (r: String)
    ensures
        r@ == json_string_text(path@),
{
    let cs = chars_of(path);
    let mut out = String::new();
    let mut i: usize = 0;
    while i < cs.len()
        invariant
            i <= cs@.len(),
            out@ == json_string_text(cs@.take(i as int)),
        decreases cs@.len() - i,
    {
        if cs[i] == '\\' {
            push_char(&mut out, '\\');
            push_char(&mut out, '\\');
        } else {
            push_char(&mut out, cs[i]);
        }
        i = i + 1;
        assert(cs@.take(i as int).drop_last() == cs@.take(i - 1));
    }
    assert(cs@.take(cs@.len() as int) == cs@);
    out
}

/// The password random bytes make: each byte picks the alphabet character at
/// its value modulo the alphabet's length.
pub open spec fn password_text(bytes: Seq<u8>) -> Seq<char> {
    Seq::new(bytes.len(), |i: int| ALPHABET@[(bytes[i] as int) % ALPHABET@.len() as int])
}

/// A password for one user group, made from random bytes drawn from the
/// operating system.
pub fn password(bytes: &[u8]) -> (r: String)
    ensures
        r@ == password_text(bytes@),
{
    let alphabet = chars_of(ALPHABET);
    proof {
        reveal_strlit("abcdefghijkmnopqrstuvwxyzABCDEFGHJKLMNPQRSTUVWXYZ23456789");
    }
    let n = alphabet.len();
    let mut out = String::new();
    let mut i: usize = 0;
    while i < bytes.len()
        invariant
            i <= bytes@.len(),
            alphabet@ == ALPHABET@,
            n == alphabet@.len(),
            n == 57,
            out@ == password_text(bytes@.take(i as int)),
        decreases bytes@.len() - i,
    {
        push_char(&mut out, alphabet[(bytes[i] as usize) % n]);
        i = i + 1;
        assert(out@ =~= password_text(bytes@.take(i as int)));
    }
    assert(bytes@.take(bytes@.len() as int) == bytes@);
    out
}

/// The placeholder a user group's password replaces.
pub open spec fn password_placeholder(group: Seq<char>) -> Seq<char> {
    "{PASSWORD_"@ + group + "}"@
}

/// The configuration a run starts from: the template with the run's save and
/// log directories and each group's password in place of its placeholder.
/// Group `i` draws its password from bytes `20 * i` to `20 * i + 20`.
pub open spec fn config_text(run: Seq<char>, random: Seq<u8>) -> Seq<char> {
    let saves = json_string_text(spec_join(run, "savegame"@));
    let logs = json_string_text(spec_join(run, "logs"@));
    let c0 = replace_all(CONFIG_TEMPLATE@, "{SAVE_DIRECTORY}"@, saves);
    let c1 = replace_all(c0, "{LOG_DIRECTORY}"@, logs);
    let c2 = replace_all(c1, password_placeholder(GROUPS[0]@), password_text(random.subrange(0, 20)));
    let c3 = replace_all(c2, password_placeholder(GROUPS[1]@), password_text(random.subrange(20, 40)));
    let c4 = replace_all(c3, password_placeholder(GROUPS[2]@), password_text(random.subrange(40, 60)));
    replace_all(c4, password_placeholder(GROUPS[3]@), password_text(random.subrange(60, 80)))
}

/// Replace every occurrence of a non-empty pattern in a string.
fn replace_in(s: &str, pat: &str, with: &str) -> (r: String)
    requires
        pat@.len() > 0,
    ensures
        r@ == replace_all(s@, pat@, with@),
{
    let a = chars_of(s);
    let p = chars_of(pat);
    let w = chars_of(with);
    let out = replace_chars(a.as_slice(), p.as_slice(), w.as_slice());
    string_of(out.as_slice())
}

/// The placeholder a user group's password replaces.
fn placeholder(group: &str) -> (r: String)
    ensures
        r@ == password_placeholder(group@),
{
    let mut r = crate::ui::owned("{PASSWORD_");
    crate::text::push_str(&mut r, group);
    crate::text::push_str(&mut r, "}");
    r
}

/// The configuration the server ships as its default, bound to the loopback
/// address with one slot, with this run's directories and user group
/// passwords made from `random`, twenty bytes for each group.
///
/// The server writes this file itself when it is absent, using its own
/// directory defaults relative to the working directory and binding every
/// interface. Writing it here is what keeps saves and logs out of the fetched
/// build and keeps a dev server off the network until someone edits the file.
pub fn default_config(run: &str, random: &[u8]) -> (r: String)
    requires
        random@.len() == 80,
    ensures
        r@ == config_text(run@, random@),
{
    proof {
        reveal_strlit("{SAVE_DIRECTORY}");
        reveal_strlit("{LOG_DIRECTORY}");
        reveal_strlit("{PASSWORD_");
    }
    let saves = json_string(join(run, "savegame").as_str());
    let logs = json_string(join(run, "logs").as_str());
    let mut out = replace_in(CONFIG_TEMPLATE, "{SAVE_DIRECTORY}", saves.as_str());
    out = replace_in(out.as_str(), "{LOG_DIRECTORY}", logs.as_str());
    out = replace_in(out.as_str(), placeholder(GROUPS[0]).as_str(), password(&random[0..20]).as_str());
    out = replace_in(out.as_str(), placeholder(GROUPS[1]).as_str(), password(&random[20..40]).as_str());
    out = replace_in(out.as_str(), placeholder(GROUPS[2]).as_str(), password(&random[40..60]).as_str());
    out = replace_in(out.as_str(), placeholder(GROUPS[3]).as_str(), password(&random[60..80]).as_str());
    out
}

/// The process id a pid file's text names, once white space at either end
/// is dropped; `None` when it does not parse.
pub open spec fn pid_of(text: Seq<char>) -> Option<u32> {
    match spec_parse_u64(trim(text)) {
        Some(v) => if v <= u32::MAX {
            Some(v as u32)
        } else {
            None
        },
        None => None,
    }
}

/// The process id a pid file's text names.
pub fn recorded_pid(text: &str) -> (r: Option<u32>)
    ensures
        r == pid_of(text@),
{
    let cs = chars_of(text);
    let t = crate::text::trim_chars(cs.as_slice());
    let s = string_of(t.as_slice());
    match crate::text::parse_u64(s.as_str()) {
        Some(v) => if v <= 0xFFFF_FFFF {
            Some(v as u32)
        } else {
            None
        },
        None => None,
    }
}

/// What the pid file in a run directory turned out to name.
pub enum Recorded {
    /// No pid file, or one that did not parse.
    Absent,
    /// The pid file named a process that is not running. The file is removed.
    Gone(u32),
    /// The pid file named a live process that is not the server. The file is
    /// removed, and nothing is signaled.
    Stale {
        /// The recycled id.
        pid: u32,
        /// What is running under it now.
        image: String,
    },
    /// The server, held open.
    Ours(Server),
}

/// What a pid file names, given the claim made on the pid it holds.
///
/// Every answer but [`Recorded::Ours`] means the file is removed before any
/// caller could signal what it names.
pub fn recorded(pid: u32, claim: Claim) -> (r: Recorded)
    ensures
        match claim {
            Claim::Gone => r == Recorded::Gone(pid),
            Claim::Other(image) => r matches Recorded::Stale { pid: p, image: i } && p == pid && i@ == image@,
            Claim::Ours(_) => r is Ours,
        },
{
    match claim {
        Claim::Ours(server) => Recorded::Ours(server),
        Claim::Gone => Recorded::Gone(pid),
        Claim::Other(image) => Recorded::Stale { pid, image },
    }
}

/// The last `count` lines of a text, in order.
pub open spec fn tail_text(text: Seq<char>, count: nat) -> Seq<Seq<char>> {
    let all = spec_lines(text);
    if all.len() <= count {
        all
    } else {
        all.subrange(all.len() - count, all.len() as int)
    }
}

/// The last `count` lines of a log's text.
pub fn tail_lines(text: &str, count: usize) -> (r: Vec<String>)
    ensures
        r@.len() == tail_text(text@, count as nat).len(),
        forall|i: int| 0 <= i < r@.len() ==> #[trigger] r@[i]@ == tail_text(text@, count as nat)[i],
{
    let all = lines(text);
    let ghost want = tail_text(text@, count as nat);
    let start: usize = if all.len() <= count {
        0
    } else {
        all.len() - count
    };
    let mut r: Vec<String> = Vec::new();
    let mut i = start;
    while i < all.len()
        invariant
            start <= i <= all@.len(),
            all@.len() == spec_lines(text@).len(),
            forall|k: int| 0 <= k < all@.len() ==> #[trigger] all@[k]@ == spec_lines(text@)[k],
            want == tail_text(text@, count as nat),
            start == (if all@.len() <= count { 0 } else { all@.len() - count }),
            r@.len() == i - start,
            forall|k: int| 0 <= k < r@.len() ==> #[trigger] r@[k]@ == spec_lines(text@)[start + k],
        decreases all@.len() - i,
    {
        r.push(string_of(all[i].as_slice()));
        i = i + 1;
    }
    r
}

/// Every character of a generated password comes from [`ALPHABET`], so none
/// of `l`, `I`, `O`, `0` or `1` is ever in one.
pub proof fn lemma_password_alphabet(bytes: Seq<u8>)
    ensures
        forall|i: int| 0 <= i < bytes.len() ==> ALPHABET@.contains(#[trigger] password_text(bytes)[i]),
        forall|i: int| 0 <= i < bytes.len() ==> {
            let c = #[trigger] password_text(bytes)[i];
            c != 'l' && c != 'I' && c != 'O' && c != '0' && c != '1'
        },
{
    reveal_strlit("abcdefghijkmnopqrstuvwxyzABCDEFGHJKLMNPQRSTUVWXYZ23456789");
    assert forall|i: int| 0 <= i < bytes.len() implies ALPHABET@.contains(#[trigger] password_text(bytes)[i]) by {
        let k = (bytes[i] as int) % 57;
        assert(password_text(bytes)[i] == ALPHABET@[k]);
    }
    assert forall|i: int| 0 <= i < bytes.len() implies {
        let c = #[trigger] password_text(bytes)[i];
        c != 'l' && c != 'I' && c != 'O' && c != '0' && c != '1'
    } by {
        let k = (bytes[i] as int) % 57;
        assert(password_text(bytes)[i] == ALPHABET@[k]);
        assert forall|j: int| 0 <= j < 57 implies {
            let c = #[trigger] ALPHABET@[j];
            c != 'l' && c != 'I' && c != 'O' && c != '0' && c != '1'
        } by {}
    }
}

/// Rows as plain values.
pub open spec fn rows_view(rows: Seq<Row>) -> Seq<RowView> {
    Seq::new(rows.len(), |i: int| rows[i]@)
}

/// A row with no note, as plain values.
pub open spec fn row_of(mark: Mark, name: Seq<char>, value: Seq<char>, note: Seq<char>) -> RowView {
    RowView { mark, name, value, note }
}

/// What a stop reports when the pid file does not name the running server,
/// or `None` when it does and the stop goes on.
pub open spec fn unclaimed_rows(recorded: Recorded) -> Option<Seq<RowView>> {
    match recorded {
        Recorded::Absent => Some(seq![row_of(Mark::Note, "process"@, "none recorded"@, Seq::empty())]),
        Recorded::Gone(pid) => Some(seq![row_of(Mark::Note, "process"@, decimal(pid as nat) + " already gone"@, Seq::empty())]),
        Recorded::Stale { pid, image } => Some(
            seq![
                row_of(Mark::Warn, "process"@, decimal(pid as nat), "is "@ + image@ + ", not the server"@),
                row_of(Mark::Note, PID_FILE@, "removed"@, "it was stale, and nothing was signaled"@),
            ],
        ),
        Recorded::Ours(_) => None,
    }
}

/// A row from text pieces.
fn row(mark: Mark, name: &str, value: &str, note: &str) -> (r: Row)
    ensures
        r@ == row_of(mark, name@, value@, note@),
{
    Row::new(mark, name, value).note(note)
}

/// What a stop reports when the pid file does not name the running server.
pub fn unclaimed(recorded: &Recorded) -> (r: Option<Vec<Row>>)
    ensures
        match r {
            Some(rows) => unclaimed_rows(*recorded) == Some(rows_view(rows@)),
            None => unclaimed_rows(*recorded) is None,
        },
{
    proof {
        reveal_strlit("");
    }
    let mut rows: Vec<Row> = Vec::new();
    match recorded {
        Recorded::Absent => {
            rows.push(row(Mark::Note, "process", "none recorded", ""));
        },
        Recorded::Gone(pid) => {
            let mut value = decimal_string(*pid as u64);
            crate::text::push_str(&mut value, " already gone");
            rows.push(row(Mark::Note, "process", value.as_str(), ""));
        },
        Recorded::Stale { pid, image } => {
            let mut note = crate::ui::owned("is ");
            crate::text::push_str(&mut note, image.as_str());
            crate::text::push_str(&mut note, ", not the server");
            rows.push(row(Mark::Warn, "process", decimal_string(*pid as u64).as_str(), note.as_str()));
            rows.push(row(Mark::Note, PID_FILE, "removed", "it was stale, and nothing was signaled"));
        },
        Recorded::Ours(_) => return None,
    }
    proof {
        assert(""@ =~= Seq::<char>::empty());
        assert(rows_view(rows@) =~= unclaimed_rows(*recorded)->0);
    }
    Some(rows)
}

/// What a stop does once its wait for the server ended.
pub enum StopAction {
    /// The server left; report these rows, and the stop passed.
    Stopped(Vec<Row>),
    /// The server is still running and no force was given; report these
    /// rows, and the stop failed.
    Left(Vec<Row>),
    /// The server is still running and force was given; report these rows,
    /// then terminate it.
    Terminate(Vec<Row>),
}

/// The row a shutdown request that could not be raised reports.
pub open spec fn request_rows(request_error: Option<Seq<char>>) -> Seq<RowView> {
    match request_error {
        Some(e) => seq![row_of(Mark::Fail, "shutdown request"@, "not raised"@, e)],
        None => Seq::empty(),
    }
}

/// What a stop does once its wait ended: whether the server left, what the
/// shutdown request said when it could not be raised, whether force was
/// given, and how long the wait was.
pub open spec fn stop_action(pid: u32, build_id: Seq<char>, exited: bool, request_error: Option<Seq<char>>, force: bool, timeout: u64) -> (u8, Seq<RowView>) {
    if exited {
        (0, seq![
            row_of(Mark::Pass, "process"@, decimal(pid as nat), "stopped cleanly"@),
            row_of(Mark::Note, "build"@, build_id, Seq::empty()),
        ])
    } else if !force {
        (1, request_rows(request_error).push(
            row_of(Mark::Fail, "process"@, decimal(pid as nat), "still running after "@ + decimal(timeout as nat) + "s"@),
        ))
    } else {
        (2, request_rows(request_error))
    }
}

/// Which action a stop takes, by number, and what it reports.
pub open spec fn action_view(a: StopAction) -> (u8, Seq<RowView>) {
    match a {
        StopAction::Stopped(rows) => (0, rows_view(rows@)),
        StopAction::Left(rows) => (1, rows_view(rows@)),
        StopAction::Terminate(rows) => (2, rows_view(rows@)),
    }
}

/// What a stop does once its wait for the server ended.
///
/// A helper that reports trouble after the shutdown event already landed must
/// not turn a clean stop into a failure, so the request's error is reported
/// only when the server is still there.
pub fn after_wait(pid: u32, build_id: &str, exited: bool, request_error: Option<&str>, force: bool, timeout: u64) -> (r: StopAction)
    ensures
        action_view(r) == stop_action(
            pid,
            build_id@,
            exited,
            match request_error {
                Some(e) => Some(e@),
                None => None,
            },
            force,
            timeout,
        ),
{
    proof {
        reveal_strlit("");
    }
    let mut rows: Vec<Row> = Vec::new();
    let pid_text = decimal_string(pid as u64);
    if exited {
        rows.push(row(Mark::Pass, "process", pid_text.as_str(), "stopped cleanly"));
        rows.push(row(Mark::Note, "build", build_id, ""));
        proof {
            assert(""@ =~= Seq::<char>::empty());
            assert(rows_view(rows@) =~= stop_action(pid, build_id@, exited, None, force, timeout).1);
        }
        return StopAction::Stopped(rows);
    }
    if let Some(e) = request_error {
        rows.push(row(Mark::Fail, "shutdown request", "not raised", e));
    }
    let ghost reported = rows_view(rows@);
    proof {
        assert(reported =~= request_rows(
            match request_error {
                Some(e) => Some(e@),
                None => None,
            },
        ));
    }
    if !force {
        let mut note = crate::ui::owned("still running after ");
        crate::text::push_str(&mut note, decimal_string(timeout).as_str());
        crate::text::push_str(&mut note, "s");
        rows.push(row(Mark::Fail, "process", pid_text.as_str(), note.as_str()));
        proof {
            assert(rows_view(rows@) =~= reported.push(row_of(Mark::Fail, "process"@, decimal(pid as nat), "still running after "@ + decimal(timeout as nat) + "s"@)));
        }
        return StopAction::Left(rows);
    }
    StopAction::Terminate(rows)
}

/// What a stop reports once it terminated the server.
pub fn after_terminate(pid: u32) -> (r: Vec<Row>)
    ensures
        rows_view(r@) == seq![row_of(Mark::Warn, "process"@, decimal(pid as nat), "terminated after the timeout"@)],
{
    let mut rows: Vec<Row> = Vec::new();
    rows.push(row(Mark::Warn, "process", decimal_string(pid as u64).as_str(), "terminated after the timeout"));
    proof {
        assert(rows_view(rows@) =~= seq![rows@[0]@]);
    }
    rows
}

/// The refusal for a fixture that sits inside the run directory it would seed.
pub open spec fn fixture_refusal_text(fixture: Seq<char>, run: Seq<char>) -> Seq<char> {
    "the fixture "@ + fixture + " is inside the run directory "@ + run + ", which seeding overwrites"@
}

/// Whether one path lies under another, compared component by component.
///
/// Trusted: calls `std::path::Path::starts_with`, which compares whole
/// components in the host's path syntax, so a path starts with itself. Which
/// syntax that is depends on the machine, so the contract says no more.
#[verifier::external_body]
fn path_starts_with(path: &str, base: &str) -> (r: bool)
    ensures
        path@ == base@ ==> r,
{
    std::path::Path::new(path).starts_with(base)
}

/// What seeding makes of where the fixture lies: refused when it is inside the
/// run directory, which seeding overwrites, and nothing to object to
/// otherwise.
pub fn fixture_verdict(fixture: &str, run: &str, inside: bool) -> (r: Result<(), String>)
    ensures
        inside ==> (r matches Err(m) && m@ == fixture_refusal_text(fixture@, run@)),
        !inside ==> r is Ok,
{
    if inside {
        let mut m = String::new();
        crate::text::push_str(&mut m, "the fixture ");
        crate::text::push_str(&mut m, fixture);
        crate::text::push_str(&mut m, " is inside the run directory ");
        crate::text::push_str(&mut m, run);
        crate::text::push_str(&mut m, ", which seeding overwrites");
        Err(m)
    } else {
        Ok(())
    }
}

/// Refuse a fixture that lies inside the run directory it would seed, judged
/// on both paths with every link resolved where they exist.
///
/// Whether one lies under the other is the filesystem's and the host's to say;
/// what holds whatever they say is that a refusal names both paths as given.
///
/// # Errors
///
/// Returns the refusal naming the fixture and the run directory.
pub fn refuse_fixture_inside_run(fixture: &str, run: &str) -> (r: Result<(), String>)
    ensures
        r matches Err(m) ==> m@ == fixture_refusal_text(fixture@, run@),
{
    let fixture_real = match crate::steam::canonical_path(fixture) {
        Some(p) => p,
        None => fixture.to_string(),
    };
    let run_real = match crate::steam::canonical_path(run) {
        Some(p) => p,
        None => run.to_string(),
    };
    let inside = path_starts_with(fixture_real.as_str(), run_real.as_str());
    fixture_verdict(fixture, run, inside)
}

/// The tail of a log is its last lines: no more than asked for and no more
/// than there are, ending with the text's last line, and what precedes it in
/// the text followed by the tail is every line.
pub proof fn lemma_tail_is_the_last_lines(text: Seq<char>, count: nat)
    ensures
        tail_text(text, count).len() == if spec_lines(text).len() <= count {
            spec_lines(text).len()
        } else {
            count
        },
        forall|i: int| 0 <= i < tail_text(text, count).len() ==> #[trigger] tail_text(text, count)[i]
            == spec_lines(text)[spec_lines(text).len() - tail_text(text, count).len() + i],
        spec_lines(text).subrange(0, spec_lines(text).len() - tail_text(text, count).len()) + tail_text(text, count)
            == spec_lines(text),
{
    let all = spec_lines(text);
    let t = tail_text(text, count);
    assert(all.subrange(0, all.len() - t.len()) + t =~= all);
}

} // verus!
