//! The directory the dev loop keeps its state under.
//!
//! Everything a contributor fetches or extracts lands under `<root>/.cache`,
//! which `.gitignore` excludes. Every byte in it is regenerable by a fetch or
//! an extract. The root is the workspace root by default, `EMBER_DEV_ROOT`
//! overrides that, and `--root` overrides both. A sibling checkout with a
//! server already fetched is used by pointing `--root` at that repository
//! rather than by copying anything.
//!
//! A build is named by its Steam buildid, which is the key `SteamCMD`, the
//! depot manifest, the store page and the build watcher all already speak.
//!
//! Every directory this module hands out that a command will write into goes
//! through the Steam refusal first: the build directory, the run directory and
//! the extraction directory alike. A name that is not one plain path segment
//! never reaches a join, because a join replaces its base when the argument is
//! absolute.

use vstd::prelude::*;

use crate::steam::{
    ensure_outside_library, is_sep, join, library_outcome, lookup_result, names_steamapps, plainly_in_content_tree,
    refusal_text, spec_content_tree, spec_join,
};
use crate::text::{
    chars_of, chars_eq_ignore_case, debug_char, debug_char_text, debug_str, debug_str_text,
    eq_ignore_case, push_str,
};

verus! {

/// The environment variable that overrides the workspace root.
pub const ROOT_VAR: &'static str = "EMBER_DEV_ROOT";

/// The directory every regenerable artifact lives under.
pub const CACHE_DIR: &'static str = ".cache";

/// The Steam application the dedicated server ships as.
pub const APP_ID: &'static str = "2278520";

/// The Steam application the game client ships as.
///
/// A separate application from the dedicated server, with a buildid of its own
/// that rises independently, so the two numbers are never comparable.
pub const CLIENT_APP_ID: &'static str = "1203620";

/// Names Windows reserves for devices, which no directory can carry.
pub const RESERVED_NAMES: [&'static str; 22] = [
    "CON", "PRN", "AUX", "NUL", "COM1", "COM2", "COM3", "COM4", "COM5", "COM6", "COM7", "COM8",
    "COM9", "LPT1", "LPT2", "LPT3", "LPT4", "LPT5", "LPT6", "LPT7", "LPT8", "LPT9",
];

/// A character a buildid may carry: an ASCII letter or digit, a dot, a
/// hyphen or an underscore.
pub open spec fn is_id_char(c: char) -> bool {
    ('a' <= c <= 'z') || ('A' <= c <= 'Z') || ('0' <= c <= '9') || c == '.' || c == '-' || c == '_'
}

/// The part of a name before its first dot.
pub open spec fn stem(s: Seq<char>) -> Seq<char> {
    match crate::text::first_from(s, |c: char| c == '.', 0) {
        Some(k) => s.take(k),
        None => s,
    }
}

/// Whether a name is one Windows reserves for a device, ignoring ASCII case.
pub open spec fn is_reserved(s: Seq<char>) -> bool {
    exists|i: int| 0 <= i < RESERVED_NAMES@.len() && eq_ignore_case(s, #[trigger] RESERVED_NAMES@[i]@)
}

/// Why a buildid is refused, or `None` when it is one plain directory name.
pub open spec fn build_id_refusal(s: Seq<char>) -> Option<Seq<char>> {
    if s.len() == 0 {
        Some("a buildid cannot be empty"@)
    } else if exists|i: int| 0 <= i < s.len() && !is_id_char(#[trigger] s[i]) {
        let k = crate::text::first_from(s, |c: char| !is_id_char(c), 0)->0;
        Some(
            "a buildid is one directory name, so "@ + debug_str_text(s) + " cannot carry "@
                + debug_char_text(s[k]),
        )
    } else if s[0] == '.' {
        Some("a buildid cannot start with a dot, so "@ + debug_str_text(s) + " cannot be used"@)
    } else if s.last() == '.' || s.last() == ' ' {
        Some("a buildid cannot end in a dot or a space, so "@ + debug_str_text(s) + " cannot be used"@)
    } else if is_reserved(stem(s)) {
        Some(debug_str_text(s) + " is a name Windows reserves for a device"@)
    } else {
        None
    }
}

/// A result with no value as the plain error it carries, if any.
pub open spec fn unit_error(r: Result<(), String>) -> Option<Seq<char>> {
    match r {
        Ok(()) => None,
        Err(e) => Some(e@),
    }
}

/// Whether the stem of a name is reserved.
fn stem_is_reserved(s: &[char]) -> (r: bool)
    ensures
        r == is_reserved(stem(s@)),
{
    let mut end: usize = 0;
    while end < s.len() && s[end] != '.'
        invariant
            end <= s@.len(),
            forall|j: int| 0 <= j < end ==> #[trigger] s@[j] != '.',
        decreases s@.len() - end,
    {
        end = end + 1;
    }
    proof {
        if end < s.len() {
            crate::text::lemma_first_from_at(s@, |c: char| c == '.', 0, end as int);
        } else {
            crate::text::lemma_first_from_none(s@, |c: char| c == '.', 0);
            assert(s@.take(end as int) == s@);
        }
    }
    let head = &s[0..end];
    let mut i: usize = 0;
    while i < 22
        invariant
            i <= 22,
            head@ == stem(s@),
            forall|j: int| 0 <= j < i ==> !eq_ignore_case(head@, #[trigger] RESERVED_NAMES@[j]@),
        decreases 22 - i,
    {
        let name = chars_of(RESERVED_NAMES[i]);
        if chars_eq_ignore_case(head, name.as_slice()) {
            return true;
        }
        i = i + 1;
    }
    false
}

/// Refuse a buildid that is anything but one plain directory name.
///
/// The accepted alphabet is ASCII letters, digits, dot, hyphen and underscore,
/// with no leading dot, no trailing dot or space, and none of the names
/// Windows reserves for devices. Everything Steam has ever issued is a whole
/// number, so the alphabet is wider than any real buildid and narrower than
/// anything a filesystem could mistake for a path.
///
/// # Errors
///
/// Returns a refusal naming what was refused.
pub fn check_build_id(name: &str) -> (r: Result<(), String>)
    ensures
        unit_error(r) == build_id_refusal(name@),
{
    let s = chars_of(name);
    if s.len() == 0 {
        return Err("a buildid cannot be empty".to_string());
    }
    let mut k: usize = 0;
    while k < s.len()
        invariant
            s@ == name@,
            k <= s@.len(),
            forall|j: int| 0 <= j < k ==> is_id_char(#[trigger] s@[j]),
        decreases s@.len() - k,
    {
        let c = s[k];
        if !(('a' <= c && c <= 'z') || ('A' <= c && c <= 'Z') || ('0' <= c && c <= '9') || c == '.' || c
            == '-' || c == '_') {
            proof {
                crate::text::lemma_first_from_at(s@, |c: char| !is_id_char(c), 0, k as int);
            }
            let mut out = String::new();
            push_str(&mut out, "a buildid is one directory name, so ");
            push_str(&mut out, debug_str(name).as_str());
            push_str(&mut out, " cannot carry ");
            push_str(&mut out, debug_char(c).as_str());
            return Err(out);
        }
        k = k + 1;
    }
    if s[0] == '.' {
        let mut out = String::new();
        push_str(&mut out, "a buildid cannot start with a dot, so ");
        push_str(&mut out, debug_str(name).as_str());
        push_str(&mut out, " cannot be used");
        return Err(out);
    }
    let last = s[s.len() - 1];
    if last == '.' || last == ' ' {
        let mut out = String::new();
        push_str(&mut out, "a buildid cannot end in a dot or a space, so ");
        push_str(&mut out, debug_str(name).as_str());
        push_str(&mut out, " cannot be used");
        return Err(out);
    }
    if stem_is_reserved(s.as_slice()) {
        let mut out = String::new();
        push_str(&mut out, debug_str(name).as_str());
        push_str(&mut out, " is a name Windows reserves for a device");
        return Err(out);
    }
    Ok(())
}

/// A buildid that passes the check is one plain directory name: it names no
/// other directory, carries no separator or drive colon, and starts with no
/// dot, so neither `.` nor `..` nor a hidden staging directory gets through.
pub proof fn lemma_accepted_build_id_is_one_segment(name: Seq<char>)
    requires
        build_id_refusal(name) is None,
    ensures
        name.len() > 0,
        name[0] != '.',
        forall|i: int| 0 <= i < name.len() ==> !is_sep(#[trigger] name[i]) && name[i] != ':',
{
    assert forall|i: int| 0 <= i < name.len() implies !is_sep(#[trigger] name[i]) && name[i] != ':' by {
        assert(is_id_char(name[i]));
    }
}

/// A resolved dev root.
pub struct DevRoot {
    path: String,
}

/// Whether `r` is what looking `dir` up for `purpose` comes to, given what it
/// was made absolute as, what it resolved to and what the library lookup
/// found: the directory when no library was found, the refusal otherwise.
pub open spec fn guarded_lookup(
    dir: Seq<char>,
    purpose: Seq<char>,
    absolute: Seq<char>,
    resolved: Seq<char>,
    marker: Option<Seq<char>>,
    r: Result<String, String>,
) -> bool {
    &&& spec_content_tree(absolute) is Some ==> resolved == absolute
    &&& lookup_result(resolved, marker)
    &&& match marker {
        Some(m) => r matches Err(msg) && msg@ == refusal_text(dir, purpose, resolved, m),
        None => r matches Ok(p) && p@ == dir,
    }
}

/// Whether `r` is what a guarded directory lookup returns for `build`: the
/// buildid's refusal, or else the directory `dir` unless the Steam library
/// lookup on exactly `dir` found a library, which it always does when `dir`
/// plainly enters a library's content tree.
pub open spec fn guarded_dir(build: Seq<char>, dir: Seq<char>, purpose: Seq<char>, r: Result<String, String>) -> bool {
    match build_id_refusal(build) {
        Some(e) => r matches Err(m) && m@ == e,
        None => (plainly_in_content_tree(dir) ==> r is Err) && exists|
            absolute: Seq<char>,
            resolved: Seq<char>,
            marker: Option<Seq<char>>,
        | #[trigger] guarded_lookup(dir, purpose, absolute, resolved, marker, r),
    }
}

/// Which number a fetched build carries, and its name.
pub type Numbered = (u64, Seq<char>);

/// Whether one fetched build sorts before another: by number, then by name.
pub open spec fn build_lt(a: Numbered, b: Numbered) -> bool {
    a.0 < b.0 || (a.0 == b.0 && crate::order::lex_lt(a.1, b.1))
}

/// Whether a list of fetched builds is in order.
pub open spec fn builds_sorted(s: Seq<Numbered>) -> bool {
    forall|i: int, j: int| 0 <= i < j < s.len() ==> !build_lt(#[trigger] s[j], #[trigger] s[i])
}

/// The directory names that are whole numbers, with their values, in the
/// order given.
pub open spec fn numbered(dirs: Seq<Seq<char>>) -> Seq<Numbered>
    decreases dirs.len(),
{
    if dirs.len() == 0 {
        Seq::empty()
    } else {
        let rest = numbered(dirs.drop_last());
        match crate::text::spec_parse_u64(dirs.last()) {
            Some(v) => rest.push((v, dirs.last())),
            None => rest,
        }
    }
}

/// Pairs as plain values.
pub open spec fn pairs_view(v: Seq<(u64, String)>) -> Seq<Numbered> {
    Seq::new(v.len(), |i: int| (v[i].0, v[i].1@))
}

/// Strings as plain values.
pub open spec fn names_view(v: Seq<String>) -> Seq<Seq<char>> {
    Seq::new(v.len(), |i: int| v[i]@)
}

/// Sorting fetched builds before one another is transitive.
proof fn lemma_build_lt_transitive(a: Numbered, b: Numbered, c: Numbered)
    requires
        build_lt(a, b),
        build_lt(b, c),
    ensures
        build_lt(a, c),
{
    if a.0 == b.0 && b.0 == c.0 {
        crate::order::lemma_lex_transitive(a.1, b.1, c.1, 0);
    }
}

/// No fetched build sorts before itself.
proof fn lemma_build_lt_irreflexive(a: Numbered)
    ensures
        !build_lt(a, a),
{
    crate::order::lemma_lex_irreflexive(a.1, 0);
}

/// Insert a fetched build where it sorts.
fn insert_sorted(out: &mut Vec<(u64, String)>, value: u64, name: String)
    requires
        builds_sorted(pairs_view(old(out)@)),
    ensures
        builds_sorted(pairs_view(final(out)@)),
        pairs_view(final(out)@).to_multiset() == pairs_view(old(out)@).to_multiset().insert((value, name@)),
{
    let ghost x: Numbered = (value, name@);
    let ghost before = pairs_view(out@);
    let nc = chars_of(name.as_str());
    let mut p: usize = 0;
    while p < out.len()
        invariant
            p <= out@.len(),
            out@ == old(out)@,
            before == pairs_view(out@),
            nc@ == name@,
            x == (value, name@),
            forall|i: int| 0 <= i < p ==> !build_lt(x, #[trigger] before[i]),
        ensures
            p <= out@.len(),
            out@ == old(out)@,
            before == pairs_view(out@),
            forall|i: int| 0 <= i < p ==> !build_lt(x, #[trigger] before[i]),
            p == out@.len() || build_lt(x, before[p as int]),
        decreases out@.len() - p,
    {
        let v = out[p].0;
        let oc = chars_of(out[p].1.as_str());
        let greater = value < v || (value == v && crate::order::compare_chars(nc.as_slice(), oc.as_slice())
            == crate::order::Order::Less);
        assert(greater == build_lt(x, before[p as int]));
        if greater {
            break;
        }
        p = p + 1;
    }
    out.insert(p, (value, name));
    proof {
        assert(pairs_view(out@) =~= before.insert(p as int, x));
        vstd::seq_lib::to_multiset_insert(before, p as int, x);
        let after = pairs_view(out@);
        assert forall|i: int, j: int| 0 <= i < j < after.len() implies !build_lt(#[trigger] after[j], #[trigger] after[i]) by {
            if j < p {
                assert(after[i] == before[i] && after[j] == before[j]);
            } else if i > p {
                assert(after[i] == before[i - 1] && after[j] == before[j - 1]);
            } else if j == p {
                assert(after[j] == x && after[i] == before[i]);
                if build_lt(x, before[i]) {
                    assert(!build_lt(x, before[i]));
                }
            } else if i == p {
                assert(after[i] == x && after[j] == before[j - 1]);
                if build_lt(before[j - 1], x) {
                    if p < before.len() {
                        assert(build_lt(x, before[p as int]));
                        lemma_build_lt_transitive(before[j - 1], x, before[p as int]);
                        if p < j - 1 {
                            assert(!build_lt(before[j - 1], before[p as int]));
                        } else {
                            lemma_build_lt_irreflexive(before[p as int]);
                        }
                    }
                }
            } else {
                assert(i < p && p < j);
                assert(after[i] == before[i] && after[j] == before[j - 1]);
                if i < j - 1 {
                } else {
                    lemma_build_lt_irreflexive(before[i]);
                }
            }
        }
    }
}

impl DevRoot {
    /// The root directory.
    pub closed spec fn spec_path(&self) -> Seq<char> {
        self.path@
    }

    /// The root directory.
    pub fn path(&self) -> (r: &str)
        ensures
            r@ == self.spec_path(),
    {
        self.path.as_str()
    }

    /// The gitignored directory every fetched and derived artifact lives under.
    pub open spec fn spec_cache(&self) -> Seq<char> {
        spec_join(self.spec_path(), CACHE_DIR@)
    }

    /// Where fetched server builds live.
    pub open spec fn spec_server_dir(&self) -> Seq<char> {
        spec_join(self.spec_cache(), "server"@)
    }

    /// The root a run asks for: the one named on the command line, else the one
    /// the environment names, else the workspace root.
    pub open spec fn chosen_root(explicit: Option<&str>, from_env: Option<&str>, workspace: &str) -> Seq<char> {
        match explicit {
            Some(p) => p@,
            None => match from_env {
                Some(p) => p@,
                None => workspace@,
            },
        }
    }

    /// Decide the root for this run: the one named on the command line, else
    /// the one the environment names, else the workspace root.
    ///
    /// # Errors
    ///
    /// Returns an error when the root cannot be made absolute, or when it
    /// resolves inside a Steam library, which would put fetched builds and run
    /// state inside a Steam install.
    pub fn resolve(explicit: Option<&str>, from_env: Option<&str>, workspace: &str) -> (r: Result<Self, String>)
        ensures
            Self::chosen_root(explicit, from_env, workspace).len() == 0 ==> (r matches Err(m) && m@
                == "resolving the dev root at "@ + Self::chosen_root(explicit, from_env, workspace)),
            r matches Ok(root) ==> root.spec_path().len() > 0,
            r matches Err(m) ==> (m@ == "resolving the dev root at "@ + Self::chosen_root(explicit, from_env, workspace))
                || exists|path: Seq<char>, resolved: Seq<char>, marker: Seq<char>|
                path.len() > 0 && names_steamapps(marker) && m@ == refusal_text(
                    path,
                    "the dev root"@,
                    resolved,
                    marker,
                ),
    {
        let chosen: &str = match explicit {
            Some(p) => p,
            None => match from_env {
                Some(p) => p,
                None => workspace,
            },
        };
        let path = match crate::steam::absolute_path(chosen) {
            Some(p) => p,
            None => {
                let mut m = String::new();
                push_str(&mut m, "resolving the dev root at ");
                push_str(&mut m, chosen);
                return Err(m);
            },
        };
        match ensure_outside_library(path.as_str(), "the dev root") {
            Ok(()) => Ok(DevRoot { path }),
            Err(m) => Err(m),
        }
    }

    /// The gitignored directory every fetched and derived artifact lives under.
    pub fn cache(&self) -> (r: String)
        ensures
            r@ == self.spec_cache(),
    {
        join(self.path.as_str(), CACHE_DIR)
    }

    /// Where fetched server builds live, one directory per buildid.
    pub fn server_dir(&self) -> (r: String)
        ensures
            r@ == self.spec_server_dir(),
    {
        join(self.cache().as_str(), "server")
    }

    /// Where extractions live, one directory per buildid.
    pub fn schema_dir(&self) -> (r: String)
        ensures
            r@ == spec_join(self.spec_cache(), "schema"@),
    {
        join(self.cache().as_str(), "schema")
    }

    /// Where localization extractions live, one directory per buildid.
    pub fn loca_dir(&self) -> (r: String)
        ensures
            r@ == spec_join(self.spec_cache(), "loca"@),
    {
        join(self.cache().as_str(), "loca")
    }

    /// Where `SteamCMD` lives.
    pub fn steamcmd(&self) -> (r: String)
        ensures
            r@ == spec_join(spec_join(self.spec_cache(), "steamcmd"@), "steamcmd.exe"@),
    {
        join(join(self.cache().as_str(), "steamcmd").as_str(), "steamcmd.exe")
    }

    /// A directory for one build under `parent`, once the buildid is checked
    /// and the directory is outside every Steam library.
    fn guarded(build: &str, parent: &str, purpose: &str) -> (r: Result<String, String>)
        ensures
            guarded_dir(build@, spec_join(parent@, build@), purpose@, r),
    {
        match check_build_id(build) {
            Err(e) => return Err(e),
            Ok(()) => {},
        }
        let path = join(parent, build);
        let v = ensure_outside_library(path.as_str(), purpose);
        let ghost (a, res, mk) = choose|a: Seq<char>, res: Seq<char>, mk: Option<Seq<char>>|
            library_outcome(path@, purpose@, a, res, mk, v);
        let r = match v {
            Ok(()) => Ok(path),
            Err(m) => Err(m),
        };
        assert(guarded_lookup(spec_join(parent@, build@), purpose@, a, res, mk, r));
        r
    }

    /// The directory a named build would occupy, fetched or not.
    ///
    /// # Errors
    ///
    /// Returns an error when the buildid is not a single path segment, or when
    /// the directory resolves inside a Steam library.
    pub fn build_dir(&self, build: &str) -> (r: Result<String, String>)
        ensures
            guarded_dir(build@, spec_join(self.spec_server_dir(), build@), "a server directory"@, r),
    {
        Self::guarded(build, self.server_dir().as_str(), "a server directory")
    }

    /// The directory holding one build's saves, config, log and pid file.
    ///
    /// Run state is kept beside the fetched build rather than inside it, so a
    /// build stays as `SteamCMD` wrote it and a validate run has nothing to
    /// repair.
    ///
    /// # Errors
    ///
    /// Returns an error when the buildid is not a single path segment, or when
    /// the directory resolves inside a Steam library.
    pub fn run_dir(&self, build: &str) -> (r: Result<String, String>)
        ensures
            guarded_dir(build@, spec_join(spec_join(self.spec_cache(), "run"@), build@), "a run directory"@, r),
    {
        Self::guarded(build, join(self.cache().as_str(), "run").as_str(), "a run directory")
    }

    /// The directory holding one build's extraction.
    ///
    /// # Errors
    ///
    /// Returns an error when the buildid is not a single path segment, or when
    /// the directory resolves inside a Steam library.
    pub fn schema_build_dir(&self, build: &str) -> (r: Result<String, String>)
        ensures
            guarded_dir(build@, spec_join(spec_join(self.spec_cache(), "schema"@), build@), "an extraction directory"@, r),
    {
        Self::guarded(build, self.schema_dir().as_str(), "an extraction directory")
    }

    /// The directory holding one build's localization tables.
    ///
    /// # Errors
    ///
    /// Returns an error when the buildid is not a single path segment, or when
    /// the directory resolves inside a Steam library.
    pub fn loca_build_dir(&self, build: &str) -> (r: Result<String, String>)
        ensures
            guarded_dir(build@, spec_join(spec_join(self.spec_cache(), "loca"@), build@), "a localization directory"@, r),
    {
        Self::guarded(build, self.loca_dir().as_str(), "a localization directory")
    }

    /// The buildid a command works on.
    ///
    /// A named buildid is used as given. With none named, the newest of the
    /// `fetched` builds (as [`DevRoot::fetched_builds`] orders them) is used,
    /// because buildids rise with every Steam release.
    ///
    /// # Errors
    ///
    /// Returns an error when nothing is fetched, or when the buildid is not a
    /// single path segment.
    pub fn build_id(&self, build: Option<&str>, fetched: &[String]) -> (r: Result<String, String>)
        ensures
            match build {
                Some(named) => match build_id_refusal(named@) {
                    Some(e) => r matches Err(m) && m@ == e,
                    None => r matches Ok(id) && id@ == named@,
                },
                None => if fetched@.len() == 0 {
                    r matches Err(m) && m@ == "no server build under "@ + self.spec_server_dir()
                        + ". Run `cargo xtask server fetch` first."@
                } else {
                    r matches Ok(id) && id@ == fetched@.last()@
                },
            },
    {
        if let Some(named) = build {
            match check_build_id(named) {
                Err(e) => return Err(e),
                Ok(()) => {},
            }
            return Ok(named.to_string());
        }
        if fetched.len() == 0 {
            let mut m = String::new();
            push_str(&mut m, "no server build under ");
            push_str(&mut m, self.server_dir().as_str());
            push_str(&mut m, ". Run `cargo xtask server fetch` first.");
            return Err(m);
        }
        Ok(fetched[fetched.len() - 1].clone())
    }

    /// Every fetched buildid, oldest first, from the names of the directories
    /// under [`DevRoot::server_dir`].
    ///
    /// Only a name that is a whole number counts, sorted by value so build
    /// 10000000 follows build 9999999. A staging directory, a hand-placed
    /// directory or anything else beside the builds is never a candidate.
    pub fn fetched_builds(&self, dirs: &[String]) -> (out: Vec<String>)
        ensures
            exists|ps: Seq<Numbered>|
                #![trigger ps.to_multiset()]
                builds_sorted(ps) && ps.to_multiset() == numbered(names_view(dirs@)).to_multiset()
                    && names_view(out@) == Seq::new(ps.len(), |i: int| ps[i].1),
    {
        let mut pairs: Vec<(u64, String)> = Vec::new();
        proof {
            assert(names_view(dirs@.take(0)) =~= Seq::<Seq<char>>::empty());
            assert(pairs_view(pairs@) =~= Seq::<Numbered>::empty());
        }
        let mut i: usize = 0;
        while i < dirs.len()
            invariant
                i <= dirs@.len(),
                builds_sorted(pairs_view(pairs@)),
                pairs_view(pairs@).to_multiset() == numbered(names_view(dirs@.take(i as int))).to_multiset(),
            decreases dirs@.len() - i,
        {
            proof {
                assert(names_view(dirs@.take(i + 1)).drop_last() =~= names_view(dirs@.take(i as int)));
                assert(names_view(dirs@.take(i + 1)).last() == dirs@[i as int]@);
            }
            let ghost prev = numbered(names_view(dirs@.take(i as int)));
            if let Some(value) = crate::text::parse_u64(dirs[i].as_str()) {
                insert_sorted(&mut pairs, value, dirs[i].clone());
                proof {
                    vstd::seq_lib::to_multiset_build(prev, (value, dirs@[i as int]@));
                }
            }
            i = i + 1;
        }
        proof {
            assert(dirs@.take(dirs@.len() as int) == dirs@);
        }
        let ghost ps = pairs_view(pairs@);
        let mut out: Vec<String> = Vec::new();
        let mut k: usize = 0;
        while k < pairs.len()
            invariant
                k <= pairs@.len(),
                out@.len() == k,
                ps == pairs_view(pairs@),
                names_view(out@) == Seq::new(k as nat, |j: int| ps[j].1),
            decreases pairs@.len() - k,
        {
            let ghost prev = names_view(out@);
            let name = pairs[k].1.clone();
            assert(name@ == ps[k as int].1);
            out.push(name);
            proof {
                assert(names_view(out@) =~= prev.push(ps[k as int].1));
                assert(names_view(out@) =~= Seq::new((k + 1) as nat, |j: int| ps[j].1));
            }
            k = k + 1;
        }
        proof {
            assert(names_view(out@) =~= Seq::new(ps.len(), |i: int| ps[i].1));
        }
        out
    }
}

/// The predicate that holds of a double quote.
pub open spec fn is_quote() -> spec_fn(char) -> bool {
    |c: char| c == '"'
}

/// The end of the quote-separated piece that starts at `from`: the next
/// quote, or the end of the line.
pub open spec fn piece_end(line: Seq<char>, from: int) -> int {
    match crate::text::first_from(line, is_quote(), from) {
        Some(q) => q,
        None => line.len() as int,
    }
}

/// The key and the value a manifest line quotes, as splitting it at every
/// double quote finds them: the second and the fourth piece.
pub open spec fn manifest_pair(line: Seq<char>) -> Option<(Seq<char>, Seq<char>)> {
    match crate::text::first_from(line, is_quote(), 0) {
        None => None,
        Some(q1) => match crate::text::first_from(line, is_quote(), q1 + 1) {
            None => None,
            Some(q2) => match crate::text::first_from(line, is_quote(), q2 + 1) {
                None => None,
                Some(q3) => Some((line.subrange(q1 + 1, q2), line.subrange(q3 + 1, piece_end(line, q3 + 1)))),
            },
        },
    }
}

/// The buildid the first line quoting a non-empty `buildid` names, among the
/// lines from the first on.
pub open spec fn manifest_value(ls: Seq<Seq<char>>) -> Option<Seq<char>>
    decreases ls.len(),
{
    if ls.len() == 0 {
        None
    } else {
        match manifest_pair(ls[0]) {
            Some((key, value)) => if key == "buildid"@ && value.len() > 0 {
                Some(value)
            } else {
                manifest_value(ls.drop_first())
            },
            None => manifest_value(ls.drop_first()),
        }
    }
}

/// The next quote from `from` on, or the end of the line.
fn next_quote(line: &[char], from: usize) -> (r: usize)
    requires
        from <= line@.len(),
    ensures
        from <= r <= line@.len(),
        r == piece_end(line@, from as int),
        r < line@.len() ==> crate::text::first_from(line@, is_quote(), from as int) == Some(r as int),
        r == line@.len() ==> crate::text::first_from(line@, is_quote(), from as int) is None,
{
    let mut k = from;
    while k < line.len() && line[k] != '"'
        invariant
            from <= k <= line@.len(),
            forall|j: int| from <= j < k ==> #[trigger] line@[j] != '"',
        decreases line@.len() - k,
    {
        k = k + 1;
    }
    proof {
        if k < line.len() {
            crate::text::lemma_first_from_at(line@, is_quote(), from as int, k as int);
        } else {
            crate::text::lemma_first_from_none(line@, is_quote(), from as int);
        }
    }
    k
}

/// The key and the value a manifest line quotes.
fn manifest_pair_exec(line: &[char]) -> (r: Option<(Vec<char>, Vec<char>)>)
    ensures
        match r {
            Some((k, v)) => manifest_pair(line@) == Some((k@, v@)),
            None => manifest_pair(line@) is None,
        },
{
    let q1 = next_quote(line, 0);
    if q1 == line.len() {
        return None;
    }
    let q2 = next_quote(line, q1 + 1);
    if q2 == line.len() {
        return None;
    }
    let q3 = next_quote(line, q2 + 1);
    if q3 == line.len() {
        return None;
    }
    let end = next_quote(line, q3 + 1);
    let key = crate::text::range_vec(line, q1 + 1, q2);
    let value = crate::text::range_vec(line, q3 + 1, end);
    Some((key, value))
}

/// The buildid an app manifest's text records, when a line quotes a
/// non-empty `buildid`.
pub fn manifest_build_id(text: &str) -> (r: Option<String>)
    ensures
        match r {
            Some(v) => manifest_value(crate::text::spec_lines(text@)) == Some(v@),
            None => manifest_value(crate::text::spec_lines(text@)) is None,
        },
{
    let ls = crate::text::lines(text);
    let ghost all = crate::text::spec_lines(text@);
    let key_word = chars_of("buildid");
    assert(all.subrange(0, all.len() as int) =~= all);
    let mut i: usize = 0;
    while i < ls.len()
        invariant
            i <= ls@.len(),
            ls@.len() == all.len(),
            forall|j: int| 0 <= j < ls@.len() ==> #[trigger] ls@[j]@ == all[j],
            key_word@ == "buildid"@,
            all == crate::text::spec_lines(text@),
            manifest_value(all) == manifest_value(all.subrange(i as int, all.len() as int)),
        decreases ls@.len() - i,
    {
        let ghost rest = all.subrange(i as int, all.len() as int);
        proof {
            assert(rest[0] == ls@[i as int]@);
            assert(rest.drop_first() =~= all.subrange(i + 1, all.len() as int));
        }
        if let Some((key, value)) = manifest_pair_exec(ls[i].as_slice()) {
            if crate::text::chars_eq(key.as_slice(), key_word.as_slice()) && value.len() > 0 {
                assert(manifest_pair(rest[0]) == Some((key@, value@)));
                assert(manifest_value(rest) == Some(value@));
                return Some(crate::text::string_of(value.as_slice()));
            }
        }
        i = i + 1;
    }
    proof {
        assert(all.subrange(i as int, all.len() as int) =~= Seq::<Seq<char>>::empty());
    }
    None
}

/// The buildid an app manifest records for one application, given the
/// manifest's path and text. The value is checked the way a typed buildid is,
/// because it becomes a directory name the same way.
///
/// # Errors
///
/// Returns an error when the manifest carries no buildid, or carries one that
/// is not a plain directory name.
pub fn build_id_in_manifest(manifest: &str, text: &str) -> (r: Result<String, String>)
    ensures
        match manifest_value(crate::text::spec_lines(text@)) {
            None => r matches Err(m) && m@ == manifest@ + " names no buildid"@,
            Some(v) => match build_id_refusal(v) {
                None => r matches Ok(id) && id@ == v,
                Some(why) => r matches Err(m) && m@ == manifest@ + " names a buildid that is not usable: "@ + why,
            },
        },
{
    match manifest_build_id(text) {
        None => {
            let mut m = crate::ui::owned(manifest);
            push_str(&mut m, " names no buildid");
            Err(m)
        },
        Some(value) => match check_build_id(value.as_str()) {
            Ok(()) => Ok(value),
            Err(why) => {
                let mut m = crate::ui::owned(manifest);
                push_str(&mut m, " names a buildid that is not usable: ");
                push_str(&mut m, why.as_str());
                Err(m)
            },
        },
    }
}

/// The directory an accepted buildid names under a parent is one level
/// inside it: the joined path is the parent, a separator unless the parent is
/// empty or already ends in one, then the buildid, which holds no separator
/// and is neither `.` nor `..`.
pub proof fn lemma_accepted_build_id_stays_inside(parent: Seq<char>, build: Seq<char>)
    requires
        build_id_refusal(build) is None,
    ensures
        ({
            let p = spec_join(parent, build);
            &&& p.subrange(0, parent.len() as int) == parent
            &&& p.subrange(p.len() - build.len(), p.len() as int) == build
            &&& (parent.len() == 0 || is_sep(p[p.len() - build.len() - 1]))
            &&& forall|i: int| 0 <= i < build.len() ==> !is_sep(#[trigger] build[i])
            &&& build != "."@
            &&& build != ".."@
        }),
{
    lemma_accepted_build_id_is_one_segment(build);
    reveal_strlit(".");
    reveal_strlit("..");
    let p = spec_join(parent, build);
    assert(p.subrange(0, parent.len() as int) =~= parent);
    assert(p.subrange(p.len() - build.len(), p.len() as int) =~= build);
    assert(build[0] != '.');
}

} // verus!
