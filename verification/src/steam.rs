//! Refusal of Steam library paths.
//!
//! A Steam install of Enshrouded is read-only reference. Nothing in this
//! repository writes into one, launches a binary out of one, or injects into a
//! process started from one. Every command that takes a server directory sends
//! it through [`ensure_outside_library`] first.
//!
//! Matching is structural, not textual. The path is made absolute, the longest
//! existing prefix is canonicalized so a junction or a symlink resolves to what
//! it points at, and the result is judged by the shape of a Steam library.
//!
//! What makes a library is `steamapps` with `common` or `libraryfolders.vdf`
//! under it. A `SteamCMD` install directory also carries a `steamapps` directory,
//! holding nothing but app manifests, so the narrower rule is what lets a
//! fetched build sit in the cache without refusing itself.
//!
//! Paths are held as text. Both `/` and `\` separate components, as they do on
//! Windows, where the server runs.

use vstd::prelude::*;

use crate::text::{
    chars_of, eq_ignore_case, first_from, lemma_first_from, lemma_first_from_at, lemma_first_from_none, push_str,
    range_eq_ignore_case, string_of_range,
};

verus! {

/// The directory name every Steam library keeps its content under.
pub const STEAMAPPS: &'static str = "steamapps";

/// The two children that make a `steamapps` directory a library rather than a
/// `SteamCMD` install target.
pub const LIBRARY_MARKERS: [&'static str; 2] = ["common", "libraryfolders.vdf"];

/// A character that separates path components.
pub open spec fn is_sep(c: char) -> bool {
    c == '/' || c == '\\'
}

/// The predicate that holds of a separator.
pub open spec fn sep() -> spec_fn(char) -> bool {
    |c: char| is_sep(c)
}

/// The predicate that holds of anything but a separator.
pub open spec fn non_sep() -> spec_fn(char) -> bool {
    |c: char| !is_sep(c)
}

/// The first position from `i` on that is not a separator, or the length.
pub open spec fn comp_start(s: Seq<char>, i: int) -> int {
    match first_from(s, non_sep(), i) {
        Some(k) => k,
        None => s.len() as int,
    }
}

/// The first position from `i` on that is a separator, or the length.
pub open spec fn comp_end(s: Seq<char>, i: int) -> int {
    match first_from(s, sep(), i) {
        Some(k) => k,
        None => s.len() as int,
    }
}

/// Whether a component begins at `k`.
pub open spec fn starts_component(s: Seq<char>, k: int) -> bool {
    0 <= k < s.len() && !is_sep(s[k]) && (k == 0 || is_sep(s[k - 1]))
}

/// Whether the component at `k` is `steamapps` and the one after it is
/// `common`, both ignoring ASCII case.
pub open spec fn enters_content_tree(s: Seq<char>, k: int) -> bool {
    let e = comp_end(s, k);
    let next = comp_start(s, e);
    &&& starts_component(s, k)
    &&& eq_ignore_case(s.subrange(k, e), STEAMAPPS@)
    &&& next < s.len()
    &&& eq_ignore_case(s.subrange(next, comp_end(s, next)), "common"@)
}

/// The `steamapps` directory of a library whose `common` tree the path
/// enters: the path up to the end of the first such `steamapps` component.
pub open spec fn spec_content_tree(s: Seq<char>) -> Option<Seq<char>> {
    match first_from(Seq::new(s.len(), |k: int| k), |k: int| enters_content_tree(s, k), 0) {
        Some(k) => Some(s.subrange(0, comp_end(s, k))),
        None => None,
    }
}

/// Whether a component survives every platform's absolute form as it is: it
/// holds more than dots and spaces (so it is neither `.` nor `..`), does not
/// end in a dot or a space (which Windows trims), holds no control character,
/// and can name no Windows device: no `$` (as in `CONIN$`), no superscript
/// digit (as in `COM¹`), and a stem that is not a reserved device name. Any
/// other character, ASCII or not, is kept.
pub open spec fn kept_component(c: Seq<char>) -> bool {
    &&& exists|i: int| 0 <= i < c.len() && c[i] != '.' && c[i] != ' '
    &&& c.last() != '.' && c.last() != ' '
    &&& forall|i: int| 0 <= i < c.len() ==> kept_char(#[trigger] c[i])
    &&& !crate::root::is_reserved(crate::root::stem(c))
}

/// A character no platform's absolute form touches inside a component.
pub open spec fn kept_char(ch: char) -> bool {
    &&& ' ' <= ch
    &&& ch != '\u{7f}'
    &&& ch != '$'
    &&& ch != '\u{b9}' && ch != '\u{b2}' && ch != '\u{b3}'
}

/// Whether every component of the path survives its absolute form as it is.
pub open spec fn keeps_components(s: Seq<char>) -> bool {
    forall|k: int| #[trigger] starts_component(s, k) ==> kept_component(s.subrange(k, comp_end(s, k)))
}

/// Whether the path enters a library's content tree through components that
/// making it absolute leaves alone, so that no filesystem is needed to refuse
/// it.
pub open spec fn plainly_in_content_tree(s: Seq<char>) -> bool {
    spec_content_tree(s) is Some && keeps_components(s)
}

/// The first position from `i` on that is a separator, or the length.
pub fn find_sep(s: &[char], i: usize) -> (r: usize)
    requires
        i <= s@.len(),
    ensures
        r == comp_end(s@, i as int),
        i <= r <= s@.len(),
{
    let mut k = i;
    while k < s.len()
        invariant
            i <= k <= s@.len(),
            forall|j: int| i <= j < k ==> !is_sep(#[trigger] s@[j]),
        decreases s@.len() - k,
    {
        if s[k] == '/' || s[k] == '\\' {
            proof {
                lemma_first_from_at(s@, sep(), i as int, k as int);
            }
            return k;
        }
        k = k + 1;
    }
    proof {
        lemma_first_from_none(s@, sep(), i as int);
    }
    k
}

/// The first position from `i` on that is not a separator, or the length.
fn skip_seps(s: &[char], i: usize) -> (r: usize)
    requires
        i <= s@.len(),
    ensures
        r == comp_start(s@, i as int),
        i <= r <= s@.len(),
{
    let mut k = i;
    while k < s.len()
        invariant
            i <= k <= s@.len(),
            forall|j: int| i <= j < k ==> is_sep(#[trigger] s@[j]),
        decreases s@.len() - k,
    {
        if !(s[k] == '/' || s[k] == '\\') {
            proof {
                lemma_first_from_at(s@, non_sep(), i as int, k as int);
            }
            return k;
        }
        k = k + 1;
    }
    proof {
        lemma_first_from_none(s@, non_sep(), i as int);
    }
    k
}

/// Whether the component at `k` is `steamapps` with `common` after it.
fn enters_at(s: &[char], k: usize) -> (r: bool)
    requires
        k < s@.len(),
    ensures
        r == enters_content_tree(s@, k as int),
{
    let c = s[k];
    if c == '/' || c == '\\' {
        return false;
    }
    if k > 0 && !(s[k - 1] == '/' || s[k - 1] == '\\') {
        return false;
    }
    let e = find_sep(s, k);
    if !range_eq_ignore_case(s, k, e, STEAMAPPS) {
        return false;
    }
    let next = skip_seps(s, e);
    if next >= s.len() {
        return false;
    }
    let next_end = find_sep(s, next);
    range_eq_ignore_case(s, next, next_end, "common")
}

/// The `steamapps` directory of a library whose `common` tree this path enters.
///
/// This is the one shape that needs no filesystem, so it is checked first and
/// keeps an unreachable network path from costing a lookup timeout.
pub fn content_tree(path: &str) -> (r: Option<String>)
    ensures
        match r {
            Some(m) => spec_content_tree(path@) == Some(m@),
            None => spec_content_tree(path@) is None,
        },
{
    let s = chars_of(path);
    let ghost idx = Seq::new(s@.len(), |k: int| k);
    let ghost p = |k: int| enters_content_tree(s@, k);
    let mut k: usize = 0;
    while k < s.len()
        invariant
            s@ == path@,
            idx == Seq::new(s@.len(), |k: int| k),
            p == (|k: int| enters_content_tree(s@, k)),
            k <= s@.len(),
            forall|j: int| 0 <= j < k ==> !p(#[trigger] idx[j]),
        decreases s@.len() - k,
    {
        if enters_at(s.as_slice(), k) {
            proof {
                lemma_first_from_at(idx, p, 0, k as int);
            }
            let e = find_sep(s.as_slice(), k);
            return Some(string_of_range(s.as_slice(), 0, e));
        }
        k = k + 1;
    }
    proof {
        lemma_first_from_none(idx, p, 0);
    }
    None
}

/// Whether one path component matches a name, ignoring ASCII case.
pub fn equals_ignoring_case(name: &str, wanted: &str) -> (r: bool)
    ensures
        r == eq_ignore_case(name@, wanted@),
{
    let a = chars_of(name);
    proof {
        assert(a@.subrange(0, a@.len() as int) == a@);
    }
    range_eq_ignore_case(a.as_slice(), 0, a.len(), wanted)
}

/// `base` with `name` appended as one more component.
///
/// A base that is empty or already ends in a separator takes the name as it
/// is; any other gets a `/` first, which Windows reads as a separator too.
pub open spec fn spec_join(base: Seq<char>, name: Seq<char>) -> Seq<char> {
    if base.len() == 0 || is_sep(base.last()) {
        base + name
    } else {
        base + seq!['/'] + name
    }
}

/// `base` with `name` appended as one more component.
pub fn join(base: &str, name: &str) -> (out: String)
    ensures
        out@ == spec_join(base@, name@),
{
    let b = chars_of(base);
    let mut out = String::new();
    push_str(&mut out, base);
    if b.len() > 0 && !(b[b.len() - 1] == '/' || b[b.len() - 1] == '\\') {
        push_str(&mut out, "/");
        proof {
            reveal_strlit("/");
        }
    }
    push_str(&mut out, name);
    out
}

/// The path made absolute, without touching the filesystem.
///
/// Trusted: calls `std::path::absolute`, which joins a relative path to the
/// current directory. Its documentation says it fails on an empty path,
/// otherwise gives an absolute path, which is never empty, and touches no
/// component but `.` and `..` (and, on Windows, where it is
/// `GetFullPathNameW`, trailing dots and spaces and device names). So a path
/// that enters a content tree through components none of those rules touch
/// still enters one. Which path comes out depends on the current directory,
/// and the contract does not say.
#[verifier::external_body]
pub(crate) fn absolute_path(path: &str) -> (r: Option<String>)
    ensures
        path@.len() == 0 ==> r is None,
        r matches Some(p) ==> p@.len() > 0,
        plainly_in_content_tree(path@) ==> (r matches Some(p) ==> spec_content_tree(p@) is Some),
{
    std::path::absolute(path).ok().map(|p| p.to_string_lossy().into_owned())
}

/// The path with every link resolved, when it exists.
///
/// Trusted: calls `std::path::Path::canonicalize`, documented to give the
/// canonical, absolute form of the path, so a result is never empty. Which
/// path it is depends on the filesystem, and the contract does not say.
#[verifier::external_body]
pub(crate) fn canonical_path(path: &str) -> (r: Option<String>)
    ensures
        r matches Some(p) ==> p@.len() > 0,
{
    std::path::Path::new(path).canonicalize().ok().map(|p| p.to_string_lossy().into_owned())
}

/// Whether something exists at the path.
///
/// Trusted: calls `std::path::Path::exists`, which reads the filesystem, so
/// the contract says nothing of the result.
#[verifier::external_body]
fn path_exists(path: &str) -> (r: bool) {
    std::path::Path::new(path).exists()
}

/// The path without its final component.
///
/// Trusted: calls `std::path::Path::parent`, documented as the path without
/// its final component, so the result is shorter than the path. Which prefix
/// it is, the contract does not say.
#[verifier::external_body]
fn path_parent(path: &str) -> (r: Option<String>)
    ensures
        r matches Some(p) ==> p@.len() < path@.len(),
{
    std::path::Path::new(path).parent().map(|p| p.to_string_lossy().into_owned())
}

/// The final component of the path, when it names one.
///
/// Trusted: calls `std::path::Path::file_name`. The contract says nothing of
/// the result.
#[verifier::external_body]
fn path_file_name(path: &str) -> (r: Option<String>) {
    std::path::Path::new(path).file_name().map(|n| n.to_string_lossy().into_owned())
}

/// Whether a path's last component is `steamapps`, ignoring ASCII case.
pub open spec fn names_steamapps(m: Seq<char>) -> bool {
    m.len() >= STEAMAPPS@.len() && eq_ignore_case(m.subrange(m.len() - STEAMAPPS@.len(), m.len() as int), STEAMAPPS@)
        && (m.len() == STEAMAPPS@.len() || is_sep(m[m.len() - STEAMAPPS@.len() - 1]))
}

/// Paths as plain text.
pub open spec fn paths_view(v: Seq<String>) -> Seq<Seq<char>> {
    Seq::new(v.len(), |i: int| v[i]@)
}

/// Whether the component starting at `k` is `steamapps`, ignoring ASCII case.
pub open spec fn steamapps_at(s: Seq<char>, k: int) -> bool {
    starts_component(s, k) && eq_ignore_case(s.subrange(k, comp_end(s, k)), STEAMAPPS@)
}

/// The prefixes of `s` that end in a `steamapps` component starting before
/// position `n`, shortest first.
pub open spec fn steamapps_prefixes(s: Seq<char>, n: int) -> Seq<Seq<char>>
    decreases n,
{
    if n <= 0 {
        Seq::empty()
    } else if steamapps_at(s, n - 1) {
        steamapps_prefixes(s, n - 1).push(s.subrange(0, comp_end(s, n - 1)))
    } else {
        steamapps_prefixes(s, n - 1)
    }
}

/// Whether `ancestors` is a chain as `Path::parent` hands it out: the path
/// itself first, each next one shorter than the one before.
pub open spec fn ancestry(path: Seq<char>, ancestors: Seq<Seq<char>>) -> bool {
    &&& ancestors.len() >= 1
    &&& ancestors[0] == path
    &&& forall|i: int| 0 <= i < ancestors.len() - 1 ==> #[trigger] ancestors[i + 1].len() < ancestors[i].len()
}

/// The `steamapps` directories that would make a resolved path part of a
/// library: each prefix ending in a `steamapps` component, shortest first, then
/// `steamapps` under each ancestor, nearest first.
pub open spec fn library_candidates(resolved: Seq<char>, ancestors: Seq<Seq<char>>) -> Seq<Seq<char>> {
    steamapps_prefixes(resolved, resolved.len() as int) + Seq::new(
        ancestors.len(),
        |i: int| spec_join(ancestors[i], STEAMAPPS@),
    )
}

/// The marker each probe looks for: `common`, then `libraryfolders.vdf`, for
/// each candidate in turn.
pub open spec fn probe_path(candidates: Seq<Seq<char>>, j: int) -> Seq<char> {
    spec_join(candidates[j / 2], LIBRARY_MARKERS@[j % 2]@)
}

/// Whether `probes` is what probing the candidates' markers in order gathers:
/// no more probes than markers, none but the last holding, and a stop short
/// of the end only at one that holds.
pub open spec fn probed(candidates: Seq<Seq<char>>, probes: Seq<bool>) -> bool {
    &&& probes.len() <= 2 * candidates.len()
    &&& forall|j: int| 0 <= j < probes.len() - 1 ==> !#[trigger] probes[j]
    &&& probes.len() < 2 * candidates.len() ==> (probes.len() > 0 && probes.last())
}

/// The candidate whose marker is the first probe to hold, or `None` when none
/// holds.
pub open spec fn first_hit(candidates: Seq<Seq<char>>, probes: Seq<bool>) -> Option<Seq<char>> {
    match first_from(probes, |b: bool| b, 0) {
        Some(j) => Some(candidates[j / 2]),
        None => None,
    }
}

/// A string as optional plain text.
pub open spec fn opt_text(r: Option<String>) -> Option<Seq<char>> {
    match r {
        Some(x) => Some(x@),
        None => None,
    }
}

/// The prefixes of `resolved` that end in a `steamapps` component.
fn steamapps_prefixes_of(resolved: &str) -> (out: Vec<String>)
    ensures
        paths_view(out@) == steamapps_prefixes(resolved@, resolved@.len() as int),
{
    let s = chars_of(resolved);
    let mut out: Vec<String> = Vec::new();
    let mut k: usize = 0;
    while k < s.len()
        invariant
            s@ == resolved@,
            k <= s@.len(),
            paths_view(out@) == steamapps_prefixes(s@, k as int),
        decreases s@.len() - k,
    {
        let starts = !(s[k] == '/' || s[k] == '\\') && (k == 0 || s[k - 1] == '/' || s[k - 1] == '\\');
        if starts {
            let e = find_sep(s.as_slice(), k);
            if range_eq_ignore_case(s.as_slice(), k, e, STEAMAPPS) {
                out.push(string_of_range(s.as_slice(), 0, e));
            }
        }
        proof {
            assert(starts == starts_component(s@, k as int));
            assert(paths_view(out@) =~= steamapps_prefixes(s@, k + 1));
        }
        k = k + 1;
    }
    out
}

/// The path and each ancestor `Path::parent` hands out, nearest first.
fn ancestors_of(resolved: &str) -> (out: Vec<String>)
    ensures
        ancestry(resolved@, paths_view(out@)),
{
    let mut head = resolved.to_string();
    let mut out: Vec<String> = Vec::new();
    out.push(head.clone());
    loop
        invariant
            ancestry(resolved@, paths_view(out@)),
            paths_view(out@).last() == head@,
        decreases head@.len(),
    {
        match path_parent(head.as_str()) {
            Some(parent) => {
                let ghost before = paths_view(out@);
                out.push(parent.clone());
                head = parent;
                proof {
                    assert(paths_view(out@) =~= before.push(head@));
                }
            },
            None => return out,
        }
    }
}

/// The candidate `steamapps` directories for a resolved path and its
/// ancestors.
pub fn library_candidates_of(resolved: &str, ancestors: &[String]) -> (out: Vec<String>)
    ensures
        paths_view(out@) == library_candidates(resolved@, paths_view(ancestors@)),
{
    let mut out = steamapps_prefixes_of(resolved);
    let ghost prefixes = paths_view(out@);
    let mut i: usize = 0;
    while i < ancestors.len()
        invariant
            i <= ancestors@.len(),
            paths_view(out@) == prefixes + Seq::new(i as nat, |k: int| spec_join(ancestors@[k]@, STEAMAPPS@)),
        decreases ancestors@.len() - i,
    {
        let ghost before = paths_view(out@);
        out.push(join(ancestors[i].as_str(), STEAMAPPS));
        proof {
            assert(paths_view(out@) =~= before.push(spec_join(ancestors@[i as int]@, STEAMAPPS@)));
            assert(paths_view(out@) =~= prefixes + Seq::new((i + 1) as nat, |k: int| spec_join(ancestors@[k]@, STEAMAPPS@)));
        }
        i = i + 1;
    }
    proof {
        assert(Seq::new(ancestors@.len(), |k: int| spec_join(ancestors@[k]@, STEAMAPPS@)) =~= Seq::new(
            paths_view(ancestors@).len(),
            |k: int| spec_join(paths_view(ancestors@)[k], STEAMAPPS@),
        ));
    }
    out
}

/// Probe each candidate for its library markers, `common` then
/// `libraryfolders.vdf`, in order, stopping at the first that exists.
///
/// What exists is the filesystem's to say. The paths probed are exactly the
/// candidates' markers, in order.
fn probe_candidates(candidates: &[String]) -> (probes: Vec<bool>)
    ensures
        probed(paths_view(candidates@), probes@),
{
    let mut probes: Vec<bool> = Vec::new();
    let mut i: usize = 0;
    while i < candidates.len()
        invariant
            i <= candidates@.len(),
            probes@.len() == 2 * i,
            forall|j: int| 0 <= j < probes@.len() ==> !#[trigger] probes@[j],
        decreases candidates@.len() - i,
    {
        let common = path_exists(join(candidates[i].as_str(), LIBRARY_MARKERS[0]).as_str());
        probes.push(common);
        if common {
            return probes;
        }
        let folders = path_exists(join(candidates[i].as_str(), LIBRARY_MARKERS[1]).as_str());
        probes.push(folders);
        if folders {
            return probes;
        }
        i = i + 1;
    }
    probes
}

/// The library a lookup found, from what its probes came back with: the
/// candidate whose marker is the first probe to hold, or `None`.
pub fn marker_from_probes(resolved: &str, ancestors: &[String], probes: &[bool]) -> (r: Option<String>)
    requires
        probes@.len() <= 2 * library_candidates(resolved@, paths_view(ancestors@)).len(),
    ensures
        opt_text(r) == first_hit(library_candidates(resolved@, paths_view(ancestors@)), probes@),
{
    let candidates = library_candidates_of(resolved, ancestors);
    let mut j: usize = 0;
    while j < probes.len()
        invariant
            j <= probes@.len(),
            probes@.len() <= 2 * candidates@.len(),
            paths_view(candidates@) == library_candidates(resolved@, paths_view(ancestors@)),
            forall|k: int| 0 <= k < j ==> !#[trigger] probes@[k],
        decreases probes@.len() - j,
    {
        if probes[j] {
            proof {
                lemma_first_from_at(probes@, |b: bool| b, 0, j as int);
            }
            return Some(candidates[j / 2].clone());
        }
        j = j + 1;
    }
    proof {
        lemma_first_from_none(probes@, |b: bool| b, 0);
    }
    None
}

/// Every candidate ends in a `steamapps` component.
proof fn lemma_candidates_name_steamapps(resolved: Seq<char>, ancestors: Seq<Seq<char>>)
    ensures
        forall|i: int| 0 <= i < library_candidates(resolved, ancestors).len()
            ==> names_steamapps(#[trigger] library_candidates(resolved, ancestors)[i]),
{
    reveal_strlit("steamapps");
    lemma_prefixes_name_steamapps(resolved, resolved.len() as int);
    let p = steamapps_prefixes(resolved, resolved.len() as int);
    let c = library_candidates(resolved, ancestors);
    assert forall|i: int| 0 <= i < c.len() implies names_steamapps(#[trigger] c[i]) by {
        if i >= p.len() {
            let m = c[i];
            assert(m == spec_join(ancestors[i - p.len()], STEAMAPPS@));
            assert(m.subrange(m.len() - 9, m.len() as int) =~= STEAMAPPS@);
            assert(eq_ignore_case(STEAMAPPS@, STEAMAPPS@));
        }
    }
}

/// Every `steamapps` prefix ends in a `steamapps` component.
proof fn lemma_prefixes_name_steamapps(s: Seq<char>, n: int)
    ensures
        forall|i: int| 0 <= i < steamapps_prefixes(s, n).len() ==> names_steamapps(#[trigger] steamapps_prefixes(s, n)[i]),
    decreases n,
{
    reveal_strlit("steamapps");
    if n > 0 {
        lemma_prefixes_name_steamapps(s, n - 1);
        if steamapps_at(s, n - 1) {
            let k = n - 1;
            crate::text::lemma_first_from(s, sep(), k);
            let e = comp_end(s, k);
            let m = s.subrange(0, e);
            assert(k <= e);
            assert(e - k == 9);
            assert(m.subrange(m.len() - 9, m.len() as int) =~= s.subrange(k, e));
            if k > 0 {
                assert(m[m.len() - 10] == s[k - 1]);
            }
            assert(names_steamapps(m));
            let all = steamapps_prefixes(s, n);
            assert(all[all.len() - 1] == m);
            assert forall|i: int| 0 <= i < all.len() implies names_steamapps(#[trigger] all[i]) by {
                if i < all.len() - 1 {
                    assert(all[i] == steamapps_prefixes(s, n - 1)[i]);
                }
            }
        } else {
            assert(steamapps_prefixes(s, n) == steamapps_prefixes(s, n - 1));
        }
    }
}

/// Whether `marker` is what the library lookup can come to for `resolved`:
/// the content-tree marker when there is one; otherwise the candidate whose
/// marker is the first probe to hold, for some chain of ancestors and some
/// probe results, which are the filesystem's to say. A marker found always
/// ends in a `steamapps` component.
pub open spec fn lookup_result(resolved: Seq<char>, marker: Option<Seq<char>>) -> bool {
    &&& spec_content_tree(resolved) matches Some(m) ==> marker == Some(m)
    &&& spec_content_tree(resolved) is None ==> exists|ancestors: Seq<Seq<char>>, probes: Seq<bool>|
        ancestry(resolved, ancestors) && probed(library_candidates(resolved, ancestors), probes) && marker
            == first_hit(library_candidates(resolved, ancestors), probes)
    &&& marker matches Some(m) ==> names_steamapps(m)
}

/// Whether `r` is what refusing `path` for `purpose` comes to, given what the
/// path was made absolute as, what it resolved to and what the lookup found:
/// a path whose absolute form enters a content tree is judged as it is, and
/// the result is the refusal exactly when a library was found.
pub open spec fn library_outcome(
    path: Seq<char>,
    purpose: Seq<char>,
    absolute: Seq<char>,
    resolved: Seq<char>,
    marker: Option<Seq<char>>,
    r: Result<(), String>,
) -> bool {
    &&& spec_content_tree(absolute) is Some ==> resolved == absolute
    &&& lookup_result(resolved, marker)
    &&& match marker {
        Some(m) => r matches Err(msg) && msg@ == refusal_text(path, purpose, resolved, m),
        None => r is Ok,
    }
}

/// The Steam library covering `resolved`, if there is one.
///
/// Two shapes count. A `steamapps` component followed by `common` means the
/// path sits inside a library's content tree, which holds with no filesystem
/// behind the path. Otherwise a `steamapps` directory holding `common` or
/// `libraryfolders.vdf` means the same thing, looked for first at each prefix
/// of the path that ends in a `steamapps` component, then under each ancestor,
/// which catches a library root named directly. Which markers exist is the
/// filesystem's to say; the lookup is [`marker_from_probes`] over what the
/// probes came back with.
pub fn library_marker(resolved: &str) -> (r: Option<String>)
    ensures
        lookup_result(resolved@, opt_text(r)),
{
    if let Some(marker) = content_tree(resolved) {
        proof {
            lemma_content_tree_names_steamapps(resolved@);
        }
        return Some(marker);
    }
    let ancestors = ancestors_of(resolved);
    let candidates = library_candidates_of(resolved, ancestors.as_slice());
    let probes = probe_candidates(candidates.as_slice());
    let r = marker_from_probes(resolved, ancestors.as_slice(), probes.as_slice());
    proof {
        let c = library_candidates(resolved@, paths_view(ancestors@));
        lemma_candidates_name_steamapps(resolved@, paths_view(ancestors@));
        lemma_first_from(probes@, |b: bool| b, 0);
        if let Some(j) = first_from(probes@, |b: bool| b, 0) {
            assert(names_steamapps(c[j / 2]));
        }
    }
    r
}

/// What the content-tree rule finds ends in a `steamapps` component.
proof fn lemma_content_tree_names_steamapps(s: Seq<char>)
    requires
        spec_content_tree(s) is Some,
    ensures
        names_steamapps(spec_content_tree(s)->0),
{
    reveal_strlit("steamapps");
    let idx = Seq::new(s.len(), |k: int| k);
    let p = |k: int| enters_content_tree(s, k);
    crate::text::lemma_first_from(idx, p, 0);
    let k = first_from(idx, p, 0)->0;
    assert(p(idx[k]));
    let e = comp_end(s, k);
    crate::text::lemma_first_from(s, sep(), k);
    let m = s.subrange(0, e);
    assert(m.subrange(m.len() - 9, m.len() as int) =~= s.subrange(k, e));
}

/// Make `path` absolute and resolve every link along the part that exists.
///
/// A path naming a directory that is not there yet still resolves: the longest
/// existing prefix is canonicalized and the rest is appended, so a fetch target
/// under a junction is judged by where the junction points.
///
/// Which path comes out depends on the current directory and the filesystem.
/// Relative to what they said, it is exact: the absolute path when no prefix
/// canonicalized, else the canonical prefix with the names peeled off it put
/// back by [`rejoin`].
fn resolve(path: &str) -> (r: String)
    ensures
        path@.len() > 0 ==> r@.len() > 0,
        exists|absolute: Seq<char>, canonical: Option<Seq<char>>, tail: Seq<Seq<char>>|
            #[trigger] resolved_as(path@, absolute, canonical, tail, r@),
{
    let absolute = match absolute_path(path) {
        Some(a) => a,
        None => path.to_string(),
    };
    let mut head = absolute.clone();
    let mut tail: Vec<String> = Vec::new();
    loop
        invariant
            path@.len() > 0 ==> absolute@.len() > 0,
        decreases head@.len(),
    {
        if let Some(canonical) = canonical_path(head.as_str()) {
            let out = rejoin(canonical.as_str(), tail.as_slice());
            proof {
                lemma_rejoined_nonempty(canonical@, paths_view(tail@));
                assert(resolved_as(path@, absolute@, Some(canonical@), paths_view(tail@), out@));
            }
            return out;
        }
        match (path_parent(head.as_str()), path_file_name(head.as_str())) {
            (Some(parent), Some(name)) => {
                tail.push(name);
                head = parent;
            },
            _ => {
                assert(resolved_as(path@, absolute@, None, Seq::empty(), absolute@));
                return absolute;
            },
        }
    }
}

/// Whether `r` is what resolving `path` gives when it was made absolute as
/// `absolute`, and the first prefix to canonicalize did so as `canonical` with
/// `tail` peeled off it: that prefix with the names put back, or the absolute
/// path when no prefix canonicalized.
pub open spec fn resolved_as(
    path: Seq<char>,
    absolute: Seq<char>,
    canonical: Option<Seq<char>>,
    tail: Seq<Seq<char>>,
    r: Seq<char>,
) -> bool {
    &&& path.len() > 0 ==> absolute.len() > 0
    &&& match canonical {
        Some(c) => c.len() > 0 && r == rejoined(c, tail),
        None => r == absolute,
    }
}

/// A canonical prefix with the names peeled off the path put back, the last
/// one peeled first.
pub open spec fn rejoined(canonical: Seq<char>, tail: Seq<Seq<char>>) -> Seq<char>
    decreases tail.len(),
{
    if tail.len() == 0 {
        canonical
    } else {
        spec_join(rejoined(canonical, tail.drop_first()), tail[0])
    }
}

/// Put the names peeled off a path back onto its canonical prefix.
pub fn rejoin(canonical: &str, tail: &[String]) -> (out: String)
    ensures
        out@ == rejoined(canonical@, paths_view(tail@)),
{
    let ghost t = paths_view(tail@);
    let mut out = canonical.to_string();
    let mut i = tail.len();
    proof {
        assert(t.subrange(i as int, t.len() as int) =~= Seq::<Seq<char>>::empty());
    }
    while i > 0
        invariant
            i <= tail@.len(),
            t == paths_view(tail@),
            out@ == rejoined(canonical@, t.subrange(i as int, t.len() as int)),
        decreases i,
    {
        i = i - 1;
        out = join(out.as_str(), tail[i].as_str());
        proof {
            let rest = t.subrange(i as int, t.len() as int);
            assert(rest.drop_first() =~= t.subrange(i + 1, t.len() as int));
            assert(rest[0] == tail@[i as int]@);
        }
    }
    proof {
        assert(t.subrange(0, t.len() as int) =~= t);
    }
    out
}

/// Putting names back onto a canonical prefix that names something names
/// something.
proof fn lemma_rejoined_nonempty(canonical: Seq<char>, tail: Seq<Seq<char>>)
    requires
        canonical.len() > 0,
    ensures
        rejoined(canonical, tail).len() > 0,
    decreases tail.len(),
{
    if tail.len() > 0 {
        lemma_rejoined_nonempty(canonical, tail.drop_first());
    }
}

/// The refusal for a path that resolves inside a Steam library.
pub open spec fn refusal_text(path: Seq<char>, purpose: Seq<char>, resolved: Seq<char>, marker: Seq<char>) -> Seq<
    char,
> {
    "refusing to use "@ + path + " as "@ + purpose + ": it resolves to "@ + resolved
        + ", which is inside the Steam library at "@ + marker + ".\n"@
        + "A Steam install is read-only reference, never written to, launched or injected into. "@
        + "Fetch a server with `cargo xtask server fetch` and work in that copy."@
}

/// The refusal for a path that resolves inside a Steam library.
pub fn refusal(path: &str, purpose: &str, resolved: &str, marker: &str) -> (out: String)
    ensures
        out@ == refusal_text(path@, purpose@, resolved@, marker@),
{
    let mut out = String::new();
    push_str(&mut out, "refusing to use ");
    push_str(&mut out, path);
    push_str(&mut out, " as ");
    push_str(&mut out, purpose);
    push_str(&mut out, ": it resolves to ");
    push_str(&mut out, resolved);
    push_str(&mut out, ", which is inside the Steam library at ");
    push_str(&mut out, marker);
    push_str(&mut out, ".\n");
    push_str(&mut out, "A Steam install is read-only reference, never written to, launched or injected into. ");
    push_str(&mut out, "Fetch a server with `cargo xtask server fetch` and work in that copy.");
    out
}

/// Refuse `path` when it resolves inside a Steam library.
///
/// # Errors
///
/// Returns the refusal naming the path, the Steam library that matched, and
/// why the refusal exists.
pub fn ensure_outside_library(path: &str, purpose: &str) -> (r: Result<(), String>)
    ensures
        plainly_in_content_tree(path@) ==> r is Err,
        exists|absolute: Seq<char>, resolved: Seq<char>, marker: Option<Seq<char>>|
            library_outcome(path@, purpose@, absolute, resolved, marker, r),
{
    // The `steamapps/common` pair settles it with no filesystem behind the
    // path, which is what keeps a refusal off the network when the path is a
    // UNC share that is not reachable.
    let absolute = match absolute_path(path) {
        Some(a) => a,
        None => path.to_string(),
    };
    let resolved = match content_tree(absolute.as_str()) {
        Some(_) => absolute,
        None => resolve(path),
    };
    let found = library_marker(resolved.as_str());
    let r = match &found {
        Some(marker) => library_verdict(path, purpose, resolved.as_str(), Some(marker.as_str())),
        None => library_verdict(path, purpose, resolved.as_str(), None),
    };
    assert(library_outcome(path@, purpose@, absolute@, resolved@, opt_text(found), r));
    r
}

/// What the library lookup comes to: a refusal naming the path, what it
/// resolved to and the library found, or nothing to object to when no library
/// was found.
pub fn library_verdict(path: &str, purpose: &str, resolved: &str, marker: Option<&str>) -> (r: Result<(), String>)
    ensures
        match marker {
            Some(m) => r matches Err(msg) && msg@ == refusal_text(path@, purpose@, resolved@, m@),
            None => r is Ok,
        },
{
    match marker {
        Some(m) => Err(refusal(path, purpose, resolved, m)),
        None => Ok(()),
    }
}

} // verus!
