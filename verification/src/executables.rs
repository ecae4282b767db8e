//! Executables found on the search path and in local directories: which
//! names are skipped, the version a project declares or a binary embeds, and
//! how a program outside the package manager is classified.
use crate::models::{InstallOrigin, ProgramState};
use crate::paths::{eq_ignore_ascii_case, eq_ignore_case, file_name, opt_string_view, parent, path_file_name, path_parent, path_prefix, path_starts_with};
use crate::text::{chars_eq, chars_of, contains, contains_lit, ends_lit, ends_with, is_lit, lines, lines_of, split_char, split_once, split_once_chars, starts_lit, starts_with, string_of, strip_prefix, strip_suffix, trim, trim_chars, views};
use vstd::prelude::*;
use vstd::string::StringSliceAdditionalSpecFns;

verus! {

/// Names of files that are documentation or data, never programs.
pub open spec fn skipped_name(name: Seq<char>) -> bool {
    ||| ends_with(name, ".md"@)
    ||| ends_with(name, ".txt"@)
    ||| ends_with(name, ".json"@)
    ||| ends_with(name, ".yaml"@)
    ||| ends_with(name, ".yml"@)
    ||| ends_with(name, ".toml"@)
    ||| ends_with(name, ".bak"@)
    ||| ends_with(name, ".log"@)
    ||| ends_with(name, ".lock"@)
    ||| ends_with(name, ".desktop"@)
}

pub fn should_skip(name: &str) -> (r: bool)
    ensures
        r == skipped_name(name@),
{
    let n = chars_of(name);
    ends_lit(&n, ".md") || ends_lit(&n, ".txt") || ends_lit(&n, ".json") || ends_lit(&n, ".yaml")
        || ends_lit(&n, ".yml") || ends_lit(&n, ".toml") || ends_lit(&n, ".bak") || ends_lit(&n, ".log")
        || ends_lit(&n, ".lock") || ends_lit(&n, ".desktop")
}

/// What `Path::new(base).join(rel)` gives, as a string.
pub uninterp spec fn path_joined(base: Seq<char>, rel: Seq<char>) -> Seq<char>;

/// Whether `Path::new(a) == Path::new(b)`: the same components.
pub uninterp spec fn same_path(a: Seq<char>, b: Seq<char>) -> bool;

/// `Path::new(base).join(rel)` as a string.
#[verifier::external_body]
pub fn join_path(base: &str, rel: &str) -> (r: String)
    ensures
        r@ == path_joined(base@, rel@),
{
    std::path::Path::new(base).join(rel).to_string_lossy().to_string()
}

/// `Path::new(a) == Path::new(b)`.
#[verifier::external_body]
pub fn paths_equal(a: &str, b: &str) -> (r: bool)
    ensures
        r == same_path(a@, b@),
{
    std::path::Path::new(a) == std::path::Path::new(b)
}

/// The helper scripts that build systems leave at the top of a project.
pub open spec fn build_helper(name: Seq<char>) -> bool {
    ||| name == "autogen.sh"@
    ||| name == "compile"@
    ||| name == "config.guess"@
    ||| name == "config.status"@
    ||| name == "config.sub"@
    ||| name == "configure"@
    ||| name == "depcomp"@
    ||| name == "install-sh"@
    ||| name == "ltmain.sh"@
    ||| name == "missing"@
    ||| name == "test-driver"@
    ||| name == "ylwrap"@
}

fn is_build_helper(name: &[char]) -> (r: bool)
    ensures
        r == build_helper(name@),
{
    is_lit(name, "autogen.sh") || is_lit(name, "compile") || is_lit(name, "config.guess")
        || is_lit(name, "config.status") || is_lit(name, "config.sub") || is_lit(name, "configure")
        || is_lit(name, "depcomp") || is_lit(name, "install-sh") || is_lit(name, "ltmain.sh")
        || is_lit(name, "missing") || is_lit(name, "test-driver") || is_lit(name, "ylwrap")
}

/// A build helper at the top of a project under `~/Dev` or `~/repos`.
pub open spec fn skipped_helper(directory: Seq<char>, name: Seq<char>, home: Seq<char>) -> bool {
    match path_parent(directory) {
        Some(p) => (same_path(p, path_joined(home, "Dev"@)) || same_path(p, path_joined(home, "repos"@))) && build_helper(name),
        None => false,
    }
}

pub fn should_skip_workspace_support_executable(directory: &str, name: &str, home: &str) -> (r: bool)
    ensures
        r == skipped_helper(directory@, name@, home@),
{
    let p = match parent(directory) {
        Some(p) => p,
        None => return false,
    };
    let dev = join_path(home, "Dev");
    let repos = join_path(home, "repos");
    let is_project_root = paths_equal(p.as_str(), dev.as_str()) || paths_equal(p.as_str(), repos.as_str());
    let n = chars_of(name);
    is_project_root && is_build_helper(&n)
}

/// Where a link in `directory` to `target` points.
pub open spec fn target_path(directory: Seq<char>, target: Seq<char>) -> Seq<char> {
    if starts_with(target, "/"@) { target } else { path_joined(directory, target) }
}

pub fn resolved_target(directory: &str, target: &str) -> (r: String)
    ensures
        r@ == target_path(directory@, target@),
{
    let t = chars_of(target);
    if starts_lit(&t, "/") {
        string_of(&t)
    } else {
        join_path(directory, target)
    }
}

/// The quoted text of a value: between double or single quotes.
pub open spec fn unquoted(value: Seq<char>) -> Option<Seq<char>> {
    match strip_prefix(value, "\""@) {
        Some(v) => match strip_suffix(v, "\""@) {
            Some(w) => Some(w),
            None => match strip_prefix(value, "'"@) {
                Some(v2) => strip_suffix(v2, "'"@),
                None => None,
            },
        },
        None => match strip_prefix(value, "'"@) {
            Some(v2) => strip_suffix(v2, "'"@),
            None => None,
        },
    }
}

/// Reading a manifest line by line: whether the wanted section is open, and
/// the version found (`None` while none is found, `Some(None)` when a bad
/// `version` line ends the search).
pub open spec fn manifest_step(st: (bool, Option<Option<Seq<char>>>), raw: Seq<char>, section: Seq<char>) -> (bool, Option<Option<Seq<char>>>) {
    let line = trim(raw);
    if st.1 is Some {
        st
    } else if line.len() > 0 && line[0] == '\x5b' {
        (line == section, st.1)
    } else if !st.0 {
        st
    } else {
        match split_once(line, '=') {
            Some(kv) => if trim(kv.0) != "version"@ {
                st
            } else {
                match unquoted(trim(kv.1)) {
                    Some(v) => if v.len() > 0 { (st.0, Some(Some(v))) } else { st },
                    None => (st.0, Some(None)),
                }
            },
            None => st,
        }
    }
}

pub open spec fn manifest_scan(ls: Seq<Seq<char>>, section: Seq<char>) -> (bool, Option<Option<Seq<char>>>)
    decreases ls.len(),
{
    if ls.len() == 0 {
        (false, None)
    } else {
        manifest_step(manifest_scan(ls.drop_last(), section), ls.last(), section)
    }
}

/// The version a project manifest declares in `section`: the first quoted,
/// non-empty `version = "..."` of that section (an unquoted one ends the search).
pub open spec fn declared_version(contents: Seq<char>, section: Seq<char>) -> Option<Seq<char>> {
    match manifest_scan(lines_of(contents), section).1 {
        Some(v) => v,
        None => None,
    }
}

fn unquoted_chars(value: &[char]) -> (r: Option<Vec<char>>)
    ensures
        r matches Some(v) ==> unquoted(value@) == Some(v@),
        r is None ==> unquoted(value@) is None,
{
    let dq = chars_of("\"");
    let sq = chars_of("'");
    match crate::text::strip_prefix_chars(value, &dq) {
        Some(v) => match crate::text::strip_suffix_chars(&v, &dq) {
            Some(w) => return Some(w),
            None => {},
        },
        None => {},
    }
    match crate::text::strip_prefix_chars(value, &sq) {
        Some(v2) => crate::text::strip_suffix_chars(&v2, &sq),
        None => None,
    }
}

pub fn manifest_version(contents: &str, section: &str) -> (r: Option<String>)
    ensures
        opt_string_view(r) == declared_version(contents@, section@),
{
    let text = chars_of(contents);
    let sec = chars_of(section);
    let ls = lines(&text);
    let ghost lv = views(ls@);
    let mut in_section = false;
    let mut i: usize = 0;
    while i < ls.len()
        invariant
            lv == views(ls@),
            lv == lines_of(contents@),
            sec@ == section@,
            i <= ls@.len(),
            manifest_scan(lv.subrange(0, i as int), section@) == (in_section, None::<Option<Seq<char>>>),
        decreases ls@.len() - i,
    {
        proof {
            assert(lv.subrange(0, i + 1).drop_last() =~= lv.subrange(0, i as int));
            assert(lv.subrange(0, i + 1).last() == ls@[i as int]@);
        }
        let line = trim_chars(&ls[i]);
        if line.len() > 0 && line[0] == '\x5b' {
            in_section = chars_eq(&line, &sec);
        } else if in_section {
            match split_once_chars(&line, '=') {
                Some((key, value)) => {
                    let k = trim_chars(&key);
                    if is_lit(&k, "version") {
                        let v = trim_chars(&value);
                        match unquoted_chars(&v) {
                            Some(q) => {
                                if q.len() > 0 {
                                    proof {
                                        lemma_manifest_settled(lv, section@, i as int + 1);
                                    }
                                    return Some(string_of(&q));
                                }
                            },
                            None => {
                                proof {
                                    lemma_manifest_settled(lv, section@, i as int + 1);
                                }
                                return None;
                            },
                        }
                    }
                },
                None => {},
            }
        }
        i += 1;
    }
    proof {
        assert(lv.subrange(0, ls@.len() as int) =~= lv);
    }
    None
}

/// Once the search has ended, later lines change nothing.
proof fn lemma_manifest_settled(lv: Seq<Seq<char>>, section: Seq<char>, k: int)
    requires
        0 <= k <= lv.len(),
        manifest_scan(lv.subrange(0, k), section).1 is Some,
    ensures
        manifest_scan(lv, section) == manifest_scan(lv.subrange(0, k), section),
    decreases lv.len() - k,
{
    if k < lv.len() {
        assert(lv.subrange(0, k + 1).drop_last() =~= lv.subrange(0, k));
        lemma_manifest_settled(lv, section, k + 1);
    } else {
        assert(lv.subrange(0, k) =~= lv);
    }
}

/// A byte that `strings` keeps: printable ASCII or a space.
pub open spec fn printable(b: u8) -> bool {
    0x20 <= b <= 0x7e
}

pub open spec fn ascii_text(bytes: Seq<u8>) -> Seq<char> {
    bytes.map_values(|b: u8| b as char)
}

/// The runs of printable bytes seen so far and the run being read.
pub open spec fn runs_scan(bytes: Seq<u8>) -> (Seq<Seq<char>>, Seq<u8>)
    decreases bytes.len(),
{
    if bytes.len() == 0 {
        (Seq::empty(), Seq::empty())
    } else {
        let (done, current) = runs_scan(bytes.drop_last());
        let b = bytes.last();
        if printable(b) {
            (done, current.push(b))
        } else if current.len() >= 4 {
            (done.push(ascii_text(current)), Seq::empty())
        } else {
            (done, Seq::empty())
        }
    }
}

/// The runs of at least four printable characters in `bytes`, in order.
pub open spec fn printable_runs(bytes: Seq<u8>) -> Seq<Seq<char>> {
    let (done, current) = runs_scan(bytes);
    if current.len() >= 4 { done.push(ascii_text(current)) } else { done }
}

fn ascii_string(bytes: &Vec<u8>) -> (s: String)
    requires
        forall|i: int| 0 <= i < bytes@.len() ==> printable(#[trigger] bytes@[i]),
    ensures
        s@ == ascii_text(bytes@),
{
    let mut cs: Vec<char> = Vec::new();
    let mut i: usize = 0;
    while i < bytes.len()
        invariant
            i <= bytes@.len(),
            cs@ == ascii_text(bytes@.subrange(0, i as int)),
        decreases bytes@.len() - i,
    {
        cs.push(bytes[i] as char);
        i += 1;
        proof {
            assert(cs@ =~= ascii_text(bytes@.subrange(0, i as int)));
        }
    }
    proof {
        assert(bytes@.subrange(0, bytes@.len() as int) =~= bytes@);
    }
    string_of(&cs)
}

/// The printable strings of a binary: runs of at least four printable ASCII
/// characters or spaces.
pub fn printable_strings(bytes: &[u8]) -> (r: Vec<String>)
    ensures
        crate::names::name_views(r@) == printable_runs(bytes@),
{
    let mut strings: Vec<String> = Vec::new();
    let mut current: Vec<u8> = Vec::new();
    let mut i: usize = 0;
    while i < bytes.len()
        invariant
            i <= bytes@.len(),
            (crate::names::name_views(strings@), current@) == runs_scan(bytes@.subrange(0, i as int)),
            forall|k: int| 0 <= k < current@.len() ==> printable(#[trigger] current@[k]),
        decreases bytes@.len() - i,
    {
        proof {
            assert(bytes@.subrange(0, i + 1).drop_last() =~= bytes@.subrange(0, i as int));
        }
        let b = bytes[i];
        if 0x20 <= b && b <= 0x7e {
            current.push(b);
        } else {
            if current.len() >= 4 {
                let ghost before = crate::names::name_views(strings@);
                strings.push(ascii_string(&current));
                proof {
                    assert(crate::names::name_views(strings@) =~= before.push(ascii_text(current@)));
                }
            }
            current = Vec::new();
        }
        i += 1;
    }
    proof {
        assert(bytes@.subrange(0, bytes@.len() as int) =~= bytes@);
    }
    if current.len() >= 4 {
        let ghost before = crate::names::name_views(strings@);
        strings.push(ascii_string(&current));
        proof {
            assert(crate::names::name_views(strings@) =~= before.push(ascii_text(current@)));
        }
    }
    strings
}

/// The successive non-overlapping matches of the regular expression
/// `pattern` in `text` (none when the pattern does not compile): the byte
/// offsets where each starts and ends, and its text.
pub uninterp spec fn pattern_matches(pattern: Seq<char>, text: Seq<char>) -> Seq<(usize, usize, Seq<char>)>;

pub open spec fn match_views(v: Seq<(usize, usize, String)>) -> Seq<(usize, usize, Seq<char>)> {
    v.map_values(|m: (usize, usize, String)| (m.0, m.1, m.2@))
}

/// `regex::Regex::new(pattern)` and `find_iter(text)`: each match's start,
/// end and text; the crate guarantees `start <= end` within the text.
#[verifier::external_body]
fn find_matches(pattern: &str, text: &str) -> (r: Vec<(usize, usize, String)>)
    ensures
        match_views(r@) == pattern_matches(pattern@, text@),
        forall|k: int| 0 <= k < r@.len() ==> (#[trigger] r@[k]).0 <= r@[k].1 <= text.spec_bytes().len(),
{
    match regex::Regex::new(pattern) {
        Ok(re) => re.find_iter(text).map(|m| (m.start(), m.end(), m.as_str().to_string())).collect(),
        Err(_) => Vec::new(),
    }
}

/// A version number as it appears in a binary: two or three dot-separated
/// numbers, possibly after a `v`, standing alone.
pub open spec fn version_pattern() -> Seq<char> {
    "\\b(?:v)?\\d+\\.\\d+(?:\\.\\d+)?\\b"@
}

/// Every component is `0`.
pub open spec fn all_zero(version: Seq<char>) -> bool {
    forall|i: int| 0 <= i < split_char(version, '.').len() ==> #[trigger] split_char(version, '.')[i] == seq!['0']
}

/// The version a match stands for, unless it is part of a longer dotted
/// number (an address) or all zeros.
pub open spec fn candidate(bytes: Seq<u8>, m: (usize, usize, Seq<char>)) -> Option<Seq<char>> {
    if (m.0 > 0 && bytes[m.0 - 1] == 46u8) || (m.1 < bytes.len() && bytes[m.1 as int] == 46u8) {
        None
    } else {
        let v = crate::cargo::strip_leading(m.2, 'v');
        if all_zero(v) { None } else { Some(v) }
    }
}

pub open spec fn candidates_of(bytes: Seq<u8>, ms: Seq<(usize, usize, Seq<char>)>) -> Seq<Seq<char>>
    decreases ms.len(),
{
    if ms.len() == 0 {
        Seq::empty()
    } else {
        crate::capabilities::push_some(candidates_of(bytes, ms.drop_last()), candidate(bytes, ms.last()))
    }
}

/// The version numbers embedded in a printable string.
pub open spec fn version_candidates(value: Seq<char>) -> Seq<Seq<char>> {
    candidates_of(vstd::utf8::encode_utf8(value), pattern_matches(version_pattern(), value))
}

fn strip_leading_v(s: &[char]) -> (r: Vec<char>)
    ensures
        r@ == crate::cargo::strip_leading(s@, 'v'),
{
    let mut a: usize = 0;
    proof {
        assert(s@.subrange(0, s@.len() as int) =~= s@);
    }
    while a < s.len() && s[a] == 'v'
        invariant
            a <= s@.len(),
            crate::cargo::strip_leading(s@.subrange(a as int, s@.len() as int), 'v') == crate::cargo::strip_leading(s@, 'v'),
        decreases s@.len() - a,
    {
        proof {
            let t = s@.subrange(a as int, s@.len() as int);
            assert(t.subrange(1, t.len() as int) =~= s@.subrange(a + 1, s@.len() as int));
        }
        a += 1;
    }
    crate::text::slice_vec(s, a, s.len())
}

fn is_all_zero(v: &[char]) -> (r: bool)
    ensures
        r == all_zero(v@),
{
    let parts = crate::text::split_chars(v, '.');
    let zero = ['0'];
    let mut k: usize = 0;
    while k < parts.len()
        invariant
            views(parts@) == split_char(v@, '.'),
            zero@ == seq!['0'],
            k <= parts@.len(),
            forall|j: int| 0 <= j < k ==> #[trigger] split_char(v@, '.')[j] == seq!['0'],
        decreases parts@.len() - k,
    {
        proof {
            assert(views(parts@)[k as int] == parts@[k as int]@);
        }
        if !chars_eq(&parts[k], &zero) {
            return false;
        }
        k += 1;
    }
    true
}

/// The versions that the matches `ms` of the version pattern in `value`
/// stand for, in order: a match that is part of a longer dotted number
/// (such as an address) is dropped, a leading `v` is removed, and all-zero
/// versions are dropped.
pub fn candidates_from_matches(value: &str, ms: &Vec<(usize, usize, String)>) -> (r: Vec<String>)
    requires
        forall|j: int| 0 <= j < ms@.len() ==> (#[trigger] ms@[j]).0 <= ms@[j].1 <= value.spec_bytes().len(),
    ensures
        crate::names::name_views(r@) == candidates_of(value.spec_bytes(), match_views(ms@)),
{
    let bytes = value.as_bytes();
    let ghost mv = match_views(ms@);
    let mut r: Vec<String> = Vec::new();
    let mut k: usize = 0;
    while k < ms.len()
        invariant
            mv == match_views(ms@),
            bytes@ == value.spec_bytes(),
            forall|j: int| 0 <= j < ms@.len() ==> (#[trigger] ms@[j]).0 <= ms@[j].1 <= value.spec_bytes().len(),
            k <= ms@.len(),
            crate::names::name_views(r@) == candidates_of(bytes@, mv.subrange(0, k as int)),
        decreases ms@.len() - k,
    {
        proof {
            assert(mv.subrange(0, k + 1).drop_last() =~= mv.subrange(0, k as int));
            assert(mv.subrange(0, k + 1).last() == mv[k as int]);
        }
        let (start, end, ref text) = ms[k];
        let bl = bytes.len();
        let dotted = (start > 0 && bytes[start - 1] == 46u8) || (end < bl && bytes[end] == 46u8);
        if !dotted {
            let t = chars_of(text.as_str());
            let v = strip_leading_v(&t);
            if !is_all_zero(&v) {
                let ghost before = crate::names::name_views(r@);
                r.push(string_of(&v));
                proof {
                    assert(crate::names::name_views(r@) =~= before.push(v@));
                }
            }
        }
        k += 1;
    }
    proof {
        assert(mv.subrange(0, ms@.len() as int) =~= mv);
    }
    r
}

/// The version numbers embedded in a printable string, without the ones that
/// belong to longer dotted numbers (such as addresses) and all-zero ones.
pub fn embedded_version_candidates(value: &str) -> (r: Vec<String>)
    ensures
        crate::names::name_views(r@) == version_candidates(value@),
{
    let pattern = "\\b(?:v)?\\d+\\.\\d+(?:\\.\\d+)?\\b";
    let ms = find_matches(pattern, value);
    candidates_from_matches(value, &ms)
}

/// A candidate near the program's name is confirmed by a version found in
/// the very string that names the program (equal, or extending it).
pub open spec fn corroborates(identity_versions: Seq<Seq<char>>, v: Seq<char>) -> bool {
    exists|j: int| 0 <= j < identity_versions.len() && (v == #[trigger] identity_versions[j] || starts_with(v, identity_versions[j].push('.')))
}

/// How likely a candidate is the program's version: more components, a
/// confirmation, nearness to the name, and following it all count.
pub open spec fn version_score(v: Seq<char>, distance: int, after: bool, corroborated: bool) -> int {
    split_char(v, '.').len() * 100 + (if corroborated { 1000int } else { 0int }) - distance * 10 + (if after { 1int } else { 0int })
}

pub open spec fn abs_diff(a: int, b: int) -> int {
    if a >= b { a - b } else { b - a }
}

/// The scored candidates of the strings `ci..end` around the string `index`.
pub open spec fn window_entries(strings: Seq<Seq<char>>, index: int, ivs: Seq<Seq<char>>, ci: int, end: int) -> Seq<(int, Seq<char>)>
    decreases end - ci,
{
    if ci >= end || ci < 0 || ci >= strings.len() {
        Seq::empty()
    } else {
        version_candidates(strings[ci]).map_values(|v: Seq<char>| (version_score(v, abs_diff(ci, index), ci >= index, corroborates(ivs, v)), v))
            + window_entries(strings, index, ivs, ci + 1, end)
    }
}

/// The scored candidates around the string `index`, when it names the program.
pub open spec fn entries_at(strings: Seq<Seq<char>>, identity: Seq<char>, index: int) -> Seq<(int, Seq<char>)> {
    if !contains(crate::paths::lowercase(strings[index]), identity) {
        Seq::empty()
    } else {
        let start = if index >= 3 { index - 3 } else { 0 };
        let end = if index + 4 <= strings.len() { index + 4 } else { strings.len() as int };
        window_entries(strings, index, version_candidates(strings[index]), start, end)
    }
}

pub open spec fn all_entries(strings: Seq<Seq<char>>, identity: Seq<char>, n: int) -> Seq<(int, Seq<char>)>
    decreases n,
{
    if n <= 0 || n > strings.len() { Seq::empty() } else { all_entries(strings, identity, n - 1) + entries_at(strings, identity, n - 1) }
}

/// The first entry with the highest score.
pub open spec fn first_best(entries: Seq<(int, Seq<char>)>) -> Option<(int, Seq<char>)>
    decreases entries.len(),
{
    if entries.len() == 0 {
        None
    } else {
        let b = first_best(entries.drop_last());
        let e = entries.last();
        match b {
            Some(bb) => if e.0 > bb.0 { Some(e) } else { b },
            None => Some(e),
        }
    }
}

/// The version of a program read from the strings of its binary: among the
/// version numbers in and around (three strings either side) each string
/// that names the program (`identity`, compared in lower case), the first
/// with the highest score.
pub open spec fn identity_version(strings: Seq<Seq<char>>, identity: Seq<char>) -> Option<Seq<char>> {
    let id = crate::paths::lowercase(identity);
    if id.len() == 0 {
        None
    } else {
        match first_best(all_entries(strings, id, strings.len() as int)) {
            Some(e) => Some(e.1),
            None => None,
        }
    }
}

fn corroborated_by(ivs: &Vec<String>, v: &[char]) -> (r: bool)
    ensures
        r == corroborates(crate::names::name_views(ivs@), v@),
{
    let ghost iv = crate::names::name_views(ivs@);
    let mut j: usize = 0;
    while j < ivs.len()
        invariant
            iv == crate::names::name_views(ivs@),
            j <= ivs@.len(),
            forall|i: int| 0 <= i < j ==> !(v@ == #[trigger] iv[i] || starts_with(v@, iv[i].push('.'))),
        decreases ivs@.len() - j,
    {
        let w = chars_of(ivs[j].as_str());
        let mut wd = slice_all_chars(&w);
        wd.push('.');
        proof {
            assert(iv[j as int] == w@);
        }
        if chars_eq(v, &w) || crate::text::has_prefix(v, &wd) {
            return true;
        }
        j += 1;
    }
    false
}

fn slice_all_chars(v: &Vec<char>) -> (r: Vec<char>)
    ensures
        r@ == v@,
{
    let r = crate::text::slice_vec(v, 0, v.len());
    proof {
        assert(v@.subrange(0, v@.len() as int) =~= v@);
    }
    r
}

/// The best candidate so far: its score and version.
pub open spec fn best_view(b: Option<(u128, Vec<char>)>) -> Option<(int, Seq<char>)> {
    match b {
        Some(x) => Some((x.0 as int, x.1@)),
        None => None,
    }
}

/// Folds the scored candidates of string `ci` into the best so far.
fn consider_candidates(
    strings: &[String],
    index: usize,
    ci: usize,
    ivs: &Vec<String>,
    best: &mut Option<(u128, Vec<char>)>,
)
    requires
        ci < strings@.len(),
        index < strings@.len(),
        abs_diff(ci as int, index as int) <= 3,
    ensures
        best_view(*final(best)) == first_best_from(best_view(*old(best)), version_candidates(strings@[ci as int]@).map_values(|v: Seq<char>|
            (version_score(v, abs_diff(ci as int, index as int), ci >= index, corroborates(crate::names::name_views(ivs@), v)), v))),
{
    let cands = embedded_version_candidates(strings[ci].as_str());
    let ghost cv = crate::names::name_views(cands@);
    let ghost ivv = crate::names::name_views(ivs@);
    let distance: u128 = if ci >= index { (ci - index) as u128 } else { (index - ci) as u128 };
    let after: u128 = if ci >= index { 1 } else { 0 };
    let ghost scored = cv.map_values(|v: Seq<char>| (version_score(v, abs_diff(ci as int, index as int), ci >= index, corroborates(ivv, v)), v));
    let ghost start = best_view(*best);
    let mut k: usize = 0;
    while k < cands.len()
        invariant
            cv == crate::names::name_views(cands@),
            ivv == crate::names::name_views(ivs@),
            scored == cv.map_values(|v: Seq<char>| (version_score(v, abs_diff(ci as int, index as int), ci >= index, corroborates(ivv, v)), v)),
            distance as int == abs_diff(ci as int, index as int),
            distance <= 3,
            after as int == (if ci >= index { 1int } else { 0int }),
            k <= cands@.len(),
            best_view(*best) == first_best_from(start, scored.subrange(0, k as int)),
        decreases cands@.len() - k,
    {
        let v = chars_of(cands[k].as_str());
        let parts = crate::text::split_chars(&v, '.');
        let components = parts.len() as u128;
        let corroborated = corroborated_by(ivs, &v);
        let bonus: u128 = if corroborated { 1000 } else { 0 };
        proof {
            assert(views(parts@).len() == parts@.len());
            assert(cv[k as int] == v@);
        }
        let score: u128 = components * 100 + bonus - distance * 10 + after;
        proof {
            assert(score as int == version_score(v@, abs_diff(ci as int, index as int), ci >= index, corroborates(ivv, v@)));
            assert(scored.subrange(0, k + 1).drop_last() =~= scored.subrange(0, k as int));
            assert(scored.subrange(0, k + 1).last() == scored[k as int]);
        }
        let better = match best {
            Some(b) => score > b.0,
            None => true,
        };
        if better {
            *best = Some((score, v));
        }
        k += 1;
    }
    proof {
        assert(scored.subrange(0, cands@.len() as int) =~= scored);
    }
}

/// The best of `start` and the entries, the first highest score winning.
pub open spec fn first_best_from(start: Option<(int, Seq<char>)>, entries: Seq<(int, Seq<char>)>) -> Option<(int, Seq<char>)>
    decreases entries.len(),
{
    if entries.len() == 0 {
        start
    } else {
        let b = first_best_from(start, entries.drop_last());
        let e = entries.last();
        match b {
            Some(bb) => if e.0 > bb.0 { Some(e) } else { b },
            None => Some(e),
        }
    }
}

proof fn lemma_first_best_concat(start: Option<(int, Seq<char>)>, a: Seq<(int, Seq<char>)>, b: Seq<(int, Seq<char>)>)
    ensures
        first_best_from(start, a + b) == first_best_from(first_best_from(start, a), b),
    decreases b.len(),
{
    if b.len() == 0 {
        assert(a + b =~= a);
    } else {
        assert((a + b).drop_last() =~= a + b.drop_last());
        assert((a + b).last() == b.last());
        lemma_first_best_concat(start, a, b.drop_last());
    }
}

proof fn lemma_first_best_none(entries: Seq<(int, Seq<char>)>)
    ensures
        first_best_from(None, entries) == first_best(entries),
    decreases entries.len(),
{
    if entries.len() > 0 {
        lemma_first_best_none(entries.drop_last());
    }
}

/// The version of a program found among the printable strings of its binary.
pub fn version_from_identity_context(strings: &[String], identity: &str) -> (r: Option<String>)
    ensures
        opt_string_view(r) == identity_version(crate::names::name_views(strings@), identity@),
{
    let id_text = crate::paths::to_lowercase(identity);
    let id = chars_of(id_text.as_str());
    if id.len() == 0 {
        return None;
    }
    let ghost sv = crate::names::name_views(strings@);
    let n = strings.len();
    let mut best: Option<(u128, Vec<char>)> = None;
    let mut index: usize = 0;
    proof {
        lemma_first_best_none(all_entries(sv, id@, 0));
    }
    while index < n
        invariant
            sv == crate::names::name_views(strings@),
            n == strings@.len(),
            id@ == crate::paths::lowercase(identity@),
            index <= n,
            best_view(best) == first_best_from(None, all_entries(sv, id@, index as int)),
        decreases n - index,
    {
        let lower = crate::paths::to_lowercase(strings[index].as_str());
        let lc = chars_of(lower.as_str());
        proof {
            assert(sv[index as int] == strings@[index as int]@);
            lemma_first_best_concat(None, all_entries(sv, id@, index as int), entries_at(sv, id@, index as int));
        }
        if crate::text::has_seq(&lc, &id) {
            let ivs = embedded_version_candidates(strings[index].as_str());
            let start = if index >= 3 { index - 3 } else { 0 };
            let end = if n - index >= 4 { index + 4 } else { n };
            let ghost before = best_view(best);
            let mut ci = start;
            while ci < end
                invariant
                    sv == crate::names::name_views(strings@),
                    n == strings@.len(),
                    index < n,
                    start <= ci <= end,
                    end <= n,
                    start as int == (if index >= 3 { index - 3 } else { 0 }),
                    end as int == (if index + 4 <= n { index + 4 } else { n as int }),
                    crate::names::name_views(ivs@) == version_candidates(sv[index as int]),
                    first_best_from(before, window_entries(sv, index as int, version_candidates(sv[index as int]), start as int, end as int))
                        == first_best_from(best_view(best), window_entries(sv, index as int, version_candidates(sv[index as int]), ci as int, end as int)),
                decreases end - ci,
            {
                let ghost here = best_view(best);
                consider_candidates(strings, index, ci, &ivs, &mut best);
                proof {
                    let ivv = version_candidates(sv[index as int]);
                    let head = version_candidates(sv[ci as int]).map_values(|v: Seq<char>| (version_score(v, abs_diff(ci as int, index as int), ci >= index, corroborates(ivv, v)), v));
                    assert(sv[ci as int] == strings@[ci as int]@);
                    assert(window_entries(sv, index as int, ivv, ci as int, end as int) == head + window_entries(sv, index as int, ivv, ci + 1, end as int));
                    lemma_first_best_concat(here, head, window_entries(sv, index as int, ivv, ci + 1, end as int));
                }
                ci += 1;
            }
            proof {
                assert(entries_at(sv, id@, index as int) == window_entries(sv, index as int, version_candidates(sv[index as int]), start as int, end as int));
            }
        } else {
            proof {
                assert(entries_at(sv, id@, index as int) =~= Seq::<(int, Seq<char>)>::empty());
            }
        }
        index += 1;
    }
    proof {
        lemma_first_best_none(all_entries(sv, id@, n as int));
    }
    match best {
        Some((_, v)) => Some(string_of(&v)),
        None => None,
    }
}

/// An executable found outside the package manager.
pub struct CustomExecutable<'a> {
    pub path: &'a str,
    pub target: &'a str,
    pub is_symlink: bool,
    pub is_script: bool,
    pub is_broken: bool,
}

/// Where such an executable comes from and how it lives there.
#[derive(Clone, Copy, Debug)]
pub struct Classification {
    pub origin: InstallOrigin,
    pub state: ProgramState,
}

/// The path whose checkout decides a link's state: its target, or the file itself.
pub open spec fn git_target(path: Seq<char>, target: Seq<char>) -> Seq<char> {
    if target.len() == 0 { path } else { target }
}

pub open spec fn either_contains(a: Seq<char>, b: Seq<char>, p: Seq<char>) -> bool {
    contains(a, p) || contains(b, p)
}

/// The classification of an executable, from the first rule that applies:
/// broken links; npm, uv and Cargo installs; development trees; source
/// checkouts (`repo` is what the checkout showed); `/opt`; scripts;
/// binaries; anything else is unclassified.
pub open spec fn custom_class(path: Seq<char>, target: Seq<char>, is_symlink: bool, is_script: bool, is_broken: bool, repo: Option<ProgramState>) -> (InstallOrigin, ProgramState) {
    let g = git_target(path, target);
    if is_broken {
        (InstallOrigin::Local, ProgramState { broken: true, ..ProgramState::clear() })
    } else if either_contains(target, path, "node_modules"@) {
        (InstallOrigin::Npm, ProgramState::clear())
    } else if either_contains(target, path, "/.local/share/uv/"@) {
        (InstallOrigin::Uv, ProgramState::clear())
    } else if either_contains(target, path, "/.cargo/bin/"@) {
        (InstallOrigin::Cargo, ProgramState::clear())
    } else if either_contains(g, path, "/Dev/"@) || either_contains(g, path, "/dev/"@) {
        (InstallOrigin::Local, ProgramState { dev: true, ..ProgramState::clear() })
    } else if either_contains(g, path, "/repos/"@) {
        (InstallOrigin::Local, match repo {
            Some(st) => st,
            None => ProgramState { unclassified: true, ..ProgramState::clear() },
        })
    } else if either_contains(target, path, "/opt/"@) {
        (InstallOrigin::Local, ProgramState { opt: true, ..ProgramState::clear() })
    } else if !is_symlink && is_script {
        (InstallOrigin::Local, ProgramState { script: true, ..ProgramState::clear() })
    } else if !is_symlink {
        (InstallOrigin::Local, ProgramState { binary: true, ..ProgramState::clear() })
    } else {
        (InstallOrigin::Local, ProgramState { unclassified: true, ..ProgramState::clear() })
    }
}

/// The checkout to inspect for an executable (its link target or path), when
/// its classification depends on one.
pub fn repo_to_inspect(executable: &CustomExecutable) -> (r: Option<String>)
    ensures
        r matches Some(g) ==> g@ == git_target(executable.path@, executable.target@),
        (r is Some) == {
            let (p, t) = (executable.path@, executable.target@);
            let g = git_target(p, t);
            !executable.is_broken && !either_contains(t, p, "node_modules"@) && !either_contains(t, p, "/.local/share/uv/"@)
                && !either_contains(t, p, "/.cargo/bin/"@) && !(either_contains(g, p, "/Dev/"@) || either_contains(g, p, "/dev/"@))
                && either_contains(g, p, "/repos/"@)
        },
{
    let p = chars_of(executable.path);
    let t = chars_of(executable.target);
    let g = if t.len() == 0 { slice_all_chars(&p) } else { slice_all_chars(&t) };
    if !executable.is_broken
        && !(contains_lit(&t, "node_modules") || contains_lit(&p, "node_modules"))
        && !(contains_lit(&t, "/.local/share/uv/") || contains_lit(&p, "/.local/share/uv/"))
        && !(contains_lit(&t, "/.cargo/bin/") || contains_lit(&p, "/.cargo/bin/"))
        && !(contains_lit(&g, "/Dev/") || contains_lit(&p, "/Dev/") || contains_lit(&g, "/dev/") || contains_lit(&p, "/dev/"))
        && (contains_lit(&g, "/repos/") || contains_lit(&p, "/repos/")) {
        Some(string_of(&g))
    } else {
        None
    }
}

/// The classification of an executable found outside the package manager;
/// `repo` is what its checkout showed when `repo_to_inspect` named one.
pub fn classify_custom(executable: &CustomExecutable, repo: Option<ProgramState>) -> (c: Classification)
    ensures
        (c.origin, c.state) == custom_class(executable.path@, executable.target@, executable.is_symlink, executable.is_script, executable.is_broken, repo),
{
    let p = chars_of(executable.path);
    let t = chars_of(executable.target);
    let g = if t.len() == 0 { slice_all_chars(&p) } else { slice_all_chars(&t) };
    if executable.is_broken {
        Classification { origin: InstallOrigin::Local, state: ProgramState { broken: true, ..ProgramState::plain() } }
    } else if contains_lit(&t, "node_modules") || contains_lit(&p, "node_modules") {
        Classification { origin: InstallOrigin::Npm, state: ProgramState::plain() }
    } else if contains_lit(&t, "/.local/share/uv/") || contains_lit(&p, "/.local/share/uv/") {
        Classification { origin: InstallOrigin::Uv, state: ProgramState::plain() }
    } else if contains_lit(&t, "/.cargo/bin/") || contains_lit(&p, "/.cargo/bin/") {
        Classification { origin: InstallOrigin::Cargo, state: ProgramState::plain() }
    } else if contains_lit(&g, "/Dev/") || contains_lit(&p, "/Dev/") || contains_lit(&g, "/dev/") || contains_lit(&p, "/dev/") {
        Classification { origin: InstallOrigin::Local, state: ProgramState { dev: true, ..ProgramState::plain() } }
    } else if contains_lit(&g, "/repos/") || contains_lit(&p, "/repos/") {
        Classification {
            origin: InstallOrigin::Local,
            state: match repo {
                Some(st) => st,
                None => ProgramState { unclassified: true, ..ProgramState::plain() },
            },
        }
    } else if contains_lit(&t, "/opt/") || contains_lit(&p, "/opt/") {
        Classification { origin: InstallOrigin::Local, state: ProgramState { opt: true, ..ProgramState::plain() } }
    } else if !executable.is_symlink && executable.is_script {
        Classification { origin: InstallOrigin::Local, state: ProgramState { script: true, ..ProgramState::plain() } }
    } else if !executable.is_symlink {
        Classification { origin: InstallOrigin::Local, state: ProgramState { binary: true, ..ProgramState::plain() } }
    } else {
        Classification { origin: InstallOrigin::Local, state: ProgramState { unclassified: true, ..ProgramState::plain() } }
    }
}

/// A directory entry that is not looked at as a program: `.` and `..`,
/// documentation and data, a build helper at a project's top, and shared
/// libraries.
pub open spec fn skipped_entry(directory: Seq<char>, name: Seq<char>, home: Seq<char>) -> bool {
    ||| name == "."@
    ||| name == ".."@
    ||| skipped_name(name)
    ||| skipped_helper(directory, name, home)
    ||| ends_with(name, ".so"@)
    ||| contains(name, ".so."@)
}

pub fn skip_entry(directory: &str, name: &str, home: &str) -> (r: bool)
    ensures
        r == skipped_entry(directory@, name@, home@),
{
    let n = chars_of(name);
    is_lit(&n, ".") || is_lit(&n, "..") || should_skip(name) || should_skip_workspace_support_executable(directory, name, home)
        || ends_lit(&n, ".so") || contains_lit(&n, ".so.")
}

/// What an executable file holds: a native binary or a script.
#[derive(Clone, Copy, Debug, PartialEq, Eq, Structural)]
pub enum ExecutableFileKind {
    NativeBinary,
    Script,
}

pub open spec fn bytes_start(s: Seq<u8>, p: Seq<u8>) -> bool {
    p.len() <= s.len() && s.subrange(0, p.len() as int) == p
}

/// A file is a program when it is a regular file that someone may execute
/// (`mode` has an execute bit) and starts with `#!` (a script) or the ELF
/// magic (a native binary).
pub open spec fn file_kind(is_file: bool, mode: u32, header: Seq<u8>) -> Option<ExecutableFileKind> {
    if !is_file || mode & 0o111u32 == 0 {
        None
    } else if bytes_start(header, seq![0x23u8, 0x21u8]) {
        Some(ExecutableFileKind::Script)
    } else if bytes_start(header, seq![0x7fu8, 0x45u8, 0x4cu8, 0x46u8]) {
        Some(ExecutableFileKind::NativeBinary)
    } else {
        None
    }
}

fn starts_with_bytes(s: &[u8], p: &[u8]) -> (r: bool)
    ensures
        r == bytes_start(s@, p@),
{
    if p.len() > s.len() {
        return false;
    }
    let mut i: usize = 0;
    while i < p.len()
        invariant
            i <= p@.len(),
            p@.len() <= s@.len(),
            forall|k: int| 0 <= k < i ==> s@[k] == p@[k],
        decreases p@.len() - i,
    {
        if s[i] != p[i] {
            proof {
                assert(s@.subrange(0, p@.len() as int)[i as int] != p@[i as int]);
            }
            return false;
        }
        i += 1;
    }
    proof {
        assert(s@.subrange(0, p@.len() as int) =~= p@);
    }
    true
}

/// The kind of program a file is, from whether it is a regular file, its
/// permission bits and its first bytes.
pub fn executable_file_kind(is_file: bool, mode: u32, header: &[u8]) -> (r: Option<ExecutableFileKind>)
    ensures
        r == file_kind(is_file, mode, header@),
{
    if !is_file || mode & 0o111u32 == 0 {
        return None;
    }
    let shebang: [u8; 2] = [0x23u8, 0x21u8];
    let elf: [u8; 4] = [0x7fu8, 0x45u8, 0x4cu8, 0x46u8];
    proof {
        assert(shebang@ =~= seq![0x23u8, 0x21u8]);
        assert(elf@ =~= seq![0x7fu8, 0x45u8, 0x4cu8, 0x46u8]);
    }
    if starts_with_bytes(header, &shebang) {
        Some(ExecutableFileKind::Script)
    } else if starts_with_bytes(header, &elf) {
        Some(ExecutableFileKind::NativeBinary)
    } else {
        None
    }
}

pub open spec fn version_text(is_broken: bool, is_pacman_owned: bool, package_version: Option<Seq<char>>, discovered: Option<Seq<char>>) -> Seq<char> {
    if is_broken {
        Seq::empty()
    } else if is_pacman_owned {
        match package_version {
            Some(v) => "v"@ + v,
            None => Seq::empty(),
        }
    } else {
        match discovered {
            Some(v) => "v"@ + v,
            None => Seq::empty(),
        }
    }
}

/// The version shown for an executable: none for a broken link, its
/// package's for a packaged file, else the one found for it, each with a
/// leading `v`.
pub fn binary_version(is_broken: bool, is_pacman_owned: bool, package_version: Option<&str>, discovered: Option<&str>) -> (r: String)
    ensures
        r@ == version_text(is_broken, is_pacman_owned, match package_version {
            Some(v) => Some(v@),
            None => None,
        }, match discovered {
            Some(v) => Some(v@),
            None => None,
        }),
{
    let chosen = if is_broken {
        None
    } else if is_pacman_owned {
        package_version
    } else {
        discovered
    };
    match chosen {
        Some(v) => {
            let mut out = chars_of("v");
            crate::text::push_str(&mut out, v);
            string_of(&out)
        },
        None => String::new(),
    }
}

/// How a program found as an executable outside the package manager is
/// first described.
pub fn local_tool_description(path: &str) -> (r: String)
    ensures
        r@ == "Local custom tool sitting at "@ + path@,
{
    let mut out = chars_of("Local custom tool sitting at ");
    crate::text::push_str(&mut out, path);
    string_of(&out)
}

/// How many bytes of a binary's start and of its end are read for embedded
/// version text: 16 MiB and 4 MiB under `/opt`, else 8 MiB and 1 MiB.
pub open spec fn read_limits(path: Seq<char>) -> (u64, u64) {
    if path_prefix(path, "/opt/"@) { (0x100_0000, 0x40_0000) } else { (0x80_0000, 0x10_0000) }
}

pub fn embedded_read_limits(path: &str) -> (r: (u64, u64))
    ensures
        r == read_limits(path@),
{
    if path_starts_with(path, "/opt/") { (0x100_0000, 0x40_0000) } else { (0x80_0000, 0x10_0000) }
}

/// The parts of a file of `size` bytes that are read: its first bytes up to
/// the head limit, then, of what is left, its last bytes up to the tail limit.
pub open spec fn read_plan(size: u64, head_limit: u64, tail_limit: u64) -> (u64, u64) {
    let head = if size < head_limit { size } else { head_limit };
    let rest = size - head;
    (head, if rest <= 0 { 0u64 } else if tail_limit < rest { tail_limit } else { rest as u64 })
}

pub fn embedded_read_plan(size: u64, head_limit: u64, tail_limit: u64) -> (r: (u64, u64))
    ensures
        r == read_plan(size, head_limit, tail_limit),
{
    let head = if size < head_limit { size } else { head_limit };
    let rest = size - head;
    let tail = if rest == 0 { 0 } else if tail_limit < rest { tail_limit } else { rest };
    (head, tail)
}

/// A binary's embedded text is read unless it belongs to CUDA, a Java
/// runtime or Codex: always under `/opt`, elsewhere when its size is known
/// and at most 32 MiB.
pub open spec fn scans_embedded_version(path: Seq<char>, size: Option<u64>) -> bool {
    if starts_with(path, "/opt/cuda/"@) || starts_with(path, "/usr/lib/jvm/"@) || contains(path, "/.codex/"@) {
        false
    } else {
        starts_with(path, "/opt/"@) || match size {
            Some(s) => s <= 0x200_0000,
            None => false,
        }
    }
}

pub fn should_scan_embedded_version(path: &str, size: Option<u64>) -> (r: bool)
    ensures
        r == scans_embedded_version(path@, size),
{
    let p = chars_of(path);
    if starts_lit(&p, "/opt/cuda/") || starts_lit(&p, "/usr/lib/jvm/") || contains_lit(&p, "/.codex/") {
        return false;
    }
    starts_lit(&p, "/opt/") || match size {
        Some(s) => s <= 0x200_0000,
        None => false,
    }
}

/// A binary is read whole when it lies under `/opt`, is named like the
/// identity sought (ASCII case aside), and is larger than the head that is
/// read under `/opt`.
pub open spec fn full_opt_probe(path: Seq<char>, identity: Seq<char>, size: Option<u64>) -> bool {
    &&& path_prefix(path, "/opt/"@)
    &&& match path_file_name(path) {
        Some(n) => eq_ignore_ascii_case(n, identity),
        None => false,
    }
    &&& match size {
        Some(s) => s > 0x100_0000,
        None => false,
    }
}

pub fn should_full_opt_probe(path: &str, identity: &str, size: Option<u64>) -> (r: bool)
    ensures
        r == full_opt_probe(path@, identity@, size),
{
    if !path_starts_with(path, "/opt/") {
        return false;
    }
    let name = match file_name(path) {
        Some(n) => n,
        None => return false,
    };
    eq_ignore_case(&chars_of(name.as_str()), &chars_of(identity)) && match size {
        Some(s) => s > 0x100_0000,
        None => false,
    }
}

/// A whole binary is read only when it is at most 128 MiB.
pub fn full_probe_allowed(size: u64) -> (r: bool)
    ensures
        r == (size <= 0x800_0000),
{
    size <= 0x800_0000
}


/// How many executables, and how many of them links, the scan has filed.
#[derive(Clone, Copy, Debug, PartialEq, Eq, Structural)]
pub struct ScanCounts {
    pub binaries: usize,
    pub symlinks: usize,
}

/// What the scan has learnt of one directory entry that is a file or a link.
#[derive(Clone, Copy, Debug, PartialEq, Eq, Structural)]
pub struct EntryFacts {
    pub is_symlink: bool,
    /// The link leads to a directory.
    pub target_is_dir: bool,
    /// The link (or file) leads to something that exists.
    pub target_exists: bool,
    /// Dangling links are reported in this directory.
    pub broken_links_listed: bool,
    /// What the file holds, when it is an executable.
    pub kind: Option<ExecutableFileKind>,
}

/// What the scan does with one directory entry.
#[derive(Clone, Copy, Debug, PartialEq, Eq, Structural)]
pub enum EntryAction {
    Skip,
    /// Filed as an executable, dangling or not, script or not.
    File { broken: bool, is_script: bool },
}

/// The decision on one entry: a link to a directory is passed over; a
/// dangling link is filed only where dangling links are reported; any other
/// entry is filed when it is an executable. Each filed entry is counted, and
/// so is each filed link.
pub open spec fn entry_step(counts: ScanCounts, facts: EntryFacts) -> (ScanCounts, EntryAction) {
    let broken = facts.is_symlink && !facts.target_exists;
    let filed = if facts.is_symlink && facts.target_is_dir {
        false
    } else if broken {
        facts.broken_links_listed
    } else {
        facts.kind is Some
    };
    if !filed {
        (counts, EntryAction::Skip)
    } else {
        (
            ScanCounts {
                binaries: (counts.binaries + 1) as usize,
                symlinks: if facts.is_symlink { (counts.symlinks + 1) as usize } else { counts.symlinks },
            },
            EntryAction::File { broken, is_script: !broken && facts.kind == Some(ExecutableFileKind::Script) },
        )
    }
}

/// One step of the executable scan: what is done with the entry, and the
/// counts after it.
pub fn executable_entry_step(counts: ScanCounts, facts: EntryFacts) -> (r: (ScanCounts, EntryAction))
    requires
        counts.binaries < usize::MAX,
        counts.symlinks < usize::MAX,
    ensures
        r == entry_step(counts, facts),
{
    if facts.is_symlink && facts.target_is_dir {
        return (counts, EntryAction::Skip);
    }
    let broken = facts.is_symlink && !facts.target_exists;
    let is_script = if broken {
        if !facts.broken_links_listed {
            return (counts, EntryAction::Skip);
        }
        false
    } else {
        match facts.kind {
            None => {
                return (counts, EntryAction::Skip);
            },
            Some(kind) => kind == ExecutableFileKind::Script,
        }
    };
    let symlinks = if facts.is_symlink { counts.symlinks + 1 } else { counts.symlinks };
    (ScanCounts { binaries: counts.binaries + 1, symlinks }, EntryAction::File { broken, is_script })
}

/// Where the search for a file's own version stands.
#[derive(Clone, Copy, Debug, PartialEq, Eq, Structural)]
pub enum VersionProbe {
    /// Nothing tried yet.
    Start,
    /// The project files beside the executable.
    ProjectFiles,
    /// The strings embedded in the binary, within the usual limits.
    EmbeddedStrings,
    /// All the strings of a large binary under `/opt`.
    FullStrings,
    /// The search is over.
    Done,
}

/// The probe after `last`: none once a version is found; the project files
/// first, unless the file is a dangling link or owned by a package; then the
/// embedded strings, unless it is dangling, a script or owned by a package;
/// then, when `full_wanted`, all its strings; then none.
pub open spec fn probe_after(last: VersionProbe, found: bool, is_broken: bool, is_script: bool, is_pacman_owned: bool, full_wanted: bool) -> VersionProbe {
    let embedded = if is_broken || is_script || is_pacman_owned { VersionProbe::Done } else { VersionProbe::EmbeddedStrings };
    if found {
        VersionProbe::Done
    } else {
        match last {
            VersionProbe::Start => if !is_broken && !is_pacman_owned { VersionProbe::ProjectFiles } else { embedded },
            VersionProbe::ProjectFiles => embedded,
            VersionProbe::EmbeddedStrings => if full_wanted { VersionProbe::FullStrings } else { VersionProbe::Done },
            _ => VersionProbe::Done,
        }
    }
}

/// The next place to look for the version of a file the package manager may
/// not know, given the last probe and whether it found one.
pub fn version_probe_plan(last: VersionProbe, found: bool, is_broken: bool, is_script: bool, is_pacman_owned: bool, full_wanted: bool) -> (r: VersionProbe)
    ensures
        r == probe_after(last, found, is_broken, is_script, is_pacman_owned, full_wanted),
{
    if found {
        return VersionProbe::Done;
    }
    let embedded = if is_broken || is_script || is_pacman_owned { VersionProbe::Done } else { VersionProbe::EmbeddedStrings };
    match last {
        VersionProbe::Start => if !is_broken && !is_pacman_owned { VersionProbe::ProjectFiles } else { embedded },
        VersionProbe::ProjectFiles => embedded,
        VersionProbe::EmbeddedStrings => if full_wanted { VersionProbe::FullStrings } else { VersionProbe::Done },
        _ => VersionProbe::Done,
    }
}

/// The probes come in a fixed order and end: each step moves forward, and
/// the search ends once a version is found.
pub proof fn lemma_probes_advance(last: VersionProbe, found: bool, is_broken: bool, is_script: bool, is_pacman_owned: bool, full_wanted: bool)
    ensures
        probe_rank(probe_after(last, found, is_broken, is_script, is_pacman_owned, full_wanted)) > probe_rank(last)
            || (last == VersionProbe::Done && probe_after(last, found, is_broken, is_script, is_pacman_owned, full_wanted) == VersionProbe::Done),
        found ==> probe_after(last, found, is_broken, is_script, is_pacman_owned, full_wanted) == VersionProbe::Done,
{
}

/// The place of a probe in the order of the search.
pub open spec fn probe_rank(p: VersionProbe) -> int {
    match p {
        VersionProbe::Start => 0,
        VersionProbe::ProjectFiles => 1,
        VersionProbe::EmbeddedStrings => 2,
        VersionProbe::FullStrings => 3,
        VersionProbe::Done => 4,
    }
}

/// Where a tool manager installed an executable decides its origin, whatever
/// the checkout shows and whatever kind of file it is: a broken link is a
/// local broken program; otherwise an executable whose path or link target
/// lies under `node_modules` comes from npm, then one under
/// `/.local/share/uv/` from uv, then one under `/.cargo/bin/` from Cargo,
/// each with no state flag set. No other executable gets these origins.
pub proof fn lemma_tool_managers_set_the_origin(
    path: Seq<char>,
    target: Seq<char>,
    is_symlink: bool,
    is_script: bool,
    is_broken: bool,
    repo: Option<ProgramState>,
)
    ensures
        ({
            let c = custom_class(path, target, is_symlink, is_script, is_broken, repo);
            let npm = contains(path, "node_modules"@) || contains(target, "node_modules"@);
            let uv = contains(path, "/.local/share/uv/"@) || contains(target, "/.local/share/uv/"@);
            let cargo = contains(path, "/.cargo/bin/"@) || contains(target, "/.cargo/bin/"@);
            &&& is_broken ==> c.0 == InstallOrigin::Local && c.1 == ProgramState { broken: true, ..ProgramState::clear() }
            &&& (c.0 == InstallOrigin::Npm) <==> (!is_broken && npm)
            &&& (c.0 == InstallOrigin::Uv) <==> (!is_broken && !npm && uv)
            &&& (c.0 == InstallOrigin::Cargo) <==> (!is_broken && !npm && !uv && cargo)
            &&& (c.0 != InstallOrigin::Local) ==> c.1 == ProgramState::clear()
        }),
{
}

} // verus!
