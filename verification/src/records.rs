//! Program records found outside the package manager: their role and origin,
//! where they live, and which of a package's files best stands for it.
use crate::models::{AppItem, BinaryInfo, InstallOrigin, InstallRole, ProgramState, ServiceInfo};
use crate::order::{chars_lt, lemma_chars_lt_irrefl, lemma_chars_lt_total, lemma_chars_lt_trans, str_less};
use crate::paths::{file_name, normalize_chars, normalized_name, opt_string_view, path_file_name};
use crate::text::{chars_eq, chars_of, contains, contains_lit, ends_lit, ends_with, find_seq, first_at, find_first, occurs_at, slice_vec, starts_lit, starts_with, string_of, strip_lit, strip_prefix};
use vstd::prelude::*;
use vstd::string::StringSliceAdditionalSpecFns;

verus! {

/// The role of a program found outside the package manager: toolchains
/// manage what Cargo, npm and uv install; the rest stands alone.
pub open spec fn discovered_role(origin: InstallOrigin) -> InstallRole {
    match origin {
        InstallOrigin::Cargo | InstallOrigin::Npm | InstallOrigin::Uv => InstallRole::ToolchainManaged,
        InstallOrigin::Pacman | InstallOrigin::Aur | InstallOrigin::Local => InstallRole::Standalone,
    }
}

pub fn discovered_install_role(origin: InstallOrigin) -> (r: InstallRole)
    ensures
        r == discovered_role(origin),
{
    match origin {
        InstallOrigin::Cargo | InstallOrigin::Npm | InstallOrigin::Uv => InstallRole::ToolchainManaged,
        InstallOrigin::Pacman | InstallOrigin::Aur | InstallOrigin::Local => InstallRole::Standalone,
    }
}

/// A new origin replaces a record's origin only when the record is merely local.
pub fn origin_is_more_specific(candidate: InstallOrigin, existing: InstallOrigin) -> (r: bool)
    ensures
        r == (existing == InstallOrigin::Local && candidate != InstallOrigin::Local),
{
    existing == InstallOrigin::Local && candidate != InstallOrigin::Local
}

/// The part of a library file name before its first `.so`, when it starts
/// with `lib`.
pub open spec fn library_stem(filename: Seq<char>) -> Option<Seq<char>> {
    match find_first(filename, ".so"@) {
        Some(i) => if starts_with(filename.subrange(0, i), "lib"@) { Some(filename.subrange(0, i)) } else { None },
        None => None,
    }
}

fn library_stem_chars(filename: &[char]) -> (r: Option<Vec<char>>)
    ensures
        r matches Some(v) ==> library_stem(filename@) == Some(v@),
        r is None ==> library_stem(filename@) is None,
{
    let so = chars_of(".so");
    match find_seq(filename, &so) {
        Some(i) => {
            proof {
                assert(first_at(filename@, so@, i as int));
                let k = choose|k: int| first_at(filename@, so@, k);
                assert(first_at(filename@, so@, k));
                if k < i { assert(!occurs_at(filename@, so@, k)); }
                if i < k { assert(!occurs_at(filename@, so@, i as int)); }
            }
            let stem = slice_vec(filename, 0, i);
            if starts_lit(&stem, "lib") {
                Some(stem)
            } else {
                None
            }
        },
        None => {
            proof {
                assert(!exists|k: int| first_at(filename@, so@, k));
            }
            None
        },
    }
}

pub fn shared_library_stem(filename: &str) -> (r: Option<String>)
    ensures
        opt_string_view(r) == library_stem(filename@),
{
    let f = chars_of(filename);
    match library_stem_chars(&f) {
        Some(v) => Some(string_of(&v)),
        None => None,
    }
}

/// A package name as library files spell it: without a leading `g` before
/// `lib`, without `lib`, then normalized.
pub open spec fn package_stem(package_name: Seq<char>) -> Seq<char> {
    let name = if starts_with(package_name, "glib"@) { package_name.subrange(1, package_name.len() as int) } else { package_name };
    let bare = if starts_with(name, "lib"@) { name.subrange(3, name.len() as int) } else { name };
    normalized_name(bare)
}

fn package_stem_chars(package_name: &[char]) -> (r: Vec<char>)
    ensures
        r@ == package_stem(package_name@),
{
    proof {
        reveal_strlit("glib");
        reveal_strlit("lib");
    }
    let name = if starts_lit(package_name, "glib") {
        slice_vec(package_name, 1, package_name.len())
    } else {
        slice_vec(package_name, 0, package_name.len())
    };
    proof {
        assert(package_name@.subrange(0, package_name@.len() as int) =~= package_name@);
    }
    let bare = if starts_lit(&name, "lib") {
        slice_vec(&name, 3, name.len())
    } else {
        slice_vec(&name, 0, name.len())
    };
    proof {
        assert(name@.subrange(0, name@.len() as int) =~= name@);
    }
    normalize_chars(&bare)
}

pub fn normalized_package_stem(package_name: &str) -> (r: String)
    ensures
        r@ == package_stem(package_name@),
{
    let p = chars_of(package_name);
    string_of(&package_stem_chars(&p))
}

/// The letters and digits of `name`, lower-cased.
pub fn normalized_name_of(name: &str) -> (r: String)
    ensures
        r@ == normalized_name(name@),
{
    let n = chars_of(name);
    string_of(&normalize_chars(&n))
}

/// The letters `lib`.
pub open spec fn lib_word() -> Seq<char> {
    seq!['l', 'i', 'b']
}

/// `s` without leading `lib`s.
pub open spec fn without_lib(s: Seq<char>) -> Seq<char>
    decreases s.len(),
{
    if starts_with(s, lib_word()) { without_lib(s.subrange(3, s.len() as int)) } else { s }
}

fn without_lib_chars(s: &[char]) -> (r: Vec<char>)
    ensures
        r@ == without_lib(s@),
{
    let mut a: usize = 0;
    proof {
        assert(s@.subrange(0, s@.len() as int) =~= s@);
    }
    while s.len() - a >= 3 && s[a] == 'l' && s[a + 1] == 'i' && s[a + 2] == 'b'
        invariant
            a <= s@.len(),
            without_lib(s@.subrange(a as int, s@.len() as int)) == without_lib(s@),
        decreases s@.len() - a,
    {
        proof {
            let t = s@.subrange(a as int, s@.len() as int);
            assert(t.subrange(0, 3) =~= lib_word());
            assert(t.subrange(3, t.len() as int) =~= s@.subrange(a + 3, s@.len() as int));
        }
        a += 3;
    }
    proof {
        let t = s@.subrange(a as int, s@.len() as int);
        if starts_with(t, lib_word()) {
            assert(t.subrange(0, 3)[0] == 'l');
            assert(t.subrange(0, 3)[1] == 'i');
            assert(t.subrange(0, 3)[2] == 'b');
        }
    }
    slice_vec(s, a, s.len())
}

/// How well an owned file stands for the package whose normalized name is
/// `stem`, smaller being better: shared libraries first (their affinity to the
/// name, unversioned `.so` after versioned ones), then executables, `/opt`,
/// services and launchers, libraries, other files, and documentation last;
/// then shorter paths, then the path's order.
pub open spec fn priority_key(stem: Seq<char>, path: Seq<char>, path_len: int) -> (int, int, int) {
    let filename = match path_file_name(path) {
        Some(n) => n,
        None => Seq::empty(),
    };
    match library_stem(filename) {
        Some(lib) => {
            let normalized = normalized_name(without_lib(lib));
            let affinity = if normalized == stem {
                0int
            } else if starts_with(normalized, stem) || starts_with(stem, normalized) {
                1int
            } else {
                2int
            };
            let unversioned = if ends_with(filename, ".so"@) { 1int } else { 0int };
            (0int, affinity * 2 + unversioned, path_len)
        },
        None => {
            let category = if starts_with(path, "/usr/bin/"@) || starts_with(path, "/usr/local/bin/"@) {
                1int
            } else if starts_with(path, "/opt/"@) {
                2int
            } else if contains(path, "/systemd/"@) || ends_with(filename, ".desktop"@) {
                3int
            } else if starts_with(path, "/usr/lib/"@) || starts_with(path, "/usr/local/lib/"@) {
                4int
            } else if contains(path, "/share/doc/"@) || contains(path, "/share/licenses/"@) || contains(path, "/share/man/"@) {
                6int
            } else {
                5int
            };
            (category, 0int, path_len)
        },
    }
}

/// The priority of `path` for the package stem `stem`: category, affinity,
/// byte length and the path itself.
pub fn owned_path_priority(package_stem: &str, path: &str) -> (r: (u8, u8, usize, String))
    ensures
        (r.0 as int, r.1 as int, r.2 as int) == priority_key(package_stem@, path@, path.len() as int),
        r.3@ == path@,
{
    let filename = match file_name(path) {
        Some(n) => chars_of(n.as_str()),
        None => Vec::new(),
    };
    let p = chars_of(path);
    let stem = chars_of(package_stem);
    let len = path.len();
    match library_stem_chars(&filename) {
        Some(lib) => {
            let bare = without_lib_chars(&lib);
            let normalized = normalize_chars(&bare);
            let affinity: u8 = if chars_eq(&normalized, &stem) {
                0
            } else if crate::text::has_prefix(&normalized, &stem) || crate::text::has_prefix(&stem, &normalized) {
                1
            } else {
                2
            };
            let unversioned: u8 = if ends_lit(&filename, ".so") { 1 } else { 0 };
            (0, affinity * 2 + unversioned, len, string_of(&p))
        },
        None => {
            let category: u8 = if starts_lit(&p, "/usr/bin/") || starts_lit(&p, "/usr/local/bin/") {
                1
            } else if starts_lit(&p, "/opt/") {
                2
            } else if contains_lit(&p, "/systemd/") || ends_lit(&filename, ".desktop") {
                3
            } else if starts_lit(&p, "/usr/lib/") || starts_lit(&p, "/usr/local/lib/") {
                4
            } else if contains_lit(&p, "/share/doc/") || contains_lit(&p, "/share/licenses/") || contains_lit(&p, "/share/man/") {
                6
            } else {
                5
            };
            (category, 0, len, string_of(&p))
        },
    }
}

pub open spec fn lex3_lt(a: (int, int, int), b: (int, int, int)) -> bool {
    a.0 < b.0 || (a.0 == b.0 && (a.1 < b.1 || (a.1 == b.1 && a.2 < b.2)))
}

/// `a` stands for the package better than `b`.
pub open spec fn ranks_before(stem: Seq<char>, a: &str, b: &str) -> bool {
    let ka = priority_key(stem, a@, a.len() as int);
    let kb = priority_key(stem, b@, b.len() as int);
    lex3_lt(ka, kb) || (ka == kb && chars_lt(a@, b@))
}

proof fn lemma_ranks_before_order(stem: Seq<char>, a: &str, b: &str, c: &str)
    ensures
        !ranks_before(stem, a, a),
        ranks_before(stem, a, b) && ranks_before(stem, b, c) ==> ranks_before(stem, a, c),
        a@ != b@ ==> ranks_before(stem, a, b) || ranks_before(stem, b, a),
{
    lemma_chars_lt_irrefl(a@);
    if chars_lt(a@, b@) && chars_lt(b@, c@) {
        lemma_chars_lt_trans(a@, b@, c@);
    }
    lemma_chars_lt_total(a@, b@);
}

/// The best-ranked path among those that `eligible` admits.
fn best_ranked(stem: &Vec<char>, paths: &[&str], eligible: &Vec<bool>) -> (r: Option<usize>)
    requires
        eligible@.len() == paths@.len(),
    ensures
        r is None ==> forall|j: int| 0 <= j < paths@.len() ==> !eligible@[j],
        r matches Some(i) ==> i < paths@.len() && eligible@[i as int]
            && forall|j: int| 0 <= j < paths@.len() && eligible@[j] ==> !#[trigger] ranks_before(stem@, paths@[j], paths@[i as int]),
{
    let mut best: Option<usize> = None;
    let mut best_key: (u8, u8, usize) = (0, 0, 0);
    let mut k: usize = 0;
    while k < paths.len()
        invariant
            eligible@.len() == paths@.len(),
            k <= paths@.len(),
            best is None ==> forall|j: int| 0 <= j < k ==> !eligible@[j],
            best matches Some(i) ==> i < k && eligible@[i as int]
                && (best_key.0 as int, best_key.1 as int, best_key.2 as int) == priority_key(stem@, paths@[i as int]@, paths@[i as int].len() as int)
                && forall|j: int| 0 <= j < k && eligible@[j] ==> !#[trigger] ranks_before(stem@, paths@[j], paths@[i as int]),
        decreases paths@.len() - k,
    {
        if eligible[k] {
            let stem_text = string_of(stem);
            let key = owned_path_priority(stem_text.as_str(), paths[k]);
            let better = match best {
                None => true,
                Some(i) => {
                    key.0 < best_key.0 || (key.0 == best_key.0 && (key.1 < best_key.1 || (key.1 == best_key.1 && (key.2 < best_key.2
                        || (key.2 == best_key.2 && str_less(paths[k], paths[i]))))))
                },
            };
            proof {
                if let Some(i) = best {
                    assert(better == ranks_before(stem@, paths@[k as int], paths@[i as int]));
                    lemma_ranks_before_order(stem@, paths@[k as int], paths@[i as int], paths@[i as int]);
                }
                if better && best is Some {
                    let i = best->0;
                    assert forall|j: int| 0 <= j < k && eligible@[j] implies !#[trigger] ranks_before(stem@, paths@[j], paths@[k as int]) by {
                        lemma_ranks_before_order(stem@, paths@[j], paths@[i as int], paths@[k as int]);
                        lemma_ranks_before_order(stem@, paths@[j], paths@[k as int], paths@[i as int]);
                        lemma_ranks_before_order(stem@, paths@[i as int], paths@[k as int], paths@[j]);
                        lemma_ranks_before_order(stem@, paths@[k as int], paths@[i as int], paths@[j]);
                    }
                }
                lemma_ranks_before_order(stem@, paths@[k as int], paths@[k as int], paths@[k as int]);
            }
            if better {
                best = Some(k);
                best_key = (key.0, key.1, key.2);
            }
        }
        k += 1;
    }
    best
}

/// The owned file that best stands for the package: the best-ranked file that
/// is not a directory, else the first path in order.
pub open spec fn best_owned_ok(stem: Seq<char>, paths: Seq<&str>, is_dir: Seq<bool>, r: Option<Seq<char>>) -> bool {
    if exists|j: int| 0 <= j < paths.len() && !is_dir[j] {
        exists|i: int| 0 <= i < paths.len() && !is_dir[i] && r == Some(paths[i]@)
            && forall|j: int| 0 <= j < paths.len() && !is_dir[j] ==> !#[trigger] ranks_before(stem, paths[j], paths[i])
    } else if paths.len() == 0 {
        r is None
    } else {
        exists|i: int| 0 <= i < paths.len() && r == Some(paths[i]@)
            && forall|j: int| 0 <= j < paths.len() ==> !#[trigger] chars_lt(paths[j]@, paths[i]@)
    }
}

/// The owned path that best stands for a package; `is_dir` tells which of
/// the paths are directories.
pub fn best_owned_path(package_name: &str, owned_paths: &[&str], is_dir: &[bool]) -> (r: Option<String>)
    requires
        is_dir@.len() == owned_paths@.len(),
    ensures
        best_owned_ok(package_stem(package_name@), owned_paths@, is_dir@, opt_string_view(r)),
{
    let pn = chars_of(package_name);
    let stem = package_stem_chars(&pn);
    let mut eligible: Vec<bool> = Vec::new();
    let mut k: usize = 0;
    while k < is_dir.len()
        invariant
            k <= is_dir@.len(),
            eligible@.len() == k,
            forall|j: int| 0 <= j < k ==> eligible@[j] == !is_dir@[j],
        decreases is_dir@.len() - k,
    {
        eligible.push(!is_dir[k]);
        k += 1;
    }
    match best_ranked(&stem, owned_paths, &eligible) {
        Some(i) => {
            proof {
                assert(exists|j: int| 0 <= j < owned_paths@.len() && !is_dir@[j]) by {
                    assert(!is_dir@[i as int]);
                }
            }
            Some(string_of(&chars_of(owned_paths[i])))
        },
        None => {
            if owned_paths.len() == 0 {
                return None;
            }
            let mut m: usize = 0;
            let mut j: usize = 1;
            proof {
                lemma_chars_lt_irrefl(owned_paths@[0]@);
            }
            while j < owned_paths.len()
                invariant
                    m < j <= owned_paths@.len(),
                    forall|x: int| 0 <= x < j ==> !#[trigger] chars_lt(owned_paths@[x]@, owned_paths@[m as int]@),
                decreases owned_paths@.len() - j,
            {
                if str_less(owned_paths[j], owned_paths[m]) {
                    proof {
                        assert forall|x: int| 0 <= x < j + 1 implies !#[trigger] chars_lt(owned_paths@[x]@, owned_paths@[j as int]@) by {
                            lemma_chars_lt_irrefl(owned_paths@[j as int]@);
                            if x < j && chars_lt(owned_paths@[x]@, owned_paths@[j as int]@) {
                                lemma_chars_lt_trans(owned_paths@[x]@, owned_paths@[j as int]@, owned_paths@[m as int]@);
                            }
                        }
                    }
                    m = j;
                }
                j += 1;
            }
            Some(string_of(&chars_of(owned_paths[m])))
        },
    }
}

/// A shared library named `lib...` among the owned files.
pub open spec fn is_shared_library_file(path: Seq<char>) -> bool {
    match path_file_name(path) {
        Some(f) => library_stem(f) is Some,
        None => false,
    }
}

/// The best-ranked shared library among a package's files.
pub open spec fn best_library_ok(package_name: Seq<char>, owned_paths: Seq<&str>, r: Option<Seq<char>>) -> bool {
    &&& r is None ==> forall|j: int| 0 <= j < owned_paths.len() ==> !is_shared_library_file(#[trigger] owned_paths[j]@)
    &&& r matches Some(p) ==> exists|i: int| 0 <= i < owned_paths.len() && is_shared_library_file(owned_paths[i]@) && p == owned_paths[i]@
            && forall|j: int| 0 <= j < owned_paths.len() && is_shared_library_file(owned_paths[j]@) ==> !#[trigger] ranks_before(package_stem(package_name), owned_paths[j], owned_paths[i])
}

pub fn best_shared_library_path(package_name: &str, owned_paths: &[&str]) -> (r: Option<String>)
    ensures
        best_library_ok(package_name@, owned_paths@, opt_string_view(r)),
{
    let pn = chars_of(package_name);
    let stem = package_stem_chars(&pn);
    let mut eligible: Vec<bool> = Vec::new();
    let mut k: usize = 0;
    while k < owned_paths.len()
        invariant
            k <= owned_paths@.len(),
            eligible@.len() == k,
            forall|j: int| 0 <= j < k ==> eligible@[j] == is_shared_library_file(owned_paths@[j]@),
        decreases owned_paths@.len() - k,
    {
        let e = match file_name(owned_paths[k]) {
            Some(f) => {
                let fc = chars_of(f.as_str());
                library_stem_chars(&fc).is_some()
            },
            None => false,
        };
        eligible.push(e);
        k += 1;
    }
    match best_ranked(&stem, owned_paths, &eligible) {
        Some(i) => Some(string_of(&chars_of(owned_paths[i]))),
        None => {
            proof {
                assert forall|j: int| 0 <= j < owned_paths@.len() implies !is_shared_library_file(#[trigger] owned_paths@[j]@) by {
                    assert(!eligible@[j]);
                }
            }
            None
        },
    }
}

/// The first directory, in order, among the directories of the executables.
pub open spec fn least_dir_ok(binaries: Seq<BinaryInfo>, r: Option<Seq<char>>) -> bool {
    &&& r is None <==> binaries.len() == 0
    &&& r matches Some(d) ==> exists|i: int| 0 <= i < binaries.len() && d == binaries[i].dir@
            && forall|j: int| 0 <= j < binaries.len() ==> !#[trigger] chars_lt(binaries[j].dir@, binaries[i].dir@)
}

pub fn binary_directory(binaries: &Vec<BinaryInfo>) -> (r: Option<String>)
    ensures
        least_dir_ok(binaries@, opt_string_view(r)),
{
    if binaries.len() == 0 {
        return None;
    }
    let mut m: usize = 0;
    let mut j: usize = 1;
    proof {
        lemma_chars_lt_irrefl(binaries@[0].dir@);
    }
    while j < binaries.len()
        invariant
            m < j <= binaries@.len(),
            forall|x: int| 0 <= x < j ==> !#[trigger] chars_lt(binaries@[x].dir@, binaries@[m as int].dir@),
        decreases binaries@.len() - j,
    {
        if str_less(binaries[j].dir.as_str(), binaries[m].dir.as_str()) {
            proof {
                assert forall|x: int| 0 <= x < j + 1 implies !#[trigger] chars_lt(binaries@[x].dir@, binaries@[j as int].dir@) by {
                    lemma_chars_lt_irrefl(binaries@[j as int].dir@);
                    if x < j && chars_lt(binaries@[x].dir@, binaries@[j as int].dir@) {
                        lemma_chars_lt_trans(binaries@[x].dir@, binaries@[j as int].dir@, binaries@[m as int].dir@);
                    }
                }
            }
            m = j;
        }
        j += 1;
    }
    Some(binaries[m].dir.clone())
}

/// A language runtime that runs a script named on its command line.
pub open spec fn interpreter(name: Seq<char>) -> bool {
    ||| name == "node"@
    ||| name == "nodejs"@
    ||| name == "bash"@
    ||| name == "sh"@
    ||| name == "zsh"@
    ||| name == "fish"@
    ||| name == "perl"@
    ||| name == "ruby"@
    ||| name == "php"@
    ||| starts_with(name, "python"@)
}

pub fn is_interpreter(name: &str) -> (r: bool)
    ensures
        r == interpreter(name@),
{
    let n = chars_of(name);
    crate::text::is_lit(&n, "node") || crate::text::is_lit(&n, "nodejs") || crate::text::is_lit(&n, "bash")
        || crate::text::is_lit(&n, "sh") || crate::text::is_lit(&n, "zsh") || crate::text::is_lit(&n, "fish")
        || crate::text::is_lit(&n, "perl") || crate::text::is_lit(&n, "ruby") || crate::text::is_lit(&n, "php")
        || starts_lit(&n, "python")
}

/// A word that names a script: it holds a `/` or ends with a script suffix.
pub open spec fn looks_like_script(token: Seq<char>) -> bool {
    ||| token.contains('/')
    ||| ends_with(token, ".py"@)
    ||| ends_with(token, ".pyw"@)
    ||| ends_with(token, ".js"@)
    ||| ends_with(token, ".mjs"@)
    ||| ends_with(token, ".cjs"@)
    ||| ends_with(token, ".sh"@)
    ||| ends_with(token, ".rb"@)
    ||| ends_with(token, ".pl"@)
    ||| ends_with(token, ".php"@)
}

fn looks_like_script_chars(t: &[char]) -> (r: bool)
    ensures
        r == looks_like_script(t@),
{
    crate::text::has_char(t, '/') || ends_lit(t, ".py") || ends_lit(t, ".pyw") || ends_lit(t, ".js")
        || ends_lit(t, ".mjs") || ends_lit(t, ".cjs") || ends_lit(t, ".sh") || ends_lit(t, ".rb")
        || ends_lit(t, ".pl") || ends_lit(t, ".php")
}

/// The script that an interpreter runs, reading its arguments from position
/// `i` on (`skip`: the previous option takes this word as its value); none
/// when the program comes from `-c`, `-m` or `-e`.
pub open spec fn payload_from(interp: Seq<char>, tokens: Seq<Seq<char>>, i: int, skip: bool) -> Option<Seq<char>>
    decreases tokens.len() - i,
{
    if i < 0 || i >= tokens.len() {
        None
    } else if skip {
        payload_from(interp, tokens, i + 1, false)
    } else {
        let t = tokens[i];
        if t == "-c"@ || t == "-m"@ || t == "-e"@ {
            None
        } else if t == "-W"@ || t == "-X"@ {
            payload_from(interp, tokens, i + 1, true)
        } else if starts_with(t, "-"@) || starts_with(t, "%"@) {
            payload_from(interp, tokens, i + 1, false)
        } else if looks_like_script(t) || (starts_with(interp, "python"@) && i == 0) {
            Some(t)
        } else {
            payload_from(interp, tokens, i + 1, false)
        }
    }
}

/// The script that an interpreter command line runs, from the words after
/// the interpreter.
pub fn interpreter_payload(interpreter: &str, tokens: &[String]) -> (r: Option<String>)
    ensures
        opt_string_view(r) == payload_from(interpreter@, crate::names::name_views(tokens@), 0, false),
{
    let ghost tv = crate::names::name_views(tokens@);
    let interp = chars_of(interpreter);
    let is_python = starts_lit(&interp, "python");
    let mut skip_next = false;
    let mut i: usize = 0;
    while i < tokens.len()
        invariant
            tv == crate::names::name_views(tokens@),
            interp@ == interpreter@,
            is_python == starts_with(interpreter@, "python"@),
            i <= tokens@.len(),
            payload_from(interpreter@, tv, i as int, skip_next) == payload_from(interpreter@, tv, 0, false),
        decreases tokens@.len() - i,
    {
        proof {
            assert(tv[i as int] == tokens@[i as int]@);
        }
        if skip_next {
            skip_next = false;
            i += 1;
            continue;
        }
        let t = chars_of(tokens[i].as_str());
        if crate::text::is_lit(&t, "-c") || crate::text::is_lit(&t, "-m") || crate::text::is_lit(&t, "-e") {
            return None;
        }
        if crate::text::is_lit(&t, "-W") || crate::text::is_lit(&t, "-X") {
            skip_next = true;
            i += 1;
            continue;
        }
        if starts_lit(&t, "-") || starts_lit(&t, "%") {
            i += 1;
            continue;
        }
        if looks_like_script_chars(&t) || (is_python && i == 0) {
            return Some(tokens[i].clone());
        }
        i += 1;
    }
    None
}

/// The characters that may precede a unit's command (`-`, `:`, `@`, `+`, `!`, `|`).
pub open spec fn is_prefix_mark(c: char) -> bool {
    c == '-' || c == ':' || c == '@' || c == '+' || c == '!' || c == '|'
}

pub open spec fn strip_marks(s: Seq<char>) -> Seq<char>
    decreases s.len(),
{
    if s.len() > 0 && is_prefix_mark(s[0]) { strip_marks(s.subrange(1, s.len() as int)) } else { s }
}

fn strip_marks_chars(s: &[char]) -> (r: Vec<char>)
    ensures
        r@ == strip_marks(s@),
{
    let mut a: usize = 0;
    proof {
        assert(s@.subrange(0, s@.len() as int) =~= s@);
    }
    while a < s.len() && (s[a] == '-' || s[a] == ':' || s[a] == '@' || s[a] == '+' || s[a] == '!' || s[a] == '|')
        invariant
            a <= s@.len(),
            strip_marks(s@.subrange(a as int, s@.len() as int)) == strip_marks(s@),
        decreases s@.len() - a,
    {
        proof {
            let t = s@.subrange(a as int, s@.len() as int);
            assert(t.subrange(1, t.len() as int) =~= s@.subrange(a + 1, s@.len() as int));
        }
        a += 1;
    }
    slice_vec(s, a, s.len())
}

/// The first word that names the command, once its marks are removed.
pub open spec fn command_position(tokens: Seq<Seq<char>>, command: Seq<char>) -> Option<int> {
    if exists|i: int| 0 <= i < tokens.len() && strip_marks(tokens[i]) == command && forall|j: int| 0 <= j < i ==> strip_marks(tokens[j]) != command {
        Some(choose|i: int| 0 <= i < tokens.len() && strip_marks(tokens[i]) == command && forall|j: int| 0 <= j < i ==> strip_marks(tokens[j]) != command)
    } else {
        None
    }
}

/// The program token of a command line (after its specifiers are expanded):
/// the command, or, when the command is an interpreter, the script it runs.
pub open spec fn program_token(exec: Seq<char>) -> Option<Seq<char>> {
    match crate::desktop::exec_program(exec) {
        Some(raw) => {
            let command = strip_marks(raw);
            let tokens = crate::desktop::exec_words(exec);
            let name = match path_file_name(command) {
                Some(n) => n,
                None => command,
            };
            match command_position(tokens, command) {
                Some(i) => if interpreter(name) {
                    match payload_from(name, tokens.subrange(i + 1, tokens.len() as int), 0, false) {
                        Some(p) => Some(p),
                        None => Some(command),
                    }
                } else {
                    Some(command)
                },
                None => Some(command),
            }
        },
        None => None,
    }
}

/// The program that a unit's or launcher's command line runs, before it is
/// looked up on the search path.
pub fn exec_program_token(exec: &str) -> (r: Option<String>)
    ensures
        opt_string_view(r) == program_token(exec@),
{
    let tokens = crate::desktop::exec_tokens(exec);
    let raw = match crate::desktop::desktop_exec_command(exec) {
        Some(r) => r,
        None => return None,
    };
    let rc = chars_of(raw.as_str());
    let command = strip_marks_chars(&rc);
    let ghost tv = crate::names::name_views(tokens@);
    let mut index: Option<usize> = None;
    let mut k: usize = 0;
    while k < tokens.len()
        invariant_except_break
            index is None,
        invariant
            tv == crate::names::name_views(tokens@),
            k <= tokens@.len(),
            forall|j: int| 0 <= j < k ==> strip_marks(tv[j]) != command@,
        ensures
            index matches Some(i) ==> i < tv.len() && strip_marks(tv[i as int]) == command@ && forall|j: int| 0 <= j < i ==> strip_marks(tv[j]) != command@,
            index is None ==> forall|j: int| 0 <= j < tv.len() ==> strip_marks(tv[j]) != command@,
        decreases tokens@.len() - k,
    {
        let t = chars_of(tokens[k].as_str());
        let st = strip_marks_chars(&t);
        proof {
            assert(tv[k as int] == tokens@[k as int]@);
        }
        if chars_eq(&st, &command) {
            index = Some(k);
            break;
        }
        k += 1;
    }
    let command_text = string_of(&command);
    let name = match file_name(command_text.as_str()) {
        Some(n) => n,
        None => command_text.clone(),
    };
    proof {
        match index {
            Some(i) => {
                let p = |x: int| 0 <= x < tv.len() && strip_marks(tv[x]) == command@ && forall|j: int| 0 <= j < x ==> strip_marks(tv[j]) != command@;
                assert(p(i as int));
                let c = choose|x: int| 0 <= x < tv.len() && strip_marks(tv[x]) == command@ && forall|j: int| 0 <= j < x ==> strip_marks(tv[j]) != command@;
                assert(p(c));
                if c < i { assert(strip_marks(tv[c]) != command@); }
                if i < c { assert(strip_marks(tv[i as int]) != command@); }
                assert(command_position(tv, command@) == Some(i as int));
            },
            None => {
                assert(command_position(tv, command@) is None);
            },
        }
    }
    if is_interpreter(name.as_str()) {
        match index {
            Some(i) => {
                let n = tokens.len();
                assert(tv.len() == n);
                assert(i < n);
                let rest = slice_strings(&tokens, i + 1);
                proof {
                    assert(crate::names::name_views(rest@) =~= tv.subrange(i + 1, tv.len() as int));
                }
                match interpreter_payload(name.as_str(), &rest) {
                    Some(p) => return Some(p),
                    None => {},
                }
            },
            None => {},
        }
    }
    Some(command_text)
}

/// The strings of `v` from position `from` on.
fn slice_strings(v: &Vec<String>, from: usize) -> (r: Vec<String>)
    requires
        from <= v@.len(),
    ensures
        r@.len() == v@.len() - from,
        forall|j: int| 0 <= j < r@.len() ==> #[trigger] r@[j]@ == v@[from + j]@,
{
    let mut r: Vec<String> = Vec::new();
    let mut k = from;
    while k < v.len()
        invariant
            from <= k <= v@.len(),
            r@.len() == k - from,
            forall|j: int| 0 <= j < r@.len() ==> #[trigger] r@[j]@ == v@[from + j]@,
        decreases v@.len() - k,
    {
        r.push(v[k].clone());
        k += 1;
    }
    r
}

/// Where a program found at `path` comes from and how it lives there: broken
/// links, toolchain directories, development trees, source checkouts (as
/// `checkout` judged them), `/opt`, scripts (`has_shebang`) and binaries.
pub open spec fn path_class(path: Seq<char>, broken: bool, checkout: Option<ProgramState>, has_shebang: bool) -> (InstallOrigin, ProgramState) {
    if broken {
        (InstallOrigin::Local, ProgramState { broken: true, ..ProgramState::clear() })
    } else if contains(path, "/.cargo/bin/"@) {
        (InstallOrigin::Cargo, ProgramState::clear())
    } else if contains(path, "node_modules"@) {
        (InstallOrigin::Npm, ProgramState::clear())
    } else if contains(path, "/.local/share/uv/"@) {
        (InstallOrigin::Uv, ProgramState::clear())
    } else if contains(path, "/Dev/"@) || contains(path, "/dev/"@) {
        (InstallOrigin::Local, ProgramState { dev: true, ..ProgramState::clear() })
    } else if contains(path, "/repos/"@) {
        (InstallOrigin::Local, match checkout {
            Some(st) => st,
            None => ProgramState { unclassified: true, ..ProgramState::clear() },
        })
    } else if starts_with(path, "/opt/"@) {
        (InstallOrigin::Local, ProgramState { opt: true, ..ProgramState::clear() })
    } else if has_shebang {
        (InstallOrigin::Local, ProgramState { script: true, ..ProgramState::clear() })
    } else {
        (InstallOrigin::Local, ProgramState { binary: true, ..ProgramState::clear() })
    }
}

/// Whether classifying `path` consults the source checkout around it.
pub open spec fn consults_checkout(path: Seq<char>, broken: bool) -> bool {
    !broken && !contains(path, "/.cargo/bin/"@) && !contains(path, "node_modules"@) && !contains(path, "/.local/share/uv/"@)
        && !contains(path, "/Dev/"@) && !contains(path, "/dev/"@) && contains(path, "/repos/"@)
}

pub fn checkout_needed(path: &str, broken: bool) -> (r: bool)
    ensures
        r == consults_checkout(path@, broken),
{
    let p = chars_of(path);
    !broken && !contains_lit(&p, "/.cargo/bin/") && !contains_lit(&p, "node_modules") && !contains_lit(&p, "/.local/share/uv/")
        && !contains_lit(&p, "/Dev/") && !contains_lit(&p, "/dev/") && contains_lit(&p, "/repos/")
}

/// The origin and state of a program found at `path`; `checkout` is what the
/// enclosing source checkout showed (when `checkout_needed` asked for it) and
/// `has_shebang` whether the file starts with `#!`.
pub fn classify_path(path: &str, broken: bool, checkout: Option<ProgramState>, has_shebang: bool) -> (r: (InstallOrigin, ProgramState))
    ensures
        r == path_class(path@, broken, checkout, has_shebang),
{
    let p = chars_of(path);
    if broken {
        (InstallOrigin::Local, ProgramState { broken: true, ..ProgramState::plain() })
    } else if contains_lit(&p, "/.cargo/bin/") {
        (InstallOrigin::Cargo, ProgramState::plain())
    } else if contains_lit(&p, "node_modules") {
        (InstallOrigin::Npm, ProgramState::plain())
    } else if contains_lit(&p, "/.local/share/uv/") {
        (InstallOrigin::Uv, ProgramState::plain())
    } else if contains_lit(&p, "/Dev/") || contains_lit(&p, "/dev/") {
        (InstallOrigin::Local, ProgramState { dev: true, ..ProgramState::plain() })
    } else if contains_lit(&p, "/repos/") {
        (InstallOrigin::Local, match checkout {
            Some(st) => st,
            None => ProgramState { unclassified: true, ..ProgramState::plain() },
        })
    } else if starts_lit(&p, "/opt/") {
        (InstallOrigin::Local, ProgramState { opt: true, ..ProgramState::plain() })
    } else if has_shebang {
        (InstallOrigin::Local, ProgramState { script: true, ..ProgramState::plain() })
    } else {
        (InstallOrigin::Local, ProgramState { binary: true, ..ProgramState::plain() })
    }
}

/// `r` is the least string of `v`, and none for an empty list.
pub open spec fn least_ok(v: Seq<Seq<char>>, r: Option<Seq<char>>) -> bool {
    &&& r is None <==> v.len() == 0
    &&& r matches Some(x) ==> v.contains(x) && forall|j: int| 0 <= j < v.len() ==> !#[trigger] chars_lt(v[j], x)
}

/// The least string of a list.
pub fn least_string(v: &Vec<String>) -> (r: Option<String>)
    ensures
        least_ok(crate::names::name_views(v@), opt_string_view(r)),
{
    let ghost names = crate::names::name_views(v@);
    if v.len() == 0 {
        return None;
    }
    let mut m: usize = 0;
    let mut j: usize = 1;
    proof {
        lemma_chars_lt_irrefl(v@[0]@);
    }
    while j < v.len()
        invariant
            m < j <= v@.len(),
            names == crate::names::name_views(v@),
            forall|x: int| 0 <= x < j ==> !#[trigger] chars_lt(names[x], names[m as int]),
        decreases v@.len() - j,
    {
        if str_less(v[j].as_str(), v[m].as_str()) {
            proof {
                assert forall|x: int| 0 <= x < j + 1 implies !#[trigger] chars_lt(names[x], names[j as int]) by {
                    lemma_chars_lt_irrefl(names[j as int]);
                    if x < j && chars_lt(names[x], names[j as int]) {
                        lemma_chars_lt_trans(names[x], names[j as int], names[m as int]);
                    }
                }
            }
            m = j;
        }
        j += 1;
    }
    proof {
        assert(names[m as int] == v@[m as int]@);
        assert(names.contains(names[m as int]));
    }
    Some(v[m].clone())
}

pub open spec fn has_shared_library(paths: Seq<&str>) -> bool {
    exists|j: int| 0 <= j < paths.len() && is_shared_library_file(#[trigger] paths[j]@)
}

/// The path that stands for a program: its one executable when that is
/// named like it; else, by what it offers, the least program its launchers
/// run (graphical), the least directory of its executables (command line),
/// the least program its services run (service), or its best shared
/// library (library); else the least program of its services, of its
/// launchers, the least directory of its executables, or its best owned
/// file.
pub open spec fn representative_ok(
    app: AppItem,
    owned_paths: Seq<&str>,
    is_dir: Seq<bool>,
    services: Seq<Seq<char>>,
    desktops: Seq<Seq<char>>,
    r: Option<Seq<char>>,
) -> bool {
    let bins = app.binaries@;
    let caps = app.capabilities;
    if bins.len() == 1 && bins[0].name@ == app.name@ {
        r == Some(bins[0].path@)
    } else if caps.has_gui && desktops.len() > 0 {
        least_ok(desktops, r)
    } else if caps.has_cli && bins.len() > 0 {
        least_dir_ok(bins, r)
    } else if caps.has_service && services.len() > 0 {
        least_ok(services, r)
    } else if caps.has_library && has_shared_library(owned_paths) {
        r is Some && best_library_ok(app.name@, owned_paths, r)
    } else if services.len() > 0 {
        least_ok(services, r)
    } else if desktops.len() > 0 {
        least_ok(desktops, r)
    } else if bins.len() > 0 {
        least_dir_ok(bins, r)
    } else {
        best_owned_ok(package_stem(app.name@), owned_paths, is_dir, r)
    }
}

/// The path that stands for a program among its package's files
/// (`is_dir` telling the directories), given the programs that its services
/// and its launchers run, as resolved.
pub fn representative_path(
    app: &AppItem,
    owned_paths: &[&str],
    is_dir: &[bool],
    service_commands: &Vec<String>,
    desktop_commands: &Vec<String>,
) -> (r: Option<String>)
    requires
        is_dir@.len() == owned_paths@.len(),
    ensures
        representative_ok(*app, owned_paths@, is_dir@, crate::names::name_views(service_commands@), crate::names::name_views(desktop_commands@), opt_string_view(r)),
{
    proof {
        assert(crate::names::name_views(service_commands@).len() == service_commands@.len());
        assert(crate::names::name_views(desktop_commands@).len() == desktop_commands@.len());
    }
    if app.binaries.len() == 1 && app.binaries[0].name == app.name {
        return Some(app.binaries[0].path.clone());
    }
    if app.capabilities.has_gui && desktop_commands.len() > 0 {
        return least_string(desktop_commands);
    }
    if app.capabilities.has_cli && app.binaries.len() > 0 {
        return binary_directory(&app.binaries);
    }
    if app.capabilities.has_service && service_commands.len() > 0 {
        return least_string(service_commands);
    }
    if app.capabilities.has_library {
        let library = best_shared_library_path(app.name.as_str(), owned_paths);
        if library.is_some() {
            proof {
                let j = choose|j: int| 0 <= j < owned_paths@.len() && is_shared_library_file(owned_paths@[j]@)
                    && opt_string_view(library)->0 == owned_paths@[j]@;
                assert(is_shared_library_file(owned_paths@[j]@));
            }
            return library;
        }
    }
    if service_commands.len() > 0 {
        return least_string(service_commands);
    }
    if desktop_commands.len() > 0 {
        return least_string(desktop_commands);
    }
    if app.binaries.len() > 0 {
        return binary_directory(&app.binaries);
    }
    best_owned_path(app.name.as_str(), owned_paths, is_dir)
}

pub open spec fn service_paths(app: AppItem) -> Seq<Seq<char>> {
    app.services@.map_values(|s: ServiceInfo| s.file_path@)
}

/// The representative path a program ends with: the chosen one; else, when
/// it has none yet, its package's database entry, or the least file of its
/// services, or nothing.
pub open spec fn assigned_path(app: AppItem, chosen: Option<Seq<char>>, database_path: Option<Seq<char>>, r: Seq<char>) -> bool {
    match chosen {
        Some(p) => r == p,
        None => if app.representative_path@.len() == 0 {
            match database_path {
                Some(d) => r == d,
                None => if service_paths(app).len() == 0 { r.len() == 0 } else { least_ok(service_paths(app), Some(r)) },
            }
        } else {
            r == app.representative_path@
        },
    }
}

/// Sets the program's representative path from the chosen one, falling back
/// as `assigned_path` says; nothing else of the program changes.
pub fn assign_representative_path(app: &mut AppItem, chosen: Option<String>, database_path: Option<String>)
    ensures
        assigned_path(*old(app), opt_string_view(chosen), opt_string_view(database_path), final(app).representative_path@),
        *final(app) == (AppItem { representative_path: final(app).representative_path, ..*old(app) }),
{
    match chosen {
        Some(p) => {
            app.representative_path = p;
        },
        None => {
            if app.representative_path.as_str().is_empty() {
                match database_path {
                    Some(d) => {
                        app.representative_path = d;
                    },
                    None => {
                        let mut paths: Vec<String> = Vec::new();
                        let mut k: usize = 0;
                        while k < app.services.len()
                            invariant
                                k <= app.services@.len(),
                                paths@.len() == k,
                                forall|q: int| 0 <= q < k ==> #[trigger] paths@[q]@ == app.services@[q].file_path@,
                            decreases app.services@.len() - k,
                        {
                            paths.push(app.services[k].file_path.clone());
                            k += 1;
                        }
                        proof {
                            assert(crate::names::name_views(paths@) =~= service_paths(*app));
                        }
                        match least_string(&paths) {
                            Some(p) => {
                                app.representative_path = p;
                            },
                            None => {
                                app.representative_path = String::new();
                            },
                        }
                    },
                }
            }
        },
    }
}

} // verus!
