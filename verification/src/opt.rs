//! Manual installations under `/opt`: which directories the package manager
//! already owns, which executable launches an installation, what it is
//! called, whether it is graphical, and the version its files declare.
use crate::models::{AppItem, PackageCapabilities};
use crate::paths::{ascii_lowercase, ascii_lowercase_chars, components_in, component_count, eq_ignore_ascii_case, eq_ignore_case, file_name, is_ascii_alphanumeric, is_ascii_digit, normalize_chars, normalized_name, opt_string_view, path_file_name};
use crate::text::{chars_eq, chars_of, contains, contains_lit, ends_lit, ends_with, is_lit, lines, lines_of, split_char, split_chars, starts_lit, starts_with, string_of, strip_prefix, trim, trim_chars, views};
use vstd::prelude::*;

verus! {

/// A character allowed in a version: ASCII letters and digits, `.`, `-`, `_`, `+`.
pub open spec fn version_char(c: char) -> bool {
    is_ascii_alphanumeric(c) || c == '.' || c == '-' || c == '_' || c == '+'
}

/// The value of a line: after `application.version=`, `version=` or
/// `version:` when it starts with one, trimmed.
pub open spec fn line_value(line: Seq<char>) -> Seq<char> {
    let v = match strip_prefix(line, "application.version="@) {
        Some(v) => v,
        None => match strip_prefix(line, "version="@) {
            Some(v) => v,
            None => match strip_prefix(line, "version:"@) {
                Some(v) => v,
                None => line,
            },
        },
    };
    trim(v)
}

/// A plausible version: short, with a digit, of version characters only.
pub open spec fn plausible_version(v: Seq<char>) -> bool {
    &&& v.len() > 0
    &&& v.len() < 64
    &&& exists|i: int| 0 <= i < v.len() && is_ascii_digit(#[trigger] v[i])
    &&& forall|i: int| 0 <= i < v.len() ==> version_char(#[trigger] v[i])
}

/// The first plausible version among the lines of `ls`.
pub open spec fn first_version(ls: Seq<Seq<char>>) -> Option<Seq<char>>
    decreases ls.len(),
{
    if ls.len() == 0 {
        None
    } else {
        let v = line_value(trim(ls[0]));
        if plausible_version(v) { Some(v) } else { first_version(ls.subrange(1, ls.len() as int)) }
    }
}

fn line_value_chars(line: &[char]) -> (r: Vec<char>)
    ensures
        r@ == line_value(line@),
{
    match crate::text::strip_lit(line, "application.version=") {
        Some(v) => trim_chars(&v),
        None => match crate::text::strip_lit(line, "version=") {
            Some(v) => trim_chars(&v),
            None => match crate::text::strip_lit(line, "version:") {
                Some(v) => trim_chars(&v),
                None => trim_chars(line),
            },
        },
    }
}

fn is_plausible_version(v: &[char]) -> (r: bool)
    ensures
        r == plausible_version(v@),
{
    if v.len() == 0 || v.len() >= 64 {
        return false;
    }
    let mut has_digit = false;
    let mut i: usize = 0;
    while i < v.len()
        invariant
            i <= v@.len(),
            has_digit == exists|j: int| 0 <= j < i && is_ascii_digit(#[trigger] v@[j]),
            forall|j: int| 0 <= j < i ==> version_char(#[trigger] v@[j]),
        decreases v@.len() - i,
    {
        let c = v[i];
        if !(('0' <= c && c <= '9') || ('a' <= c && c <= 'z') || ('A' <= c && c <= 'Z') || c == '.' || c == '-' || c == '_' || c == '+') {
            return false;
        }
        if '0' <= c && c <= '9' {
            has_digit = true;
        }
        proof {
            if !has_digit {
                assert forall|j: int| 0 <= j < i + 1 implies !is_ascii_digit(#[trigger] v@[j]) by {}
            }
        }
        i += 1;
    }
    has_digit
}

/// The version that a version file or properties file declares: the first
/// line whose value looks like a version.
pub fn version_from_text(content: &str) -> (r: Option<String>)
    ensures
        opt_string_view(r) == first_version(lines_of(content@)),
{
    let text = chars_of(content);
    let ls = lines(&text);
    let ghost lv = views(ls@);
    let mut i: usize = 0;
    proof {
        assert(lv.subrange(0, lv.len() as int) =~= lv);
    }
    while i < ls.len()
        invariant
            lv == views(ls@),
            lv == lines_of(content@),
            i <= ls@.len(),
            first_version(lv) == first_version(lv.subrange(i as int, lv.len() as int)),
        decreases ls@.len() - i,
    {
        let line = trim_chars(&ls[i]);
        let v = line_value_chars(&line);
        proof {
            let t = lv.subrange(i as int, lv.len() as int);
            assert(t[0] == ls@[i as int]@);
            assert(t.subrange(1, t.len() as int) =~= lv.subrange(i + 1, lv.len() as int));
        }
        if is_plausible_version(&v) {
            return Some(string_of(&v));
        }
        i += 1;
    }
    proof {
        assert(lv.subrange(ls@.len() as int, lv.len() as int) =~= Seq::<Seq<char>>::empty());
    }
    None
}

/// `s` without trailing `-browser`s.
pub open spec fn without_browser(s: Seq<char>) -> Seq<char>
    decreases s.len(),
{
    if ends_with(s, "-browser"@) && s.len() >= "-browser"@.len() && "-browser"@.len() > 0 {
        without_browser(s.subrange(0, s.len() - "-browser"@.len()))
    } else {
        s
    }
}

fn without_browser_chars(s: &[char]) -> (r: Vec<char>)
    ensures
        r@ == without_browser(s@),
{
    let suffix = chars_of("-browser");
    proof {
        reveal_strlit("-browser");
    }
    let mut e = s.len();
    proof {
        assert(s@.subrange(0, e as int) =~= s@);
    }
    while e >= 8 && crate::text::has_suffix(&crate::text::slice_vec(s, 0, e), &suffix)
        invariant
            e <= s@.len(),
            suffix@ == "-browser"@,
            "-browser"@.len() == 8,
            without_browser(s@.subrange(0, e as int)) == without_browser(s@),
        decreases e,
    {
        proof {
            let t = s@.subrange(0, e as int);
            assert(t.subrange(0, t.len() - 8) =~= s@.subrange(0, e - 8));
        }
        e -= 8;
    }
    proof {
        if e < 8 {
            assert(!ends_with(s@.subrange(0, e as int), "-browser"@));
        }
    }
    crate::text::slice_vec(s, 0, e)
}

/// The name of an installation under `/opt`: its directory's name, except
/// for `chromium.org`, named after its launcher without `-browser`.
pub open spec fn installation_name(root_name: Seq<char>, launcher: Option<Seq<char>>) -> Seq<char> {
    if root_name == "chromium.org"@ {
        let n = match launcher {
            Some(l) => match path_file_name(l) {
                Some(n) => n,
                None => "chromium.org"@,
            },
            None => "chromium.org"@,
        };
        without_browser(n)
    } else {
        root_name
    }
}

pub fn opt_name(root_name: &str, launcher: Option<&str>) -> (r: String)
    ensures
        r@ == installation_name(root_name@, match launcher {
            Some(l) => Some(l@),
            None => None,
        }),
{
    let root = chars_of(root_name);
    if !is_lit(&root, "chromium.org") {
        return string_of(&root);
    }
    let n = match launcher {
        Some(l) => match file_name(l) {
            Some(n) => chars_of(n.as_str()),
            None => chars_of("chromium.org"),
        },
        None => chars_of("chromium.org"),
    };
    string_of(&without_browser_chars(&n))
}

/// Known graphical installations, or a launcher named `...-browser`.
pub open spec fn installation_is_gui(root_name: Seq<char>, launcher: Option<Seq<char>>) -> bool {
    ||| eq_ignore_ascii_case(root_name, "LeadDBS"@)
    ||| eq_ignore_ascii_case(root_name, "ghidra"@)
    ||| eq_ignore_ascii_case(root_name, "ocenaudio"@)
    ||| eq_ignore_ascii_case(root_name, "openrgb"@)
    ||| eq_ignore_ascii_case(root_name, "chromium.org"@)
    ||| match launcher {
        Some(l) => match path_file_name(l) {
            Some(n) => ends_with(n, "-browser"@),
            None => false,
        },
        None => false,
    }
}

pub fn opt_install_is_gui(root_name: &str, launcher: Option<&str>) -> (r: bool)
    ensures
        r == installation_is_gui(root_name@, match launcher {
            Some(l) => Some(l@),
            None => None,
        }),
{
    let root = chars_of(root_name);
    if eq_ignore_case(&root, &chars_of("LeadDBS")) || eq_ignore_case(&root, &chars_of("ghidra"))
        || eq_ignore_case(&root, &chars_of("ocenaudio")) || eq_ignore_case(&root, &chars_of("openrgb"))
        || eq_ignore_case(&root, &chars_of("chromium.org")) {
        return true;
    }
    match launcher {
        Some(l) => match file_name(l) {
            Some(n) => ends_lit(&chars_of(n.as_str()), "-browser"),
            None => false,
        },
        None => false,
    }
}

/// The directory under `/opt` that an owned path lies in, if any.
pub open spec fn opt_root(path: Seq<char>) -> Option<Seq<char>> {
    match strip_prefix(path, "/opt/"@) {
        Some(rest) => {
            let first = split_char(rest, '/')[0];
            if first.len() > 0 { Some(first) } else { None }
        },
        None => None,
    }
}

pub open spec fn opt_roots(paths: Seq<Seq<char>>) -> Seq<Seq<char>>
    decreases paths.len(),
{
    if paths.len() == 0 {
        Seq::empty()
    } else {
        crate::capabilities::push_some(opt_roots(paths.drop_last()), opt_root(paths.last()))
    }
}

/// The directories under `/opt` in which the package manager owns files
/// (from the owned paths, in order, possibly repeated).
pub fn package_owned_roots(owned_paths: &Vec<String>) -> (r: Vec<String>)
    ensures
        crate::names::name_views(r@) == opt_roots(crate::names::name_views(owned_paths@)),
{
    let ghost pv = crate::names::name_views(owned_paths@);
    let mut r: Vec<String> = Vec::new();
    let mut k: usize = 0;
    while k < owned_paths.len()
        invariant
            pv == crate::names::name_views(owned_paths@),
            k <= owned_paths@.len(),
            crate::names::name_views(r@) == opt_roots(pv.subrange(0, k as int)),
        decreases owned_paths@.len() - k,
    {
        proof {
            assert(pv.subrange(0, k + 1).drop_last() =~= pv.subrange(0, k as int));
            assert(pv.subrange(0, k + 1).last() == owned_paths@[k as int]@);
        }
        let p = chars_of(owned_paths[k].as_str());
        match crate::text::strip_lit(&p, "/opt/") {
            Some(rest) => {
                let parts = split_chars(&rest, '/');
                proof {
                    crate::text::lemma_split_char_nonempty(rest@, '/');
                    assert(views(parts@)[0] == parts@[0]@);
                }
                if parts[0].len() > 0 {
                    let ghost before = crate::names::name_views(r@);
                    r.push(string_of(&parts[0]));
                    proof {
                        assert(crate::names::name_views(r@) =~= before.push(parts@[0]@));
                    }
                }
            },
            None => {},
        }
        k += 1;
    }
    proof {
        assert(pv.subrange(0, owned_paths@.len() as int) =~= pv);
    }
    r
}

/// `s` without trailing `.sh`s.
pub open spec fn without_sh(s: Seq<char>) -> Seq<char>
    decreases s.len(),
{
    if ends_with(s, ".sh"@) && s.len() >= ".sh"@.len() && ".sh"@.len() > 0 {
        without_sh(s.subrange(0, s.len() - ".sh"@.len()))
    } else {
        s
    }
}

fn without_sh_chars(s: &[char]) -> (r: Vec<char>)
    ensures
        r@ == without_sh(s@),
{
    let suffix = chars_of(".sh");
    proof {
        reveal_strlit(".sh");
    }
    let mut e = s.len();
    proof {
        assert(s@.subrange(0, e as int) =~= s@);
    }
    while e >= 3 && crate::text::has_suffix(&crate::text::slice_vec(s, 0, e), &suffix)
        invariant
            e <= s@.len(),
            suffix@ == ".sh"@,
            ".sh"@.len() == 3,
            without_sh(s@.subrange(0, e as int)) == without_sh(s@),
        decreases e,
    {
        proof {
            let t = s@.subrange(0, e as int);
            assert(t.subrange(0, t.len() - 3) =~= s@.subrange(0, e - 3));
        }
        e -= 3;
    }
    proof {
        if e < 3 {
            assert(!ends_with(s@.subrange(0, e as int), ".sh"@));
        }
    }
    crate::text::slice_vec(s, 0, e)
}

/// How well an executable named `name` launches the installation whose
/// directory normalizes to `root`: uninstallers, sandboxes and libraries
/// never do; the installation's own name does best, then a name that
/// extends or shortens it, then runners and browsers, then anything else,
/// and designers, servers, services and crash handlers worst.
pub open spec fn launcher_score(root: Seq<char>, name: Seq<char>) -> Option<int> {
    let lower = ascii_lowercase(name);
    if contains(lower, "uninstall"@) || contains(lower, "sandbox"@) || ends_with(lower, ".so"@) || starts_with(lower, "lib"@) {
        None
    } else {
        let n = normalized_name(without_sh(name));
        Some(
            if n == root {
                100
            } else if starts_with(n, root) || starts_with(root, n) {
                85
            } else if ends_with(lower, "run"@) || ends_with(lower, "browser"@) {
                65
            } else if contains(lower, "designer"@) || contains(lower, "server"@) || contains(lower, "service"@) || contains(lower, "crash"@) {
                5
            } else {
                20
            },
        )
    }
}

/// The rank of an executable as a launcher: its score, then the shallower
/// path first.
pub open spec fn launcher_rank(root: Seq<char>, path: Seq<char>) -> Option<(int, int)> {
    match path_file_name(path) {
        Some(name) => match launcher_score(root, name) {
            Some(score) => Some((score, -(component_count(path) as int))),
            None => None,
        },
        None => None,
    }
}

pub open spec fn rank_le(a: (int, int), b: (int, int)) -> bool {
    a.0 < b.0 || (a.0 == b.0 && a.1 <= b.1)
}

pub open spec fn rank_lt(a: (int, int), b: (int, int)) -> bool {
    a.0 < b.0 || (a.0 == b.0 && a.1 < b.1)
}

/// The executable at `m` is the launcher of the installation `root_name`:
/// it ranks, no executable ranks higher, and none after it ranks as high.
pub open spec fn is_best_launcher(root_name: Seq<char>, paths: Seq<Seq<char>>, m: int) -> bool {
    let root = normalized_name(root_name);
    &&& 0 <= m < paths.len()
    &&& launcher_rank(root, paths[m]) is Some
    &&& forall|k: int| 0 <= k < paths.len() && (#[trigger] launcher_rank(root, paths[k])) is Some ==> {
        &&& rank_le(launcher_rank(root, paths[k])->0, launcher_rank(root, paths[m])->0)
        &&& (k > m ==> rank_lt(launcher_rank(root, paths[k])->0, launcher_rank(root, paths[m])->0))
    }
}

fn launcher_rank_of(root: &Vec<char>, path: &str) -> (r: Option<(u8, usize)>)
    ensures
        match r {
            Some(x) => launcher_rank(root@, path@) == Some((x.0 as int, -(x.1 as int))),
            None => launcher_rank(root@, path@) is None,
        },
{
    let name = match file_name(path) {
        Some(n) => chars_of(n.as_str()),
        None => return None,
    };
    let lower = ascii_lowercase_chars(&name);
    if contains_lit(&lower, "uninstall") || contains_lit(&lower, "sandbox") || ends_lit(&lower, ".so") || starts_lit(&lower, "lib") {
        return None;
    }
    let n = normalize_chars(&without_sh_chars(&name));
    let score: u8 = if chars_eq(&n, root) {
        100
    } else if crate::text::has_prefix(&n, root) || crate::text::has_prefix(root, &n) {
        85
    } else if ends_lit(&lower, "run") || ends_lit(&lower, "browser") {
        65
    } else if contains_lit(&lower, "designer") || contains_lit(&lower, "server") || contains_lit(&lower, "service") || contains_lit(&lower, "crash") {
        5
    } else {
        20
    };
    Some((score, components_in(path)))
}

/// The executable that launches the installation `root_name` under `/opt`,
/// among those found in it.
pub fn best_launcher(root_name: &str, executables: &Vec<String>) -> (r: Option<String>)
    ensures
        match r {
            Some(p) => exists|m: int| is_best_launcher(root_name@, crate::names::name_views(executables@), m) && p@ == executables@[m]@,
            None => forall|k: int| 0 <= k < executables@.len() ==> (#[trigger] launcher_rank(normalized_name(root_name@), executables@[k]@)) is None,
        },
{
    let ghost paths = crate::names::name_views(executables@);
    let root = normalize_chars(&chars_of(root_name));
    let mut best: Option<(usize, u8, usize)> = None;
    let mut i: usize = 0;
    while i < executables.len()
        invariant
            i <= executables@.len(),
            root@ == normalized_name(root_name@),
            paths == crate::names::name_views(executables@),
            match best {
                Some(b) => {
                    &&& b.0 < i
                    &&& launcher_rank(root@, paths[b.0 as int]) == Some((b.1 as int, -(b.2 as int)))
                    &&& forall|k: int| 0 <= k < i && (#[trigger] launcher_rank(root@, paths[k])) is Some ==> {
                        &&& rank_le(launcher_rank(root@, paths[k])->0, (b.1 as int, -(b.2 as int)))
                        &&& (k > b.0 ==> rank_lt(launcher_rank(root@, paths[k])->0, (b.1 as int, -(b.2 as int))))
                    }
                },
                None => forall|k: int| 0 <= k < i ==> (#[trigger] launcher_rank(root@, paths[k])) is None,
            },
        decreases executables@.len() - i,
    {
        proof {
            assert(paths[i as int] == executables@[i as int]@);
        }
        match launcher_rank_of(&root, executables[i].as_str()) {
            Some((score, depth)) => {
                let better = match best {
                    Some(b) => score > b.1 || (score == b.1 && depth <= b.2),
                    None => true,
                };
                if better {
                    best = Some((i, score, depth));
                }
            },
            None => {},
        }
        i += 1;
    }
    match best {
        Some(b) => {
            proof {
                assert(is_best_launcher(root_name@, paths, b.0 as int));
            }
            Some(executables[b.0].clone())
        },
        None => {
            proof {
                assert forall|k: int| 0 <= k < executables@.len() implies (#[trigger] launcher_rank(normalized_name(root_name@), executables@[k]@)) is None by {
                    assert(paths[k] == executables@[k]@);
                }
            }
            None
        },
    }
}

/// The installation is MATLAB's, by its directory's name compared without
/// regard to ASCII case.
pub open spec fn matlab_root(root_name: Seq<char>) -> bool {
    eq_ignore_ascii_case(root_name, "MATLAB"@)
}

pub fn is_matlab_root(root_name: &str) -> (r: bool)
    ensures
        r == matlab_root(root_name@),
{
    eq_ignore_case(&chars_of(root_name), &chars_of("MATLAB"))
}

/// The files inside an installation that may declare its version, in the
/// order they are read.
pub open spec fn version_file_list() -> Seq<Seq<char>> {
    seq![
        "VERSION"@,
        "version"@,
        "application.properties"@,
        "Ghidra/application.properties"@,
        "application/fsroot/LeadDBS/packages/leaddbs/CITATION.cff"@,
    ]
}

pub fn version_files() -> (r: Vec<String>)
    ensures
        crate::names::name_views(r@) == version_file_list(),
{
    let r = vec![
        "VERSION".to_string(),
        "version".to_string(),
        "application.properties".to_string(),
        "Ghidra/application.properties".to_string(),
        "application/fsroot/LeadDBS/packages/leaddbs/CITATION.cff".to_string(),
    ];
    proof {
        assert(crate::names::name_views(r@) =~= version_file_list());
    }
    r
}

/// The launcher and the name that an installation under `/opt` is filed
/// with: the MATLAB runtime has none and is called `MATLAB Runtime`; any
/// other takes its best launcher and the name that gives.
pub fn opt_program(root_name: &str, executables: &Vec<String>, matlab_runtime: bool) -> (r: (Option<String>, String))
    ensures
        matlab_runtime ==> r.0 is None && r.1@ == "MATLAB Runtime"@,
        !matlab_runtime ==> match r.0 {
            Some(p) => exists|m: int| is_best_launcher(root_name@, crate::names::name_views(executables@), m) && p@ == executables@[m]@,
            None => forall|k: int| 0 <= k < executables@.len() ==> (#[trigger] launcher_rank(normalized_name(root_name@), executables@[k]@)) is None,
        },
        !matlab_runtime ==> r.1@ == installation_name(root_name@, opt_string_view(r.0)),
{
    if matlab_runtime {
        (None, "MATLAB Runtime".to_string())
    } else {
        let launcher = best_launcher(root_name, executables);
        let name = match &launcher {
            Some(l) => opt_name(root_name, Some(l.as_str())),
            None => opt_name(root_name, None),
        };
        (launcher, name)
    }
}

/// The program filed for an installation under `/opt`, completed: its
/// place stands for it unless something already does (the runtime's
/// directory for MATLAB's), the MATLAB runtime offers a library, and a
/// graphical installation (`gui`) a graphical program.
#[verifier::spinoff_prover]
pub fn finish_opt_program(app: &mut AppItem, root: &str, matlab_runtime: bool, gui: bool)
    ensures
        *final(app) == (AppItem {
            representative_path: final(app).representative_path,
            capabilities: final(app).capabilities,
            ..*old(app)
        }),
        final(app).representative_path@ == (if old(app).representative_path@.len() > 0 {
            old(app).representative_path@
        } else if matlab_runtime {
            crate::executables::path_joined(root@, "MATLAB_Runtime"@)
        } else {
            root@
        }),
        final(app).capabilities == (if matlab_runtime {
            PackageCapabilities { has_library: true, ..old(app).capabilities }
        } else if gui {
            PackageCapabilities { has_gui: true, ..old(app).capabilities }
        } else {
            old(app).capabilities
        }),
{
    let path = if !app.representative_path.as_str().is_empty() {
        None
    } else if matlab_runtime {
        Some(crate::executables::join_path(root, "MATLAB_Runtime"))
    } else {
        Some(root.to_string())
    };
    match path {
        Some(p) => {
            app.representative_path = p;
        },
        None => {},
    }
    mark_opt_capabilities(&mut app.capabilities, matlab_runtime, gui);
}

fn mark_opt_capabilities(c: &mut PackageCapabilities, matlab_runtime: bool, gui: bool)
    ensures
        *final(c) == (if matlab_runtime {
            PackageCapabilities { has_library: true, ..*old(c) }
        } else if gui {
            PackageCapabilities { has_gui: true, ..*old(c) }
        } else {
            *old(c)
        }),
{
    if matlab_runtime {
        c.has_library = true;
    } else if gui {
        c.has_gui = true;
    }
}

/// What the walk through an installation under `/opt` learns of one entry of
/// a directory: its path, its kind (links not followed), and whether its
/// permissions let anyone execute it.
pub struct WalkEntry {
    pub path: String,
    pub is_dir: bool,
    pub is_symlink: bool,
    pub is_file: bool,
    pub executable: bool,
}

/// A walk, breadth first, through an installation under `/opt`: the
/// directories found, with their depth, in the order they are listed; how
/// many entries have been seen; the executables found; whether any file was
/// found; and whether the walk stopped at its limit on entries.
pub struct OptWalk {
    pub directories: Vec<(String, usize)>,
    pub listed: usize,
    pub seen: usize,
    pub executables: Vec<String>,
    pub has_files: bool,
    pub stopped: bool,
}

/// The most entries a walk looks at, and the deepest directory it lists.
pub open spec fn walk_entry_limit() -> int {
    1500
}

pub open spec fn walk_depth_limit() -> int {
    4
}

impl OptWalk {
    pub open spec fn well_formed(&self) -> bool {
        &&& self.listed <= self.directories@.len()
        &&& self.seen <= walk_entry_limit() + 1
        &&& self.directories@.len() <= self.seen + 1
        &&& (self.seen > walk_entry_limit() ==> self.stopped)
        &&& forall|k: int| 0 <= k < self.directories@.len() ==> (#[trigger] self.directories@[k]).1 <= walk_depth_limit()
    }

    /// A walk that has not begun: only the installation's directory, at depth 0.
    pub fn new(root: &str) -> (w: Self)
        ensures
            w.well_formed(),
            w.directories@.len() == 1,
            w.directories@[0].0@ == root@,
            w.directories@[0].1 == 0,
            w.listed == 0,
            w.seen == 0,
            w.executables@.len() == 0,
            !w.has_files,
            !w.stopped,
    {
        let mut directories: Vec<(String, usize)> = Vec::new();
        directories.push((root.to_string(), 0));
        OptWalk { directories, listed: 0, seen: 0, executables: Vec::new(), has_files: false, stopped: false }
    }

    /// The next directory to list with its depth, if the walk goes on.
    pub fn next_directory(&mut self) -> (r: Option<(String, usize)>)
        requires
            old(self).well_formed(),
        ensures
            final(self).well_formed(),
            old(self).stopped || old(self).listed == old(self).directories@.len() ==> r is None && *final(self) == *old(self),
            !(old(self).stopped || old(self).listed == old(self).directories@.len()) ==> {
                &&& r matches Some((path, depth)) && path@ == old(self).directories@[old(self).listed as int].0@
                    && depth == old(self).directories@[old(self).listed as int].1
                &&& *final(self) == (OptWalk { listed: (old(self).listed + 1) as usize, ..*old(self) })
            },
    {
        if self.stopped || self.listed == self.directories.len() {
            return None;
        }
        let (path, depth) = &self.directories[self.listed];
        let next = (path.clone(), *depth);
        self.listed = self.listed + 1;
        Some(next)
    }

    /// Takes in one entry of a directory listed at `depth`: the walk stops
    /// once it has seen more entries than its limit; a directory that is not
    /// a link is listed later when it lies above the depth limit; any other
    /// entry that is a file or a link counts as a file, and is kept when it
    /// is executable.
    pub fn observe(&mut self, depth: usize, entry: WalkEntry)
        requires
            old(self).well_formed(),
            depth <= walk_depth_limit(),
        ensures
            final(self).well_formed(),
            old(self).stopped ==> *final(self) == *old(self),
            !old(self).stopped ==> final(self).seen == old(self).seen + 1,
            !old(self).stopped && old(self).seen + 1 > walk_entry_limit() ==> *final(self) == (OptWalk { seen: final(self).seen, stopped: true, ..*old(self) }),
            !old(self).stopped && old(self).seen + 1 <= walk_entry_limit() ==> {
                &&& !final(self).stopped
                &&& final(self).listed == old(self).listed
                &&& if entry.is_dir && !entry.is_symlink && depth < walk_depth_limit() {
                    &&& final(self).directories@.len() == old(self).directories@.len() + 1
                    &&& final(self).directories@.subrange(0, old(self).directories@.len() as int) == old(self).directories@
                    &&& final(self).directories@.last().0@ == entry.path@
                    &&& final(self).directories@.last().1 == depth + 1
                    &&& final(self).executables@ == old(self).executables@
                    &&& final(self).has_files == old(self).has_files
                } else if !entry.is_file && !entry.is_symlink {
                    &&& final(self).directories@ == old(self).directories@
                    &&& final(self).executables@ == old(self).executables@
                    &&& final(self).has_files == old(self).has_files
                } else {
                    &&& final(self).directories@ == old(self).directories@
                    &&& final(self).has_files
                    &&& if entry.executable {
                        crate::names::name_views(final(self).executables@) == crate::names::name_views(old(self).executables@).push(entry.path@)
                    } else {
                        final(self).executables@ == old(self).executables@
                    }
                }
            },
    {
        if self.stopped {
            return;
        }
        self.seen = self.seen + 1;
        if self.seen > 1500 {
            self.stopped = true;
            return;
        }
        if entry.is_dir && !entry.is_symlink && depth < 4 {
            let ghost before = self.directories@;
            self.directories.push((entry.path, depth + 1));
            proof {
                assert(self.directories@.subrange(0, before.len() as int) =~= before);
            }
            return;
        }
        if !entry.is_file && !entry.is_symlink {
            return;
        }
        self.has_files = true;
        if entry.executable {
            let ghost before = self.executables@;
            self.executables.push(entry.path);
            proof {
                assert(crate::names::name_views(self.executables@) =~= crate::names::name_views(before).push(self.executables@.last()@));
            }
        }
    }
}

} // verus!
