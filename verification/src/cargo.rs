//! Reading Cargo's record of installed crates (`.crates.toml`): each entry
//! `"name version (source)" = ["bin", ...]`, on one line or spread over
//! several.
use crate::names::name_views;
use crate::pacman::strings_of;
use crate::text::{chars_of, find_first, first_at, find_seq, lines, lines_of, occurs_at, rsplit_once, rsplit_once_chars, slice_vec, split_char, split_chars, string_of, trim, trim_chars, views};
use vstd::prelude::*;

verus! {

/// One installed crate and the executables it put in Cargo's `bin` directory.
#[derive(Clone, Debug, PartialEq, Eq)]
pub struct CargoInstall {
    pub package: String,
    pub version: String,
    pub binaries: Vec<String>,
}

/// `str::split_once` with a string pattern.
pub open spec fn split_once_seq(s: Seq<char>, p: Seq<char>) -> Option<(Seq<char>, Seq<char>)> {
    match find_first(s, p) {
        Some(i) => Some((s.subrange(0, i), s.subrange(i + p.len(), s.len() as int))),
        None => None,
    }
}

pub fn split_once_on(s: &[char], p: &[char]) -> (r: Option<(Vec<char>, Vec<char>)>)
    ensures
        r matches Some(x) ==> split_once_seq(s@, p@) == Some((x.0@, x.1@)),
        r is None ==> split_once_seq(s@, p@) is None,
{
    match find_seq(s, p) {
        Some(i) => {
            proof {
                assert(first_at(s@, p@, i as int));
                let k = choose|k: int| first_at(s@, p@, k);
                assert(first_at(s@, p@, k));
                if k < i { assert(!occurs_at(s@, p@, k)); }
                if i < k { assert(!occurs_at(s@, p@, i as int)); }
            }
            let plen = p.len();
            let sl = s.len();
            assert(i + plen <= sl);
            Some((slice_vec(s, 0, i), slice_vec(s, i + plen, sl)))
        },
        None => {
            proof {
                assert(!exists|k: int| first_at(s@, p@, k));
            }
            None
        },
    }
}

/// `s` without leading characters `c`.
pub open spec fn strip_leading(s: Seq<char>, c: char) -> Seq<char>
    decreases s.len(),
{
    if s.len() > 0 && s[0] == c { strip_leading(s.subrange(1, s.len() as int), c) } else { s }
}

/// `s` without trailing characters `c`.
pub open spec fn strip_trailing(s: Seq<char>, c: char) -> Seq<char>
    decreases s.len(),
{
    if s.len() > 0 && s.last() == c { strip_trailing(s.drop_last(), c) } else { s }
}

/// `str::trim_matches` with one character.
pub open spec fn trim_matches(s: Seq<char>, c: char) -> Seq<char> {
    strip_trailing(strip_leading(s, c), c)
}

fn trim_matches_chars(s: &[char], c: char) -> (out: Vec<char>)
    ensures
        out@ == trim_matches(s@, c),
{
    let mut a: usize = 0;
    proof {
        assert(s@.subrange(0, s@.len() as int) =~= s@);
    }
    while a < s.len() && s[a] == c
        invariant
            a <= s@.len(),
            strip_leading(s@.subrange(a as int, s@.len() as int), c) == strip_leading(s@, c),
        decreases s@.len() - a,
    {
        proof {
            let t = s@.subrange(a as int, s@.len() as int);
            assert(t.subrange(1, t.len() as int) =~= s@.subrange(a + 1, s@.len() as int));
        }
        a += 1;
    }
    let rest = slice_vec(s, a, s.len());
    let mut e: usize = rest.len();
    proof {
        assert(rest@.subrange(0, e as int) =~= rest@);
    }
    while e > 0 && rest[e - 1] == c
        invariant
            e <= rest@.len(),
            strip_trailing(rest@.subrange(0, e as int), c) == strip_trailing(rest@, c),
        decreases e,
    {
        proof {
            let t = rest@.subrange(0, e as int);
            assert(t.drop_last() =~= rest@.subrange(0, e - 1));
        }
        e -= 1;
    }
    slice_vec(&rest, 0, e)
}

/// Package and version of a header `name version (source)`: the text before
/// ` (`, split at its last space.
pub open spec fn header_parts(header: Seq<char>) -> Option<(Seq<char>, Seq<char>)> {
    let pv = match split_once_seq(header, seq![' ', '(']) {
        Some(x) => x.0,
        None => header,
    };
    rsplit_once(pv, ' ')
}

/// The package and version named by an entry's header.
pub fn parse_header(header: &str) -> (r: Option<(String, String)>)
    ensures
        r matches Some(x) ==> header_parts(header@) == Some((x.0@, x.1@)),
        r is None ==> header_parts(header@) is None,
{
    let h = chars_of(header);
    match header_parts_of(&h) {
        Some((p, v)) => Some((string_of(&p), string_of(&v))),
        None => None,
    }
}

fn header_parts_of(h: &[char]) -> (r: Option<(Vec<char>, Vec<char>)>)
    ensures
        r matches Some(x) ==> header_parts(h@) == Some((x.0@, x.1@)),
        r is None ==> header_parts(h@) is None,
{
    let pat = [' ', '('];
    proof {
        assert(pat@ =~= seq![' ', '(']);
    }
    let pv = match split_once_on(h, &pat) {
        Some((prefix, _)) => prefix,
        None => slice_vec(h, 0, h.len()),
    };
    proof {
        assert(h@.subrange(0, h@.len() as int) =~= h@);
    }
    rsplit_once_chars(&pv, ' ')
}

/// The pieces of `value` inside double quotes: every second piece between `"`.
pub open spec fn quoted(value: Seq<char>) -> Seq<Seq<char>> {
    let pieces = split_char(value, '"');
    Seq::new(pieces.len() / 2, |k: int| pieces[2 * k + 1])
}

fn quoted_chars(value: &[char]) -> (r: Vec<Vec<char>>)
    ensures
        views(r@) == quoted(value@),
{
    let pieces = split_chars(value, '"');
    let ghost pv = views(pieces@);
    let mut r: Vec<Vec<char>> = Vec::new();
    let mut k: usize = 0;
    while k < pieces.len() / 2
        invariant
            pv == views(pieces@),
            k <= pieces@.len() / 2,
            r@.len() == k,
            forall|j: int| 0 <= j < k ==> #[trigger] r@[j]@ == pv[2 * j + 1],
        decreases pieces@.len() / 2 - k,
    {
        r.push(slice_vec(&pieces[2 * k + 1], 0, pieces[2 * k + 1].len()));
        proof {
            assert(pieces@[2 * k + 1]@.subrange(0, pieces@[2 * k + 1]@.len() as int) =~= pieces@[2 * k + 1]@);
        }
        k += 1;
    }
    proof {
        assert(views(r@) =~= quoted(value@));
    }
    r
}

/// The quoted values of `value`, such as the executables in `["a", "b"]`.
pub fn quoted_values(value: &str) -> (r: Vec<String>)
    ensures
        name_views(r@) == quoted(value@),
{
    let v = chars_of(value);
    let q = quoted_chars(&v);
    strings_of(&q)
}

/// An install as plain values: package, version, executables.
pub type InstallView = (Seq<char>, Seq<char>, Seq<Seq<char>>);

pub open spec fn install_view(i: CargoInstall) -> InstallView {
    (i.package@, i.version@, name_views(i.binaries@))
}

/// A line that opens an entry: it starts with `"`, holds ` = `, and its
/// header names a package and version; gives them with the values part.
pub open spec fn entry_header(line: Seq<char>) -> Option<(Seq<char>, Seq<char>, Seq<char>)> {
    if line.len() > 0 && line[0] == '"' {
        match split_once_seq(line, seq![' ', '=', ' ']) {
            Some(hv) => match header_parts(trim_matches(hv.0, '"')) {
                Some(pv) => Some((pv.0, pv.1, hv.1)),
                None => None,
            },
            None => None,
        }
    } else {
        None
    }
}

pub open spec fn closes(s: Seq<char>) -> bool {
    s.len() > 0 && s.last() == ']'
}

/// The finished entries and the entry still open after the line `line`.
pub open spec fn step(st: (Seq<InstallView>, Option<InstallView>), line: Seq<char>) -> (Seq<InstallView>, Option<InstallView>) {
    match entry_header(line) {
        Some(h) => {
            let entry = (h.0, h.1, quoted(h.2));
            if closes(h.2) { (st.0.push(entry), st.1) } else { (st.0, Some(entry)) }
        },
        None => match st.1 {
            Some(cur) => {
                let entry = (cur.0, cur.1, cur.2 + quoted(line));
                if closes(line) { (st.0.push(entry), None) } else { (st.0, Some(entry)) }
            },
            None => st,
        },
    }
}

/// The state after reading the (trimmed) lines `ls`.
pub open spec fn scan_state(ls: Seq<Seq<char>>) -> (Seq<InstallView>, Option<InstallView>)
    decreases ls.len(),
{
    if ls.len() == 0 {
        (Seq::empty(), None)
    } else {
        step(scan_state(ls.drop_last()), trim(ls.last()))
    }
}

/// The installs that the record lists, in order.
pub open spec fn installs_of(content: Seq<char>) -> Seq<InstallView> {
    scan_state(lines_of(content)).0
}

fn entry_header_of(line: &[char]) -> (r: Option<(Vec<char>, Vec<char>, Vec<char>)>)
    ensures
        r matches Some(x) ==> entry_header(line@) == Some((x.0@, x.1@, x.2@)),
        r is None ==> entry_header(line@) is None,
{
    if line.len() == 0 || line[0] != '"' {
        return None;
    }
    let pat = [' ', '=', ' '];
    proof {
        assert(pat@ =~= seq![' ', '=', ' ']);
    }
    match split_once_on(line, &pat) {
        Some((header, values)) => {
            let h = trim_matches_chars(&header, '"');
            match header_parts_of(&h) {
                Some((p, v)) => Some((p, v, values)),
                None => None,
            }
        },
        None => None,
    }
}

fn closes_chars(s: &[char]) -> (r: bool)
    ensures
        r == closes(s@),
{
    s.len() > 0 && s[s.len() - 1] == ']'
}

fn append_all(dst: &mut Vec<Vec<char>>, src: Vec<Vec<char>>)
    ensures
        views(final(dst)@) == views(old(dst)@) + views(src@),
{
    let ghost start = views(dst@);
    let mut i: usize = 0;
    let mut src = src;
    let ghost sv = views(src@);
    while i < src.len()
        invariant
            sv == views(src@),
            i <= src@.len(),
            views(dst@) == start + sv.subrange(0, i as int),
        decreases src@.len() - i,
    {
        let x = slice_vec(&src[i], 0, src[i].len());
        proof {
            assert(src@[i as int]@.subrange(0, src@[i as int]@.len() as int) =~= src@[i as int]@);
        }
        let ghost before = views(dst@);
        dst.push(x);
        i += 1;
        proof {
            assert(views(dst@) =~= before.push(sv[i - 1]));
            assert(start + sv.subrange(0, i as int) =~= start + sv.subrange(0, i - 1) + seq![sv[i - 1]]);
        }
    }
    proof {
        assert(sv.subrange(0, src@.len() as int) =~= sv);
    }
}

fn make_install(p: &Vec<char>, v: &Vec<char>, b: &Vec<Vec<char>>) -> (r: CargoInstall)
    ensures
        install_view(r) == (p@, v@, views(b@)),
{
    CargoInstall { package: string_of(p), version: string_of(v), binaries: strings_of(b) }
}

pub open spec fn installs_view(v: Seq<CargoInstall>) -> Seq<InstallView> {
    v.map_values(|i: CargoInstall| install_view(i))
}

/// The installs listed in Cargo's record of installed crates, in order.
pub fn parse_installs(content: &str) -> (r: Vec<CargoInstall>)
    ensures
        installs_view(r@) == installs_of(content@),
{
    let text = chars_of(content);
    let ls = lines(&text);
    let ghost lv = views(ls@);
    let mut installs: Vec<CargoInstall> = Vec::new();
    let mut current: Option<(Vec<char>, Vec<char>, Vec<Vec<char>>)> = None;
    let mut i: usize = 0;
    while i < ls.len()
        invariant
            lv == views(ls@),
            lv == lines_of(content@),
            i <= ls@.len(),
            installs_view(installs@) == scan_state(lv.subrange(0, i as int)).0,
            (match current {
                Some(c) => Some((c.0@, c.1@, views(c.2@))),
                None => None,
            }) == scan_state(lv.subrange(0, i as int)).1,
        decreases ls@.len() - i,
    {
        let ghost pre = lv.subrange(0, i + 1);
        proof {
            assert(pre.drop_last() =~= lv.subrange(0, i as int));
            assert(pre.last() == ls@[i as int]@);
        }
        let line = trim_chars(&ls[i]);
        let ghost old_installs = installs@;
        match entry_header_of(&line) {
            Some((p, v, values)) => {
                let bins = quoted_chars(&values);
                if closes_chars(&values) {
                    installs.push(make_install(&p, &v, &bins));
                    proof {
                        assert(installs_view(installs@) =~= installs_view(old_installs).push((p@, v@, views(bins@))));
                    }
                } else {
                    current = Some((p, v, bins));
                }
            },
            None => {
                let cur = current;
                current = match cur {
                    Some((p, v, b)) => {
                        let mut b = b;
                        let more = quoted_chars(&line);
                        append_all(&mut b, more);
                        if closes_chars(&line) {
                            installs.push(make_install(&p, &v, &b));
                            proof {
                                assert(installs_view(installs@) =~= installs_view(old_installs).push((p@, v@, views(b@))));
                            }
                            None
                        } else {
                            Some((p, v, b))
                        }
                    },
                    None => None,
                };
            },
        }
        i += 1;
    }
    proof {
        assert(lv.subrange(0, ls@.len() as int) =~= lv);
    }
    installs
}

/// An entry whose list of executables closes on its own line adds one
/// install, after the ones before, with the package and version of its
/// header and, as executables, every quoted name of the list, in order.
/// An open entry is left as it was.
pub proof fn lemma_one_line_entry_keeps_every_executable(st: (Seq<InstallView>, Option<InstallView>), line: Seq<char>)
    requires
        entry_header(line) is Some,
        closes(entry_header(line).unwrap().2),
    ensures
        ({
            let h = entry_header(line).unwrap();
            let next = step(st, line);
            &&& next.0.len() == st.0.len() + 1
            &&& next.0.subrange(0, st.0.len() as int) == st.0
            &&& next.0.last().0 == h.0
            &&& next.0.last().1 == h.1
            &&& next.0.last().2.len() == quoted(h.2).len()
            &&& forall|k: int| 0 <= k < quoted(h.2).len() ==> #[trigger] next.0.last().2[k] == quoted(h.2)[k]
            &&& next.1 == st.1
        }),
{
    let h = entry_header(line).unwrap();
    assert(step(st, line).0.subrange(0, st.0.len() as int) =~= st.0);
}

/// A line that continues an open entry adds every quoted name on it, in
/// order, after the executables read so far; when the line closes the list,
/// the entry becomes a finished install with all of them.
pub proof fn lemma_continued_entry_keeps_every_executable(st: (Seq<InstallView>, Option<InstallView>), line: Seq<char>)
    requires
        entry_header(line) is None,
        st.1 is Some,
    ensures
        ({
            let cur = st.1.unwrap();
            let next = step(st, line);
            let entry = (cur.0, cur.1, cur.2 + quoted(line));
            &&& entry.2.len() == cur.2.len() + quoted(line).len()
            &&& forall|k: int| 0 <= k < quoted(line).len() ==> #[trigger] entry.2[cur.2.len() + k] == quoted(line)[k]
            &&& closes(line) ==> next.0 == st.0.push(entry) && next.1 is None
            &&& !closes(line) ==> next.0 == st.0 && next.1 == Some(entry)
        }),
{
}

} // verus!
