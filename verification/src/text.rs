//! Character-sequence primitives used by the parsers: trimming, splitting into
//! lines and words, searching, and the conversions between `str`/`String` and
//! vectors of characters.
use vstd::prelude::*;

verus! {

/// `char::is_whitespace`: the characters with the Unicode `White_Space` property.
pub open spec fn is_ws(c: char) -> bool {
    let n = c as u32;
    (9 <= n <= 13) || n == 32 || n == 0x85 || n == 0xa0 || n == 0x1680
        || (0x2000 <= n <= 0x200a) || n == 0x2028 || n == 0x2029 || n == 0x202f
        || n == 0x205f || n == 0x3000
}

pub fn char_is_ws(c: char) -> (b: bool)
    ensures
        b == is_ws(c),
{
    let n = c as u32;
    (9 <= n && n <= 13) || n == 32 || n == 0x85 || n == 0xa0 || n == 0x1680 || (0x2000 <= n
        && n <= 0x200a) || n == 0x2028 || n == 0x2029 || n == 0x202f || n == 0x205f || n
        == 0x3000
}

/// Index of the first occurrence of `c` in `s`, if any.
pub open spec fn first_is(s: Seq<char>, c: char, i: int) -> bool {
    0 <= i < s.len() && s[i] == c && forall|j: int| 0 <= j < i ==> s[j] != c
}

pub open spec fn index_of(s: Seq<char>, c: char) -> Option<int> {
    if exists|i: int| first_is(s, c, i) {
        Some(choose|i: int| first_is(s, c, i))
    } else {
        None
    }
}

pub proof fn lemma_index_of_found(s: Seq<char>, c: char, i: int)
    requires
        first_is(s, c, i),
    ensures
        index_of(s, c) == Some(i),
{
    let k = choose|k: int| first_is(s, c, k);
    assert(first_is(s, c, k));
    if k < i {
        assert(s[k] != c);
    }
    if i < k {
        assert(s[i] != c);
    }
}

pub proof fn lemma_index_of_absent(s: Seq<char>, c: char)
    requires
        forall|j: int| 0 <= j < s.len() ==> s[j] != c,
    ensures
        index_of(s, c) is None,
{
}

/// First index at or after `from` holding `c`.
pub fn find_char_from(s: &[char], from: usize, c: char) -> (r: Option<usize>)
    requires
        from <= s@.len(),
    ensures
        match r {
            Some(i) => from <= i < s@.len() && s@[i as int] == c && forall|j: int|
                from <= j < i ==> s@[j] != c,
            None => forall|j: int| from <= j < s@.len() ==> s@[j] != c,
        },
{
    let mut i = from;
    while i < s.len()
        invariant
            from <= i <= s@.len(),
            forall|j: int| from <= j < i ==> s@[j] != c,
        decreases s@.len() - i,
    {
        if s[i] == c {
            return Some(i);
        }
        i += 1;
    }
    None
}

pub fn find_char(s: &[char], c: char) -> (r: Option<usize>)
    ensures
        r matches Some(i) ==> index_of(s@, c) == Some(i as int),
        r is None ==> index_of(s@, c) is None,
        r matches Some(i) ==> i < s@.len(),
{
    let r = find_char_from(s, 0, c);
    proof {
        if let Some(i) = r {
            lemma_index_of_found(s@, c, i as int);
        }
    }
    r
}

/// Number of leading whitespace characters.
pub open spec fn lead_ws(s: Seq<char>) -> int {
    if exists|i: int| 0 <= i < s.len() && !is_ws(s[i]) && forall|j: int| 0 <= j < i ==> is_ws(s[j]) {
        choose|i: int| 0 <= i < s.len() && !is_ws(s[i]) && forall|j: int| 0 <= j < i ==> is_ws(s[j])
    } else {
        s.len() as int
    }
}

/// Length of `s` once its trailing whitespace is removed.
pub open spec fn content_end(s: Seq<char>) -> int {
    if exists|i: int| 0 <= i < s.len() && !is_ws(s[i]) && forall|j: int| i < j < s.len() ==> is_ws(s[j]) {
        (choose|i: int| 0 <= i < s.len() && !is_ws(s[i]) && forall|j: int| i < j < s.len() ==> is_ws(s[j])) + 1
    } else {
        0
    }
}

/// `str::trim_start`
pub open spec fn trim_start(s: Seq<char>) -> Seq<char> {
    s.subrange(lead_ws(s), s.len() as int)
}

/// `str::trim_end`
pub open spec fn trim_end(s: Seq<char>) -> Seq<char> {
    s.subrange(0, content_end(s))
}

/// `str::trim`
pub open spec fn trim(s: Seq<char>) -> Seq<char> {
    trim_end(trim_start(s))
}

pub fn leading_ws_count(s: &[char]) -> (n: usize)
    ensures
        n == lead_ws(s@),
        n <= s@.len(),
{
    let mut i: usize = 0;
    while i < s.len()
        invariant
            i <= s@.len(),
            forall|j: int| 0 <= j < i ==> is_ws(s@[j]),
        decreases s@.len() - i,
    {
        if !char_is_ws(s[i]) {
            proof {
                let p = |k: int| 0 <= k < s@.len() && !is_ws(s@[k]) && forall|j: int| 0 <= j < k ==> is_ws(s@[j]);
                assert(p(i as int));
                let c = choose|k: int| 0 <= k < s@.len() && !is_ws(s@[k]) && forall|j: int| 0 <= j < k ==> is_ws(s@[j]);
                assert(p(c));
                if c < i { assert(is_ws(s@[c])); }
                if i < c { assert(is_ws(s@[i as int])); }
            }
            return i;
        }
        i += 1;
    }
    i
}

pub fn content_end_index(s: &[char]) -> (n: usize)
    ensures
        n == content_end(s@),
        n <= s@.len(),
{
    let mut e = s.len();
    while e > 0
        invariant
            e <= s@.len(),
            forall|j: int| e <= j < s@.len() ==> is_ws(s@[j]),
        decreases e,
    {
        if !char_is_ws(s[e - 1]) {
            proof {
                let i = e - 1;
                let p = |k: int| 0 <= k < s@.len() && !is_ws(s@[k]) && forall|j: int| k < j < s@.len() ==> is_ws(s@[j]);
                assert(p(i as int));
                let c = choose|k: int| 0 <= k < s@.len() && !is_ws(s@[k]) && forall|j: int| k < j < s@.len() ==> is_ws(s@[j]);
                assert(p(c));
                if c < i { assert(is_ws(s@[i as int])); }
                if i < c { assert(is_ws(s@[c])); }
            }
            return e;
        }
        e -= 1;
    }
    e
}

/// Copy of `s[from..to]`.
pub fn slice_vec(s: &[char], from: usize, to: usize) -> (out: Vec<char>)
    requires
        from <= to <= s@.len(),
    ensures
        out@ == s@.subrange(from as int, to as int),
{
    let mut out: Vec<char> = Vec::new();
    let mut i = from;
    while i < to
        invariant
            from <= i <= to <= s@.len(),
            out@ == s@.subrange(from as int, i as int),
        decreases to - i,
    {
        out.push(s[i]);
        i += 1;
        proof {
            assert(out@ =~= s@.subrange(from as int, i as int));
        }
    }
    out
}

pub fn trim_chars(s: &[char]) -> (out: Vec<char>)
    ensures
        out@ == trim(s@),
{
    let a = leading_ws_count(s);
    let rest = slice_vec(s, a, s.len());
    let e = content_end_index(&rest);
    slice_vec(&rest, 0, e)
}

} // verus!

verus! {

/// The views of a vector of character vectors.
pub open spec fn views(v: Seq<Vec<char>>) -> Seq<Seq<char>> {
    v.map_values(|x: Vec<char>| x@)
}

pub open spec fn starts_with(s: Seq<char>, p: Seq<char>) -> bool {
    p.len() <= s.len() && s.subrange(0, p.len() as int) == p
}

pub open spec fn ends_with(s: Seq<char>, p: Seq<char>) -> bool {
    p.len() <= s.len() && s.subrange(s.len() - p.len(), s.len() as int) == p
}

pub open spec fn occurs_at(s: Seq<char>, p: Seq<char>, i: int) -> bool {
    0 <= i && i + p.len() <= s.len() && s.subrange(i, i + p.len()) == p
}

/// `str::contains` with a string pattern.
pub open spec fn contains(s: Seq<char>, p: Seq<char>) -> bool {
    exists|i: int| occurs_at(s, p, i)
}

pub fn chars_eq(a: &[char], b: &[char]) -> (r: bool)
    ensures
        r == (a@ == b@),
{
    if a.len() != b.len() {
        return false;
    }
    let mut i: usize = 0;
    while i < a.len()
        invariant
            a@.len() == b@.len(),
            i <= a@.len(),
            forall|j: int| 0 <= j < i ==> a@[j] == b@[j],
        decreases a@.len() - i,
    {
        if a[i] != b[i] {
            return false;
        }
        i += 1;
    }
    assert(a@ =~= b@);
    true
}

/// Whether `p` occurs in `s` at position `at`.
pub fn matches_at(s: &[char], p: &[char], at: usize) -> (r: bool)
    ensures
        r == occurs_at(s@, p@, at as int),
{
    if at > s.len() || p.len() > s.len() - at {
        return false;
    }
    let mut i: usize = 0;
    while i < p.len()
        invariant
            at + p@.len() <= s@.len(),
            s@.len() == s.len(),
            i <= p@.len(),
            forall|j: int| 0 <= j < i ==> s@[at + j] == p@[j],
        decreases p@.len() - i,
    {
        if s[at + i] != p[i] {
            assert(s@.subrange(at as int, at + p@.len())[i as int] != p@[i as int]);
            return false;
        }
        i += 1;
    }
    assert(s@.subrange(at as int, at + p@.len()) =~= p@);
    true
}

pub fn has_prefix(s: &[char], p: &[char]) -> (r: bool)
    ensures
        r == starts_with(s@, p@),
{
    matches_at(s, p, 0)
}

pub fn has_suffix(s: &[char], p: &[char]) -> (r: bool)
    ensures
        r == ends_with(s@, p@),
{
    if p.len() > s.len() {
        return false;
    }
    matches_at(s, p, s.len() - p.len())
}

/// First position at which `p` occurs in `s`.
pub fn find_seq(s: &[char], p: &[char]) -> (r: Option<usize>)
    ensures
        r matches Some(i) ==> occurs_at(s@, p@, i as int) && forall|j: int| 0 <= j < i ==> !occurs_at(s@, p@, j),
        r is None ==> !contains(s@, p@),
{
    if p.len() > s.len() {
        return None;
    }
    let mut i: usize = 0;
    while p.len() <= s.len() - i
        invariant
            p@.len() <= s@.len(),
            s@.len() == s.len(),
            i <= s@.len(),
            forall|j: int| 0 <= j < i ==> !occurs_at(s@, p@, j),
        decreases s@.len() - i,
    {
        if matches_at(s, p, i) {
            return Some(i);
        }
        if i == s.len() {
            return None;
        }
        i += 1;
    }
    None
}

pub fn has_seq(s: &[char], p: &[char]) -> (r: bool)
    ensures
        r == contains(s@, p@),
{
    find_seq(s, p).is_some()
}

/// `str::strip_prefix`
pub open spec fn strip_prefix(s: Seq<char>, p: Seq<char>) -> Option<Seq<char>> {
    if starts_with(s, p) { Some(s.subrange(p.len() as int, s.len() as int)) } else { None }
}

/// `str::strip_suffix`
pub open spec fn strip_suffix(s: Seq<char>, p: Seq<char>) -> Option<Seq<char>> {
    if ends_with(s, p) { Some(s.subrange(0, s.len() - p.len())) } else { None }
}

pub fn strip_prefix_chars(s: &[char], p: &[char]) -> (r: Option<Vec<char>>)
    ensures
        r matches Some(v) ==> strip_prefix(s@, p@) == Some(v@),
        r is None ==> strip_prefix(s@, p@) is None,
{
    if has_prefix(s, p) {
        Some(slice_vec(s, p.len(), s.len()))
    } else {
        None
    }
}

pub fn strip_suffix_chars(s: &[char], p: &[char]) -> (r: Option<Vec<char>>)
    ensures
        r matches Some(v) ==> strip_suffix(s@, p@) == Some(v@),
        r is None ==> strip_suffix(s@, p@) is None,
{
    if has_suffix(s, p) {
        Some(slice_vec(s, 0, s.len() - p.len()))
    } else {
        None
    }
}

/// `str::split_once` with a single-character delimiter.
pub open spec fn split_once(s: Seq<char>, c: char) -> Option<(Seq<char>, Seq<char>)> {
    match index_of(s, c) {
        Some(i) => Some((s.subrange(0, i), s.subrange(i + 1, s.len() as int))),
        None => None,
    }
}

pub fn split_once_chars(s: &[char], c: char) -> (r: Option<(Vec<char>, Vec<char>)>)
    ensures
        r matches Some(p) ==> split_once(s@, c) == Some((p.0@, p.1@)),
        r is None ==> split_once(s@, c) is None,
{
    let n = s.len();
    match find_char(s, c) {
        Some(i) => Some((slice_vec(s, 0, i), slice_vec(s, i + 1, n))),
        None => None,
    }
}

/// Index of the last occurrence of `c` in `s`, if any.
pub open spec fn last_is(s: Seq<char>, c: char, i: int) -> bool {
    0 <= i < s.len() && s[i] == c && forall|j: int| i < j < s.len() ==> s[j] != c
}

pub open spec fn last_index_of(s: Seq<char>, c: char) -> Option<int> {
    if exists|i: int| last_is(s, c, i) {
        Some(choose|i: int| last_is(s, c, i))
    } else {
        None
    }
}

pub fn rfind_char(s: &[char], c: char) -> (r: Option<usize>)
    ensures
        r matches Some(i) ==> last_index_of(s@, c) == Some(i as int) && i < s@.len(),
        r is None ==> last_index_of(s@, c) is None,
{
    let mut e = s.len();
    while e > 0
        invariant
            e <= s@.len(),
            forall|j: int| e <= j < s@.len() ==> s@[j] != c,
        decreases e,
    {
        if s[e - 1] == c {
            proof {
                let i = (e - 1) as int;
                assert(last_is(s@, c, i));
                let k = choose|k: int| last_is(s@, c, k);
                assert(last_is(s@, c, k));
                if k < i { assert(s@[i] != c); }
                if i < k { assert(s@[k] != c); }
            }
            return Some(e - 1);
        }
        e -= 1;
    }
    None
}

/// `str::rsplit_once` with a single-character delimiter.
pub open spec fn rsplit_once(s: Seq<char>, c: char) -> Option<(Seq<char>, Seq<char>)> {
    match last_index_of(s, c) {
        Some(i) => Some((s.subrange(0, i), s.subrange(i + 1, s.len() as int))),
        None => None,
    }
}

pub fn rsplit_once_chars(s: &[char], c: char) -> (r: Option<(Vec<char>, Vec<char>)>)
    ensures
        r matches Some(p) ==> rsplit_once(s@, c) == Some((p.0@, p.1@)),
        r is None ==> rsplit_once(s@, c) is None,
{
    let n = s.len();
    match rfind_char(s, c) {
        Some(i) => Some((slice_vec(s, 0, i), slice_vec(s, i + 1, n))),
        None => None,
    }
}

/// `str::split` with a single-character delimiter.
pub open spec fn split_char(s: Seq<char>, c: char) -> Seq<Seq<char>>
    decreases s.len(),
{
    match index_of(s, c) {
        Some(i) => if 0 <= i < s.len() {
            seq![s.subrange(0, i)] + split_char(s.subrange(i + 1, s.len() as int), c)
        } else {
            seq![s]
        },
        None => seq![s],
    }
}

pub fn split_chars(s: &[char], c: char) -> (out: Vec<Vec<char>>)
    ensures
        views(out@) == split_char(s@, c),
{
    let mut out: Vec<Vec<char>> = Vec::new();
    let mut from: usize = 0;
    proof {
        assert(s@.subrange(0, s@.len() as int) =~= s@);
        assert(views(out@) =~= Seq::<Seq<char>>::empty());
        assert(views(out@) + split_char(s@, c) =~= split_char(s@, c));
    }
    loop
        invariant
            from <= s@.len(),
            s@.len() == s.len(),
            views(out@) + split_char(s@.subrange(from as int, s@.len() as int), c) == split_char(s@, c),
        decreases s@.len() - from,
    {
        let ghost t = s@.subrange(from as int, s@.len() as int);
        match find_char_from(s, from, c) {
            Some(i) => {
                proof {
                    assert(first_is(t, c, i - from)) by {
                        assert forall|j: int| 0 <= j < i - from implies t[j] != c by {
                            assert(t[j] == s@[from + j]);
                        }
                    }
                    lemma_index_of_found(t, c, i - from);
                    assert(t.subrange(0, i - from) =~= s@.subrange(from as int, i as int));
                    assert(t.subrange(i - from + 1, t.len() as int) =~= s@.subrange(i + 1, s@.len() as int));
                }
                let piece = slice_vec(s, from, i);
                let ghost before = out@;
                out.push(piece);
                proof {
                    assert(views(out@) =~= views(before).push(piece@));
                    assert(views(out@) + split_char(s@.subrange(i + 1, s@.len() as int), c) =~= views(before) + split_char(t, c));
                }
                from = i + 1;
            },
            None => {
                proof {
                    assert forall|j: int| 0 <= j < t.len() implies t[j] != c by {
                        assert(t[j] == s@[from + j]);
                    }
                    lemma_index_of_absent(t, c);
                }
                let piece = slice_vec(s, from, s.len());
                let ghost before = out@;
                out.push(piece);
                proof {
                    assert(views(out@) =~= views(before).push(piece@));
                    assert(views(out@) =~= views(before) + split_char(t, c));
                }
                return out;
            },
        }
    }
}

} // verus!

verus! {

pub open spec fn strip_cr(l: Seq<char>) -> Seq<char> {
    if l.len() > 0 && l[l.len() - 1] == '\r' { l.subrange(0, l.len() - 1) } else { l }
}

/// `str::lines`: the pieces between `'\n'` separators, without a final empty
/// piece, each with one trailing `'\r'` removed.
pub open spec fn lines_of(s: Seq<char>) -> Seq<Seq<char>> {
    let parts = split_char(s, '\n');
    let kept = if parts.len() > 0 && parts[parts.len() - 1].len() == 0 {
        parts.subrange(0, parts.len() - 1)
    } else {
        parts
    };
    kept.map_values(|l: Seq<char>| strip_cr(l))
}

pub fn strip_cr_chars(l: &[char]) -> (out: Vec<char>)
    ensures
        out@ == strip_cr(l@),
{
    let n = l.len();
    if n > 0 && l[n - 1] == '\r' {
        slice_vec(l, 0, n - 1)
    } else {
        slice_vec(l, 0, n)
    }
}

pub fn lines(s: &[char]) -> (out: Vec<Vec<char>>)
    ensures
        views(out@) == lines_of(s@),
{
    let parts = split_chars(s, '\n');
    let ghost pv = views(parts@);
    let mut keep = parts.len();
    if keep > 0 && parts[keep - 1].len() == 0 {
        keep = keep - 1;
    }
    let ghost kept = if pv.len() > 0 && pv[pv.len() - 1].len() == 0 {
        pv.subrange(0, pv.len() - 1)
    } else {
        pv
    };
    assert(kept.len() == keep);
    let mut out: Vec<Vec<char>> = Vec::new();
    let mut i: usize = 0;
    while i < keep
        invariant
            keep <= parts@.len(),
            pv == views(parts@),
            kept.len() == keep,
            forall|j: int| 0 <= j < keep ==> kept[j] == pv[j],
            i <= keep,
            views(out@) == kept.subrange(0, i as int).map_values(|l: Seq<char>| strip_cr(l)),
        decreases keep - i,
    {
        let piece = strip_cr_chars(&parts[i]);
        let ghost before = out@;
        out.push(piece);
        i += 1;
        proof {
            assert(views(out@) =~= views(before).push(piece@));
            assert(pv[i - 1] == parts@[i - 1]@);
            assert(views(out@) =~= kept.subrange(0, i as int).map_values(|l: Seq<char>| strip_cr(l)));
        }
    }
    assert(kept.subrange(0, keep as int) =~= kept);
    out
}

/// Index of the first whitespace character.
pub open spec fn ws_first(s: Seq<char>, i: int) -> bool {
    0 <= i < s.len() && is_ws(s[i]) && forall|j: int| 0 <= j < i ==> !is_ws(s[j])
}

pub open spec fn index_ws(s: Seq<char>) -> Option<int> {
    if exists|i: int| ws_first(s, i) {
        Some(choose|i: int| ws_first(s, i))
    } else {
        None
    }
}

/// `str::split_whitespace`: the non-empty pieces between whitespace characters.
pub open spec fn words(s: Seq<char>) -> Seq<Seq<char>>
    decreases s.len(),
{
    match index_ws(s) {
        Some(i) => if 0 <= i < s.len() {
            (if i == 0 { Seq::<Seq<char>>::empty() } else { seq![s.subrange(0, i)] }) + words(
                s.subrange(i + 1, s.len() as int),
            )
        } else {
            Seq::<Seq<char>>::empty()
        },
        None => if s.len() == 0 { Seq::<Seq<char>>::empty() } else { seq![s] },
    }
}

pub fn split_whitespace(s: &[char]) -> (out: Vec<Vec<char>>)
    ensures
        views(out@) == words(s@),
{
    let mut out: Vec<Vec<char>> = Vec::new();
    let mut from: usize = 0;
    proof {
        assert(s@.subrange(0, s@.len() as int) =~= s@);
        assert(views(out@) + words(s@) =~= words(s@));
    }
    loop
        invariant
            from <= s@.len(),
            s@.len() == s.len(),
            views(out@) + words(s@.subrange(from as int, s@.len() as int)) == words(s@),
        decreases s@.len() - from,
    {
        let ghost t = s@.subrange(from as int, s@.len() as int);
        let mut i = from;
        while i < s.len() && !char_is_ws(s[i])
            invariant
                from <= i <= s@.len(),
                s@.len() == s.len(),
                forall|j: int| from <= j < i ==> !is_ws(s@[j]),
            decreases s@.len() - i,
        {
            i += 1;
        }
        let ghost before = out@;
        if i < s.len() {
            proof {
                assert(ws_first(t, i - from)) by {
                    assert forall|j: int| 0 <= j < i - from implies !is_ws(t[j]) by {
                        assert(t[j] == s@[from + j]);
                    }
                }
                let k = choose|k: int| ws_first(t, k);
                assert(ws_first(t, k));
                if k < i - from { assert(t[k] == s@[from + k]); }
                if i - from < k { assert(!is_ws(t[i - from])); }
                assert(index_ws(t) == Some(i - from));
                assert(t.subrange(i - from + 1, t.len() as int) =~= s@.subrange(i + 1, s@.len() as int));
                assert(t.subrange(0, i - from) =~= s@.subrange(from as int, i as int));
            }
            if i > from {
                let piece = slice_vec(s, from, i);
                out.push(piece);
                proof {
                    assert(views(out@) =~= views(before).push(piece@));
                    assert(views(out@) + words(s@.subrange(i + 1, s@.len() as int)) =~= views(before) + words(t));
                }
            } else {
                proof {
                    assert(views(out@) + words(s@.subrange(i + 1, s@.len() as int)) =~= views(before) + words(t));
                }
            }
            from = i + 1;
        } else {
            proof {
                assert forall|j: int| 0 <= j < t.len() implies !is_ws(t[j]) by {
                    assert(t[j] == s@[from + j]);
                }
                assert(!exists|k: int| ws_first(t, k));
                assert(index_ws(t) is None);
            }
            if i > from {
                let piece = slice_vec(s, from, i);
                out.push(piece);
                proof {
                    assert(t =~= piece@);
                    assert(views(out@) =~= views(before).push(piece@));
                    assert(views(out@) =~= views(before) + words(t));
                }
            } else {
                proof {
                    assert(views(out@) =~= views(before) + words(t));
                }
            }
            return out;
        }
    }
}

/// The string made of the given characters.
#[verifier::external_body]
pub fn string_of(v: &[char]) -> (s: String)
    ensures
        s@ == v@,
{
    v.iter().collect()
}

} // verus!

verus! {

/// `v` followed by the characters of `s`.
pub fn push_str(v: &mut Vec<char>, s: &str)
    ensures
        final(v)@ == old(v)@ + s@,
{
    let cs = chars_of(s);
    push_chars(v, &cs);
}

/// `v` followed by the characters of `s`.
pub fn push_chars(v: &mut Vec<char>, s: &[char])
    ensures
        final(v)@ == old(v)@ + s@,
{
    let ghost start = v@;
    let mut i: usize = 0;
    while i < s.len()
        invariant
            i <= s@.len(),
            v@ == start + s@.subrange(0, i as int),
        decreases s@.len() - i,
    {
        v.push(s[i]);
        i += 1;
        proof {
            assert(v@ =~= start + s@.subrange(0, i as int));
        }
    }
    proof {
        assert(s@.subrange(0, s@.len() as int) =~= s@);
    }
}

/// The pieces of `list` separated by `sep`.
pub open spec fn join(list: Seq<Seq<char>>, sep: Seq<char>) -> Seq<char>
    decreases list.len(),
{
    if list.len() == 0 {
        Seq::empty()
    } else if list.len() == 1 {
        list[0]
    } else {
        join(list.subrange(0, list.len() - 1), sep) + sep + list[list.len() - 1]
    }
}

/// Every piece is non-empty and free of `c`.
pub open spec fn pieces_without(l: Seq<Seq<char>>, c: char) -> bool {
    forall|i: int| 0 <= i < l.len() ==> (#[trigger] l[i]).len() > 0 && !l[i].contains(c)
}

/// Non-empty pieces free of the separator's last character are told apart
/// by their join: the join gives them back.
pub proof fn lemma_join_injective(a: Seq<Seq<char>>, b: Seq<Seq<char>>, sep: Seq<char>)
    requires
        sep.len() > 0,
        pieces_without(a, sep.last()),
        pieces_without(b, sep.last()),
        join(a, sep) == join(b, sep),
    ensures
        a == b,
    decreases a.len() + b.len(),
{
    let c = sep.last();
    let s = join(a, sep);
    if a.len() == 0 || b.len() == 0 {
        if a.len() > 0 {
            assert(a[0].len() > 0);
            if a.len() >= 2 {
                assert(join(a, sep).len() >= sep.len());
            }
        }
        if b.len() > 0 {
            assert(b[0].len() > 0);
            if b.len() >= 2 {
                assert(join(b, sep).len() >= sep.len());
            }
        }
        assert(a =~= b);
    } else if a.len() == 1 || b.len() == 1 {
        if a.len() == 1 && b.len() == 1 {
            assert(a =~= b);
        } else if a.len() == 1 {
            let pb = b.subrange(0, b.len() - 1);
            let i = join(pb, sep).len() + sep.len() - 1;
            assert(s == join(pb, sep) + sep + b[b.len() - 1]);
            assert(s[i] == c);
            assert(a[0][i] == c);
            assert(a[0].contains(c));
        } else {
            let pa = a.subrange(0, a.len() - 1);
            let i = join(pa, sep).len() + sep.len() - 1;
            assert(s == join(pa, sep) + sep + a[a.len() - 1]);
            assert(s[i] == c);
            assert(b[0][i] == c);
            assert(b[0].contains(c));
        }
    } else {
        let pa = a.subrange(0, a.len() - 1);
        let pb = b.subrange(0, b.len() - 1);
        let la = a[a.len() - 1];
        let lb = b[b.len() - 1];
        assert(s == join(pa, sep) + sep + la);
        assert(s == join(pb, sep) + sep + lb);
        let n = s.len();
        if la.len() < lb.len() {
            let i = n - la.len() - 1;
            assert(s[i] == c);
            let k = i - (n - lb.len());
            assert(lb[k] == s[i]);
            assert(lb.contains(c));
        }
        if lb.len() < la.len() {
            let i = n - lb.len() - 1;
            assert(s[i] == c);
            let k = i - (n - la.len());
            assert(la[k] == s[i]);
            assert(la.contains(c));
        }
        assert(la.len() == lb.len());
        assert forall|k: int| 0 <= k < la.len() implies la[k] == lb[k] by {
            assert(la[k] == s[n - la.len() + k]);
            assert(lb[k] == s[n - lb.len() + k]);
        }
        assert(la =~= lb);
        assert(join(pa, sep).len() == join(pb, sep).len());
        assert forall|k: int| 0 <= k < join(pa, sep).len() implies join(pa, sep)[k] == join(pb, sep)[k] by {
            assert(join(pa, sep)[k] == s[k]);
            assert(join(pb, sep)[k] == s[k]);
        }
        assert(join(pa, sep) =~= join(pb, sep));
        assert(pieces_without(pa, c)) by {
            assert forall|i: int| 0 <= i < pa.len() implies (#[trigger] pa[i]).len() > 0 && !pa[i].contains(c) by {
                assert(pa[i] == a[i]);
            }
        }
        assert(pieces_without(pb, c)) by {
            assert forall|i: int| 0 <= i < pb.len() implies (#[trigger] pb[i]).len() > 0 && !pb[i].contains(c) by {
                assert(pb[i] == b[i]);
            }
        }
        lemma_join_injective(pa, pb, sep);
        assert(a =~= pa.push(la));
        assert(b =~= pb.push(lb));
    }
}

pub fn join_chars(list: &Vec<Vec<char>>, sep: &[char]) -> (out: Vec<char>)
    ensures
        out@ == join(views(list@), sep@),
{
    let mut out: Vec<char> = Vec::new();
    let mut i: usize = 0;
    while i < list.len()
        invariant
            i <= list@.len(),
            out@ == join(views(list@).subrange(0, i as int), sep@),
        decreases list@.len() - i,
    {
        let ghost before = out@;
        if i > 0 {
            push_chars(&mut out, sep);
        }
        push_chars(&mut out, &list[i]);
        i += 1;
        proof {
            let pieces = views(list@).subrange(0, i as int);
            assert(pieces.subrange(0, pieces.len() - 1) =~= views(list@).subrange(0, i - 1));
            assert(pieces[pieces.len() - 1] == list@[i - 1]@);
            if i == 1 {
                assert(before =~= Seq::<char>::empty());
                assert(out@ =~= join(pieces, sep@));
            }
        }
    }
    proof {
        assert(views(list@).subrange(0, list@.len() as int) =~= views(list@));
    }
    out
}

} // verus!

verus! {

/// The characters of a string slice, in order.
pub fn chars_of(s: &str) -> (out: Vec<char>)
    ensures
        out@ == s@,
{
    let mut out: Vec<char> = Vec::new();
    for c in it: s.chars()
        invariant
            out@ == it.seq().take(it.index() as int),
            it.seq() == s@,
    {
        out.push(c);
    }
    out
}

} // verus!

verus! {

/// `t` with `s` appended when `cond` holds.
pub open spec fn push_if(t: Seq<Seq<char>>, cond: bool, s: Seq<char>) -> Seq<Seq<char>> {
    if cond { t.push(s) } else { t }
}

/// Appends the characters of `s` as a new piece when `cond` holds.
pub fn push_piece_if(pieces: &mut Vec<Vec<char>>, cond: bool, s: &str)
    ensures
        views(final(pieces)@) == push_if(views(old(pieces)@), cond, s@),
{
    if cond {
        let ghost before = pieces@;
        pieces.push(chars_of(s));
        proof {
            assert(views(pieces@) =~= views(before).push(s@));
        }
    }
}

} // verus!

verus! {

/// `p` first occurs in `s` at position `i`.
pub open spec fn first_at(s: Seq<char>, p: Seq<char>, i: int) -> bool {
    occurs_at(s, p, i) && forall|j: int| 0 <= j < i ==> !occurs_at(s, p, j)
}

pub open spec fn find_first(s: Seq<char>, p: Seq<char>) -> Option<int> {
    if exists|i: int| first_at(s, p, i) {
        Some(choose|i: int| first_at(s, p, i))
    } else {
        None
    }
}

/// `str::split` with a non-empty string pattern.
pub open spec fn split_seq(s: Seq<char>, p: Seq<char>) -> Seq<Seq<char>>
    decreases s.len(),
{
    match find_first(s, p) {
        Some(i) => if 0 <= i && i + p.len() <= s.len() && p.len() > 0 {
            seq![s.subrange(0, i)] + split_seq(s.subrange(i + p.len(), s.len() as int), p)
        } else {
            seq![s]
        },
        None => seq![s],
    }
}

pub fn split_on(s: &[char], p: &[char]) -> (out: Vec<Vec<char>>)
    requires
        p@.len() > 0,
    ensures
        views(out@) == split_seq(s@, p@),
{
    let mut out: Vec<Vec<char>> = Vec::new();
    let mut rest = slice_vec(s, 0, s.len());
    proof {
        assert(rest@ =~= s@);
        assert(views(out@) + split_seq(rest@, p@) =~= split_seq(s@, p@));
    }
    loop
        invariant
            p@.len() > 0,
            views(out@) + split_seq(rest@, p@) == split_seq(s@, p@),
        decreases rest@.len(),
    {
        let ghost t = rest@;
        match find_seq(&rest, p) {
            Some(i) => {
                proof {
                    assert(first_at(t, p@, i as int));
                    let k = choose|k: int| first_at(t, p@, k);
                    assert(first_at(t, p@, k));
                    if k < i { assert(!occurs_at(t, p@, k)); }
                    if i < k { assert(!occurs_at(t, p@, i as int)); }
                    assert(find_first(t, p@) == Some(i as int));
                    assert(occurs_at(t, p@, i as int));
                    assert(i + p@.len() <= rest@.len());
                }
                let plen = p.len();
                let rl = rest.len();
                assert(i + plen <= rl);
                let piece = slice_vec(&rest, 0, i);
                let next = slice_vec(&rest, i + plen, rl);
                let ghost before = out@;
                out.push(piece);
                proof {
                    assert(views(out@) =~= views(before).push(piece@));
                    assert(views(out@) + split_seq(next@, p@) =~= views(before) + split_seq(t, p@));
                }
                rest = next;
            },
            None => {
                proof {
                    assert(!exists|k: int| first_at(t, p@, k));
                    assert(find_first(t, p@) is None);
                }
                let ghost before = out@;
                out.push(rest);
                proof {
                    assert(views(out@) =~= views(before).push(t));
                    assert(views(out@) =~= views(before) + split_seq(t, p@));
                }
                return out;
            },
        }
    }
}

/// `s` with each occurrence of `p`, found left to right without overlap,
/// replaced by `w` (`str::replace` with a non-empty pattern).
pub open spec fn replaced(s: Seq<char>, p: Seq<char>, w: Seq<char>) -> Seq<char> {
    join(split_seq(s, p), w)
}

pub fn replace_chars(s: &[char], p: &[char], w: &[char]) -> (out: Vec<char>)
    requires
        p@.len() > 0,
    ensures
        out@ == replaced(s@, p@, w@),
{
    let pieces = split_on(s, p);
    join_chars(&pieces, w)
}

} // verus!

verus! {

/// Whether `s` starts with the text `lit`.
pub fn starts_lit(s: &[char], lit: &str) -> (r: bool)
    ensures
        r == starts_with(s@, lit@),
{
    let p = chars_of(lit);
    has_prefix(s, &p)
}

/// Whether `s` ends with the text `lit`.
pub fn ends_lit(s: &[char], lit: &str) -> (r: bool)
    ensures
        r == ends_with(s@, lit@),
{
    let p = chars_of(lit);
    has_suffix(s, &p)
}

/// Whether `lit` occurs in `s`.
pub fn contains_lit(s: &[char], lit: &str) -> (r: bool)
    ensures
        r == contains(s@, lit@),
{
    let p = chars_of(lit);
    has_seq(s, &p)
}

/// Whether `s` is the text `lit`.
pub fn is_lit(s: &[char], lit: &str) -> (r: bool)
    ensures
        r == (s@ == lit@),
{
    let p = chars_of(lit);
    chars_eq(s, &p)
}

/// `s` after the text `lit`, when it starts with it.
pub fn strip_lit(s: &[char], lit: &str) -> (r: Option<Vec<char>>)
    ensures
        r matches Some(v) ==> strip_prefix(s@, lit@) == Some(v@),
        r is None ==> strip_prefix(s@, lit@) is None,
{
    let p = chars_of(lit);
    strip_prefix_chars(s, &p)
}

} // verus!

verus! {

/// Whether `c` occurs in `s`.
pub fn has_char(s: &[char], c: char) -> (r: bool)
    ensures
        r == s@.contains(c),
{
    let mut i: usize = 0;
    while i < s.len()
        invariant
            i <= s@.len(),
            forall|j: int| 0 <= j < i ==> s@[j] != c,
        decreases s@.len() - i,
    {
        if s[i] == c {
            proof {
                assert(s@[i as int] == c);
            }
            return true;
        }
        i += 1;
    }
    false
}

} // verus!

verus! {

/// The decimal digits of `n`.
pub open spec fn decimal(n: nat) -> Seq<char>
    decreases n,
{
    if n < 10 {
        seq![digit_char(n)]
    } else {
        decimal(n / 10).push(digit_char(n % 10))
    }
}

pub open spec fn digit_char(d: nat) -> char {
    if d == 0 { '0' } else if d == 1 { '1' } else if d == 2 { '2' } else if d == 3 { '3' } else if d == 4 { '4' }
    else if d == 5 { '5' } else if d == 6 { '6' } else if d == 7 { '7' } else if d == 8 { '8' } else { '9' }
}

fn digit_of(d: usize) -> (c: char)
    requires
        d < 10,
    ensures
        c == digit_char(d as nat),
{
    if d == 0 { '0' } else if d == 1 { '1' } else if d == 2 { '2' } else if d == 3 { '3' } else if d == 4 { '4' }
    else if d == 5 { '5' } else if d == 6 { '6' } else if d == 7 { '7' } else if d == 8 { '8' } else { '9' }
}

/// The decimal digits of `n`.
pub fn decimal_chars(n: usize) -> (out: Vec<char>)
    ensures
        out@ == decimal(n as nat),
    decreases n,
{
    if n < 10 {
        let mut v: Vec<char> = Vec::new();
        v.push(digit_of(n));
        proof {
            assert(v@ =~= seq![digit_char(n as nat)]);
        }
        v
    } else {
        let mut v = decimal_chars(n / 10);
        v.push(digit_of(n % 10));
        v
    }
}

} // verus!

verus! {

/// Splitting always gives at least one piece.
pub proof fn lemma_split_char_nonempty(s: Seq<char>, c: char)
    ensures
        split_char(s, c).len() >= 1,
    decreases s.len(),
{
    match index_of(s, c) {
        Some(i) => if 0 <= i < s.len() {
            assert(split_char(s, c) == seq![s.subrange(0, i)] + split_char(s.subrange(i + 1, s.len() as int), c));
        },
        None => {},
    }
}

} // verus!
