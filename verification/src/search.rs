//! The parts of program search that do not rank text: which fields of a
//! program are searched and how much each counts, which relevance tier a
//! match falls in, and the exact index of relationship names that follows
//! the ranked matches.
use crate::models::AppItem;
use crate::names::name_views;
use crate::paths::{lowercase, to_lowercase};
use crate::text::{chars_eq, chars_of, contains, has_prefix, has_seq, join, join_chars, starts_with, string_of, trim, trim_chars, views};
use vstd::prelude::*;

verus! {

/// What `char::is_alphanumeric` says of a character (Unicode letters and
/// numbers).
pub uninterp spec fn alphanumeric(c: char) -> bool;

/// `char::is_alphanumeric`.
#[verifier::external_body]
fn is_alphanumeric(c: char) -> (r: bool)
    ensures
        r == alphanumeric(c),
{
    c.is_alphanumeric()
}

/// How closely a matched field agrees with the query: equal, a prefix, a
/// part of it, or only a fuzzy match.
pub open spec fn match_quality(field: Seq<char>, query: Seq<char>) -> int {
    if field == query {
        3
    } else if starts_with(field, query) {
        2
    } else if contains(field, query) {
        1
    } else {
        0
    }
}

/// The relevance tier of a match, higher first: names (priority 0) above
/// commands (priority 1), closer matches above looser ones, and any other
/// field last.
pub open spec fn tier(field_priority: u8, quality: int) -> u8 {
    if field_priority == 0 {
        if quality == 3 { 9 } else if quality == 2 { 8 } else if quality == 1 { 6 } else { 4 }
    } else if field_priority == 1 {
        if quality == 3 { 7 } else if quality == 2 { 5 } else if quality == 1 { 3 } else { 2 }
    } else {
        1
    }
}

/// The relevance tier of a match in `field` (of priority `field_priority`)
/// for the lower-cased query.
pub fn match_class(field: &str, query: &str, field_priority: u8) -> (r: u8)
    ensures
        r == tier(field_priority, match_quality(field@, query@)),
        r <= 9,
{
    let f = chars_of(field);
    let q = chars_of(query);
    let quality: u8 = if chars_eq(&f, &q) {
        3
    } else if has_prefix(&f, &q) {
        2
    } else if has_seq(&f, &q) {
        1
    } else {
        0
    };
    if field_priority == 0 {
        if quality == 3 { 9 } else if quality == 2 { 8 } else if quality == 1 { 6 } else { 4 }
    } else if field_priority == 1 {
        if quality == 3 { 7 } else if quality == 2 { 5 } else if quality == 1 { 3 } else { 2 }
    } else {
        1
    }
}

/// The runs of alphanumeric characters read so far, and the run in
/// progress.
pub open spec fn token_scan(s: Seq<char>) -> (Seq<Seq<char>>, Seq<char>)
    decreases s.len(),
{
    if s.len() == 0 {
        (Seq::empty(), Seq::empty())
    } else {
        let (tokens, current) = token_scan(s.drop_last());
        if alphanumeric(s.last()) {
            (tokens, current.push(s.last()))
        } else if current.len() > 0 {
            (tokens.push(current), Seq::empty())
        } else {
            (tokens, Seq::empty())
        }
    }
}

/// The runs of alphanumeric characters of `s`: its pieces between other
/// characters, the empty ones left out.
pub open spec fn alphanumeric_runs(s: Seq<char>) -> Seq<Seq<char>> {
    let (tokens, current) = token_scan(s);
    if current.len() > 0 { tokens.push(current) } else { tokens }
}

/// The name under which a relationship is found: its alphanumeric runs,
/// lower-cased, separated by single spaces.
pub open spec fn relationship_text(value: Seq<char>) -> Seq<char> {
    join(alphanumeric_runs(lowercase(trim(value))), " "@)
}

pub fn relationship_key(value: &str) -> (r: String)
    ensures
        r@ == relationship_text(value@),
{
    let trimmed = string_of(&trim_chars(&chars_of(value)));
    let lower = chars_of(to_lowercase(trimmed.as_str()).as_str());
    let mut tokens: Vec<Vec<char>> = Vec::new();
    let mut current: Vec<char> = Vec::new();
    let mut i: usize = 0;
    while i < lower.len()
        invariant
            i <= lower@.len(),
            (views(tokens@), current@) == token_scan(lower@.subrange(0, i as int)),
        decreases lower@.len() - i,
    {
        proof {
            assert(lower@.subrange(0, i + 1).drop_last() =~= lower@.subrange(0, i as int));
        }
        let c = lower[i];
        if is_alphanumeric(c) {
            current.push(c);
        } else if current.len() > 0 {
            let ghost before = views(tokens@);
            tokens.push(current);
            current = Vec::new();
            proof {
                assert(views(tokens@) =~= before.push(tokens@.last()@));
                assert(current@ =~= Seq::<char>::empty());
            }
        } else {
            proof {
                assert(current@ =~= Seq::<char>::empty());
            }
        }
        i += 1;
    }
    proof {
        assert(lower@.subrange(0, lower@.len() as int) =~= lower@);
    }
    if current.len() > 0 {
        let ghost before = views(tokens@);
        tokens.push(current);
        proof {
            assert(views(tokens@) =~= before.push(tokens@.last()@));
        }
    }
    let sep = chars_of(" ");
    string_of(&join_chars(&tokens, &sep))
}

/// The searched fields of a program, each with its priority: its name (0);
/// its commands and their link targets (1); its launchers' commands (1),
/// names (2) and comments (3); its description (3); its version, origin,
/// role, state, capabilities, URL and licenses (4).
pub open spec fn search_field_list(app: AppItem) -> Seq<(u8, Seq<char>)> {
    let name = seq![(0u8, app.name@)];
    let binaries = binary_fields(app.binaries@);
    let launchers = launcher_fields(app.desktop_entries@);
    let rest = seq![
        (3u8, app.desc@),
        (4u8, app.version@),
        (4u8, app.origin.label_text()),
        (4u8, app.install_role.label_text()),
        (4u8, crate::text::join(app.state.tags(), " · "@)),
        (4u8, crate::text::join(app.capabilities.tags(), " · "@)),
        (4u8, app.capabilities.role_text()),
        (4u8, app.url@),
        (4u8, app.licenses@),
    ];
    name + binaries + launchers + rest
}

pub open spec fn binary_fields(bins: Seq<crate::models::BinaryInfo>) -> Seq<(u8, Seq<char>)>
    decreases bins.len(),
{
    if bins.len() == 0 {
        Seq::empty()
    } else {
        let b = bins.last();
        let own = if b.target@.len() > 0 && b.target@ != b.name@ {
            seq![(1u8, b.name@), (1u8, b.target@)]
        } else {
            seq![(1u8, b.name@)]
        };
        binary_fields(bins.drop_last()) + own
    }
}

pub open spec fn launcher_fields(entries: Seq<crate::models::DesktopEntry>) -> Seq<(u8, Seq<char>)>
    decreases entries.len(),
{
    if entries.len() == 0 {
        Seq::empty()
    } else {
        let e = entries.last();
        launcher_fields(entries.drop_last()) + seq![(1u8, e.exec_line@), (2u8, e.name@), (3u8, e.comment@)]
    }
}

pub open spec fn field_views(v: Seq<(u8, String)>) -> Seq<(u8, Seq<char>)> {
    v.map_values(|f: (u8, String)| (f.0, f.1@))
}

fn push_field(fields: &mut Vec<(u8, String)>, priority: u8, value: &str)
    ensures
        field_views(final(fields)@) == field_views(old(fields)@).push((priority, value@)),
{
    fields.push((priority, value.to_string()));
    proof {
        assert(field_views(fields@) =~= field_views(old(fields)@).push((priority, value@)));
    }
}

/// The fields of a program that search looks at, in order, with their
/// priorities (lower counts more).
pub fn search_fields(app: &AppItem) -> (fields: Vec<(u8, String)>)
    ensures
        field_views(fields@) == search_field_list(*app),
{
    let mut fields: Vec<(u8, String)> = Vec::new();
    proof {
        assert(field_views(fields@) =~= Seq::<(u8, Seq<char>)>::empty());
    }
    push_field(&mut fields, 0, app.name.as_str());
    let ghost after_name = field_views(fields@);
    let mut i: usize = 0;
    while i < app.binaries.len()
        invariant
            i <= app.binaries@.len(),
            field_views(fields@) == after_name + binary_fields(app.binaries@.subrange(0, i as int)),
        decreases app.binaries@.len() - i,
    {
        proof {
            assert(app.binaries@.subrange(0, i + 1).drop_last() =~= app.binaries@.subrange(0, i as int));
        }
        let b = &app.binaries[i];
        let ghost before = field_views(fields@);
        push_field(&mut fields, 1, b.name.as_str());
        let tc = chars_of(b.target.as_str());
        if tc.len() > 0 && b.target != b.name {
            push_field(&mut fields, 1, b.target.as_str());
            proof {
                assert(field_views(fields@) =~= before + seq![(1u8, b.name@), (1u8, b.target@)]);
            }
        } else {
            proof {
                assert(field_views(fields@) =~= before + seq![(1u8, b.name@)]);
            }
        }
        i += 1;
    }
    proof {
        assert(app.binaries@.subrange(0, app.binaries@.len() as int) =~= app.binaries@);
    }
    let ghost after_binaries = field_views(fields@);
    let mut j: usize = 0;
    while j < app.desktop_entries.len()
        invariant
            j <= app.desktop_entries@.len(),
            field_views(fields@) == after_binaries + launcher_fields(app.desktop_entries@.subrange(0, j as int)),
        decreases app.desktop_entries@.len() - j,
    {
        proof {
            assert(app.desktop_entries@.subrange(0, j + 1).drop_last() =~= app.desktop_entries@.subrange(0, j as int));
        }
        let e = &app.desktop_entries[j];
        let ghost before = field_views(fields@);
        push_field(&mut fields, 1, e.exec_line.as_str());
        push_field(&mut fields, 2, e.name.as_str());
        push_field(&mut fields, 3, e.comment.as_str());
        proof {
            assert(field_views(fields@) =~= before + seq![(1u8, e.exec_line@), (2u8, e.name@), (3u8, e.comment@)]);
        }
        j += 1;
    }
    proof {
        assert(app.desktop_entries@.subrange(0, app.desktop_entries@.len() as int) =~= app.desktop_entries@);
    }
    let ghost after_launchers = field_views(fields@);
    push_field(&mut fields, 3, app.desc.as_str());
    push_field(&mut fields, 4, app.version.as_str());
    push_field(&mut fields, 4, app.origin.label());
    push_field(&mut fields, 4, app.install_role.label());
    push_field(&mut fields, 4, app.state.tag_summary().as_str());
    push_field(&mut fields, 4, app.capabilities.tag_summary().as_str());
    push_field(&mut fields, 4, app.capabilities.primary_role());
    push_field(&mut fields, 4, app.url.as_str());
    push_field(&mut fields, 4, app.licenses.as_str());
    proof {
        assert(field_views(fields@) =~= after_launchers + seq![
            (3u8, app.desc@),
            (4u8, app.version@),
            (4u8, app.origin.label_text()),
            (4u8, app.install_role.label_text()),
            (4u8, crate::text::join(app.state.tags(), " · "@)),
            (4u8, crate::text::join(app.capabilities.tags(), " · "@)),
            (4u8, app.capabilities.role_text()),
            (4u8, app.url@),
            (4u8, app.licenses@),
        ]);
    }
    fields
}

/// `r` lists the ranked programs, then, once each, those of `related` that
/// are not among them, in order.
pub open spec fn appended_once(ranked: Seq<usize>, related: Seq<usize>, r: Seq<usize>) -> bool {
    &&& r.len() >= ranked.len()
    &&& r.subrange(0, ranked.len() as int) == ranked
    &&& forall|x: usize| r.contains(x) <==> (ranked.contains(x) || related.contains(x))
    &&& r.subrange(ranked.len() as int, r.len() as int).no_duplicates()
    &&& forall|k: int| ranked.len() <= k < r.len() ==> !ranked.contains(#[trigger] r[k])
}

pub proof fn lemma_push_has<T>(s: Seq<T>, y: T, x: T)
    ensures
        s.push(y).contains(x) <==> (s.contains(x) || y == x),
{
    if s.push(y).contains(x) {
        let k = choose|k: int| 0 <= k < s.len() + 1 && s.push(y)[k] == x;
        if k < s.len() {
            assert(s[k] == x);
        }
    }
    if s.contains(x) {
        let k = choose|k: int| 0 <= k < s.len() && s[k] == x;
        assert(s.push(y)[k] == x);
    }
    if y == x {
        assert(s.push(y)[s.len() as int] == x);
    }
}

fn has_index(v: &Vec<usize>, x: usize) -> (b: bool)
    ensures
        b == v@.contains(x),
{
    let mut k: usize = 0;
    while k < v.len()
        invariant
            k <= v@.len(),
            forall|q: int| 0 <= q < k ==> v@[q] != x,
        decreases v@.len() - k,
    {
        if v[k] == x {
            proof {
                assert(v@[k as int] == x);
            }
            return true;
        }
        k += 1;
    }
    false
}

/// The ranked matches followed by the programs that have the query as an
/// exact relationship, each added once.
pub fn append_relationship_matches(ranked: Vec<usize>, related: &Vec<usize>) -> (r: Vec<usize>)
    ensures
        appended_once(ranked@, related@, r@),
{
    let ghost first = ranked@;
    let mut r = ranked;
    let mut i: usize = 0;
    proof {
        assert(r@.subrange(0, first.len() as int) =~= first);
        assert(r@.subrange(first.len() as int, r@.len() as int) =~= Seq::<usize>::empty());
    }
    while i < related.len()
        invariant
            i <= related@.len(),
            r@.len() >= first.len(),
            r@.subrange(0, first.len() as int) == first,
            forall|x: usize| #[trigger] r@.contains(x) <==> (first.contains(x) || related@.subrange(0, i as int).contains(x)),
            r@.subrange(first.len() as int, r@.len() as int).no_duplicates(),
            forall|k: int| first.len() <= k < r@.len() ==> !first.contains(#[trigger] r@[k]),
        decreases related@.len() - i,
    {
        let x = related[i];
        let seen = has_index(&r, x);
        let ghost before = r@;
        proof {
            assert(related@.subrange(0, i + 1) =~= related@.subrange(0, i as int).push(x));
            assert(seen == before.contains(x));
        }
        if !seen {
            r.push(x);
            proof {
                assert(r@.subrange(0, first.len() as int) =~= before.subrange(0, first.len() as int));
                assert(r@.subrange(first.len() as int, r@.len() as int) =~= before.subrange(first.len() as int, before.len() as int).push(x));
                assert(r@ =~= before.push(x));
                assert forall|y: usize| #[trigger] r@.contains(y) <==> (first.contains(y) || related@.subrange(0, i + 1).contains(y)) by {
                    lemma_push_has(before, x, y);
                    lemma_push_has(related@.subrange(0, i as int), x, y);
                    assert(r@.contains(y) == before.push(x).contains(y));
                    assert(before.contains(y) <==> (first.contains(y) || related@.subrange(0, i as int).contains(y)));
                    assert(related@.subrange(0, i + 1).contains(y) == related@.subrange(0, i as int).push(x).contains(y));
                }
                let tail = before.subrange(first.len() as int, before.len() as int);
                assert(!tail.contains(x)) by {
                    if tail.contains(x) {
                        let q = choose|q: int| 0 <= q < tail.len() && tail[q] == x;
                        assert(before[first.len() + q] == x);
                    }
                }
                assert forall|a: int, b: int| 0 <= a < b < tail.len() + 1 implies tail.push(x)[a] != tail.push(x)[b] by {
                    if b == tail.len() {
                        assert(tail.push(x)[a] == tail[a]);
                        assert(tail.contains(tail[a]));
                    }
                }
                assert(!first.contains(x)) by {
                    if first.contains(x) {
                        let q = choose|q: int| 0 <= q < first.len() && first[q] == x;
                        assert(before.subrange(0, first.len() as int)[q] == x);
                        assert(before[q] == x);
                    }
                }
            }
        } else {
            proof {
                assert forall|y: usize| #[trigger] r@.contains(y) <==> (first.contains(y) || related@.subrange(0, i + 1).contains(y)) by {
                    lemma_push_has(related@.subrange(0, i as int), x, y);
                }
            }
        }
        i += 1;
    }
    proof {
        assert(related@.subrange(0, related@.len() as int) =~= related@);
    }
    r
}

/// A program's relationships: the packages it depends on, then those that
/// require it.
pub open spec fn relationships_of(app: AppItem) -> Seq<Seq<char>> {
    name_views(app.depends_on@) + name_views(app.required_by@)
}

/// The relationship names of one program, each with the program's
/// position; names without any alphanumeric run are left out.
pub open spec fn program_pairs(rels: Seq<Seq<char>>, i: usize) -> Seq<(Seq<char>, usize)>
    decreases rels.len(),
{
    if rels.len() == 0 {
        Seq::empty()
    } else {
        let rest = program_pairs(rels.drop_last(), i);
        let key = relationship_text(rels.last());
        if key.len() > 0 { rest.push((key, i)) } else { rest }
    }
}

/// The relationship names of all programs, program by program.
pub open spec fn relationship_pairs(apps: Seq<AppItem>) -> Seq<(Seq<char>, usize)>
    decreases apps.len(),
{
    if apps.len() == 0 {
        Seq::empty()
    } else {
        relationship_pairs(apps.drop_last()) + program_pairs(relationships_of(apps.last()), (apps.len() - 1) as usize)
    }
}

/// The positions recorded under `key`, in order.
pub open spec fn positions_for(pairs: Seq<(Seq<char>, usize)>, key: Seq<char>) -> Seq<usize>
    decreases pairs.len(),
{
    if pairs.len() == 0 {
        Seq::empty()
    } else {
        let rest = positions_for(pairs.drop_last(), key);
        if pairs.last().0 == key { rest.push(pairs.last().1) } else { rest }
    }
}

/// `entries` index `pairs`: each name once, with the positions recorded
/// under it, and every recorded name present.
pub open spec fn index_ok(entries: Seq<(String, Vec<usize>)>, pairs: Seq<(Seq<char>, usize)>) -> bool {
    &&& forall|k: int| 0 <= k < entries.len() ==> (#[trigger] entries[k]).1@ == positions_for(pairs, entries[k].0@)
    &&& forall|k: int, l: int| 0 <= k < l < entries.len() ==> (#[trigger] entries[k]).0@ != (#[trigger] entries[l]).0@
    &&& forall|key: Seq<char>| #[trigger] positions_for(pairs, key).len() > 0 ==> exists|k: int| 0 <= k < entries.len() && (#[trigger] entries[k]).0@ == key
}

/// The exact index of relationship names: which programs name each
/// dependency or dependent.
pub struct RelationshipIndex {
    pub entries: Vec<(String, Vec<usize>)>,
}

proof fn lemma_positions_push(pairs: Seq<(Seq<char>, usize)>, p: (Seq<char>, usize), key: Seq<char>)
    ensures
        positions_for(pairs.push(p), key) == (if p.0 == key { positions_for(pairs, key).push(p.1) } else { positions_for(pairs, key) }),
{
    assert(pairs.push(p).drop_last() =~= pairs);
}

fn find_entry(entries: &Vec<(String, Vec<usize>)>, key: &String) -> (r: Option<usize>)
    ensures
        match r {
            Some(m) => m < entries@.len() && entries@[m as int].0@ == key@,
            None => forall|k: int| 0 <= k < entries@.len() ==> (#[trigger] entries@[k]).0@ != key@,
        },
{
    let mut m: usize = 0;
    while m < entries.len()
        invariant
            m <= entries@.len(),
            forall|k: int| 0 <= k < m ==> (#[trigger] entries@[k]).0@ != key@,
        decreases entries@.len() - m,
    {
        if entries[m].0 == *key {
            return Some(m);
        }
        m += 1;
    }
    None
}

fn push_position(entry: &mut (String, Vec<usize>), i: usize)
    ensures
        final(entry).0 == old(entry).0,
        final(entry).1@ == old(entry).1@.push(i),
{
    entry.1.push(i);
}

/// Records `i` under `key` in the index.
fn record_position(entries: &mut Vec<(String, Vec<usize>)>, key: String, i: usize, Ghost(pairs): Ghost<Seq<(Seq<char>, usize)>>)
    requires
        key@.len() > 0,
        index_ok(old(entries)@, pairs),
    ensures
        index_ok(final(entries)@, pairs.push((key@, i))),
{
    let ghost p = (key@, i);
    match find_entry(entries, &key) {
        Some(m) => {
            let ghost before = entries@;
            push_position(&mut entries[m], i);
            proof {
                assert forall|k: int| 0 <= k < entries@.len() implies (#[trigger] entries@[k]).1@ == positions_for(pairs.push(p), entries@[k].0@) by {
                    lemma_positions_push(pairs, p, entries@[k].0@);
                    if k != m {
                        assert(entries@[k] == before[k]);
                        assert(before[k].0@ != before[m as int].0@ || k == m);
                    }
                }
                assert forall|k: int, l: int| 0 <= k < l < entries@.len() implies (#[trigger] entries@[k]).0@ != (#[trigger] entries@[l]).0@ by {
                    assert(before[k].0@ != before[l].0@);
                }
                assert forall|q: Seq<char>| #[trigger] positions_for(pairs.push(p), q).len() > 0 implies exists|k: int| 0 <= k < entries@.len() && (#[trigger] entries@[k]).0@ == q by {
                    lemma_positions_push(pairs, p, q);
                    if q == key@ {
                        assert(entries@[m as int].0@ == q);
                    } else {
                        assert(positions_for(pairs, q).len() > 0);
                        let k = choose|k: int| 0 <= k < before.len() && (#[trigger] before[k]).0@ == q;
                        assert(entries@[k].0@ == q);
                    }
                }
            }
        },
        None => {
            let ghost before = entries@;
            proof {
                lemma_positions_push(pairs, p, key@);
                if positions_for(pairs, key@).len() > 0 {
                    let k = choose|k: int| 0 <= k < before.len() && (#[trigger] before[k]).0@ == key@;
                    assert(before[k].0@ != key@);
                }
            }
            entries.push((key, vec![i]));
            proof {
                assert(entries@[before.len() as int].1@ =~= seq![i]);
                assert(positions_for(pairs, p.0) =~= Seq::<usize>::empty());
                assert forall|k: int| 0 <= k < entries@.len() implies (#[trigger] entries@[k]).1@ == positions_for(pairs.push(p), entries@[k].0@) by {
                    lemma_positions_push(pairs, p, entries@[k].0@);
                    if k < before.len() {
                        assert(entries@[k] == before[k]);
                        assert(before[k].0@ != p.0);
                    } else {
                        assert(Seq::<usize>::empty().push(i) =~= seq![i]);
                    }
                }
                assert forall|k: int, l: int| 0 <= k < l < entries@.len() implies (#[trigger] entries@[k]).0@ != (#[trigger] entries@[l]).0@ by {
                    if l < before.len() {
                        assert(before[k].0@ != before[l].0@);
                    } else {
                        assert(entries@[k] == before[k]);
                    }
                }
                assert forall|q: Seq<char>| #[trigger] positions_for(pairs.push(p), q).len() > 0 implies exists|k: int| 0 <= k < entries@.len() && (#[trigger] entries@[k]).0@ == q by {
                    lemma_positions_push(pairs, p, q);
                    if q == p.0 {
                        assert(entries@[before.len() as int].0@ == q);
                    } else {
                        let k = choose|k: int| 0 <= k < before.len() && (#[trigger] before[k]).0@ == q;
                        assert(entries@[k].0@ == q);
                    }
                }
            }
        },
    }
}

/// A program's relationships, as a list.
fn relationship_list(app: &AppItem) -> (rels: Vec<String>)
    ensures
        name_views(rels@) == relationships_of(*app),
{
    let mut rels: Vec<String> = Vec::new();
    let mut d: usize = 0;
    while d < app.depends_on.len()
        invariant
            d <= app.depends_on@.len(),
            rels@.len() == d,
            forall|k: int| 0 <= k < d ==> #[trigger] rels@[k]@ == app.depends_on@[k]@,
        decreases app.depends_on@.len() - d,
    {
        rels.push(app.depends_on[d].clone());
        d += 1;
    }
    let n = app.depends_on.len();
    let mut u: usize = 0;
    while u < app.required_by.len()
        invariant
            n == app.depends_on@.len(),
            u <= app.required_by@.len(),
            rels@.len() == n + u,
            forall|k: int| 0 <= k < n ==> #[trigger] rels@[k]@ == app.depends_on@[k]@,
            forall|k: int| 0 <= k < u ==> #[trigger] rels@[n + k]@ == app.required_by@[k]@,
        decreases app.required_by@.len() - u,
    {
        rels.push(app.required_by[u].clone());
        u += 1;
    }
    proof {
        assert forall|k: int| 0 <= k < rels@.len() implies #[trigger] name_views(rels@)[k] == relationships_of(*app)[k] by {
            if k >= n {
                assert(rels@[n + (k - n)]@ == app.required_by@[k - n]@);
            }
        }
        assert(name_views(rels@) =~= relationships_of(*app));
    }
    rels
}

/// Records the relationship names `rels` of the program at `i`.
fn index_program(entries: &mut Vec<(String, Vec<usize>)>, rels: &Vec<String>, i: usize, Ghost(base): Ghost<Seq<(Seq<char>, usize)>>)
    requires
        index_ok(old(entries)@, base),
    ensures
        index_ok(final(entries)@, base + program_pairs(name_views(rels@), i)),
{
    let mut j: usize = 0;
    proof {
        assert(base + program_pairs(name_views(rels@).subrange(0, 0), i) =~= base);
    }
    while j < rels.len()
        invariant
            j <= rels@.len(),
            index_ok(entries@, base + program_pairs(name_views(rels@).subrange(0, j as int), i)),
        decreases rels@.len() - j,
    {
        let key = relationship_key(rels[j].as_str());
        let ghost before = base + program_pairs(name_views(rels@).subrange(0, j as int), i);
        proof {
            assert(name_views(rels@).subrange(0, j + 1).drop_last() =~= name_views(rels@).subrange(0, j as int));
            assert(name_views(rels@).subrange(0, j + 1).last() == rels@[j as int]@);
        }
        if !key.as_str().is_empty() {
            proof {
                assert(base + program_pairs(name_views(rels@).subrange(0, j + 1), i) =~= before.push((key@, i)));
            }
            record_position(entries, key, i, Ghost(before));
        } else {
            proof {
                assert(base + program_pairs(name_views(rels@).subrange(0, j + 1), i) =~= before);
            }
        }
        j += 1;
    }
    proof {
        assert(name_views(rels@).subrange(0, rels@.len() as int) =~= name_views(rels@));
    }
}

impl RelationshipIndex {
    /// The index of the programs' relationship names.
    pub fn build(apps: &Vec<AppItem>) -> (index: Self)
        ensures
            index_ok(index.entries@, relationship_pairs(apps@)),
    {
        let mut entries: Vec<(String, Vec<usize>)> = Vec::new();
        let mut i: usize = 0;
        proof {
            assert(relationship_pairs(apps@.subrange(0, 0)) =~= Seq::<(Seq<char>, usize)>::empty());
        }
        while i < apps.len()
            invariant
                i <= apps@.len(),
                index_ok(entries@, relationship_pairs(apps@.subrange(0, i as int))),
            decreases apps@.len() - i,
        {
            let rels = relationship_list(&apps[i]);
            index_program(&mut entries, &rels, i, Ghost(relationship_pairs(apps@.subrange(0, i as int))));
            proof {
                assert(apps@.subrange(0, i + 1).drop_last() =~= apps@.subrange(0, i as int));
                assert(apps@.subrange(0, i + 1).last() == apps@[i as int]);
            }
            i += 1;
        }
        proof {
            assert(apps@.subrange(0, apps@.len() as int) =~= apps@);
        }
        RelationshipIndex { entries }
    }

    /// The programs recorded under a relationship name, as `relationship_key`
    /// writes it; none for an unknown name.
    pub fn lookup(&self, key: &String) -> (r: Vec<usize>)
        ensures
            (exists|k: int| 0 <= k < self.entries@.len() && (#[trigger] self.entries@[k]).0@ == key@) ==> exists|k: int| 0 <= k < self.entries@.len() && self.entries@[k].0@ == key@ && r@ == (#[trigger] self.entries@[k]).1@,
            !(exists|k: int| 0 <= k < self.entries@.len() && (#[trigger] self.entries@[k]).0@ == key@) ==> r@.len() == 0,
    {
        match find_entry(&self.entries, key) {
            Some(m) => {
                let mut r: Vec<usize> = Vec::new();
                let list = &self.entries[m].1;
                let mut k: usize = 0;
                while k < list.len()
                    invariant
                        k <= list@.len(),
                        r@ == list@.subrange(0, k as int),
                    decreases list@.len() - k,
                {
                    r.push(list[k]);
                    k += 1;
                    proof {
                        assert(r@ =~= list@.subrange(0, k as int));
                    }
                }
                proof {
                    assert(list@.subrange(0, list@.len() as int) =~= list@);
                }
                r
            },
            None => Vec::new(),
        }
    }
}

/// A lookup in the index of the programs' relationships gives the programs
/// that name the relationship, once per naming and in program order.
pub proof fn lemma_lookup_gives_naming_programs(index: RelationshipIndex, apps: Seq<AppItem>, key: Seq<char>, r: Seq<usize>)
    requires
        index_ok(index.entries@, relationship_pairs(apps)),
        (exists|k: int| 0 <= k < index.entries@.len() && (#[trigger] index.entries@[k]).0@ == key) ==> exists|k: int| 0 <= k < index.entries@.len() && index.entries@[k].0@ == key && r == (#[trigger] index.entries@[k]).1@,
        !(exists|k: int| 0 <= k < index.entries@.len() && (#[trigger] index.entries@[k]).0@ == key) ==> r.len() == 0,
    ensures
        r == positions_for(relationship_pairs(apps), key),
{
    if exists|k: int| 0 <= k < index.entries@.len() && (#[trigger] index.entries@[k]).0@ == key {
        let k = choose|k: int| 0 <= k < index.entries@.len() && index.entries@[k].0@ == key && r == (#[trigger] index.entries@[k]).1@;
        assert(index.entries@[k].1@ == positions_for(relationship_pairs(apps), index.entries@[k].0@));
    } else {
        if positions_for(relationship_pairs(apps), key).len() > 0 {
            let k = choose|k: int| 0 <= k < index.entries@.len() && (#[trigger] index.entries@[k]).0@ == key;
        }
        assert(positions_for(relationship_pairs(apps), key).len() == 0);
        assert(r =~= positions_for(relationship_pairs(apps), key));
    }
}

/// Every executable of a list gives a command field of its own name, and of
/// its link target when that is a different, non-empty name; there are at
/// least as many such fields as executables.
proof fn lemma_binary_fields_cover(bins: Seq<crate::models::BinaryInfo>)
    ensures
        binary_fields(bins).len() >= bins.len(),
        forall|k: int| 0 <= k < bins.len() ==> #[trigger] binary_fields(bins).contains((1u8, bins[k].name@)),
        forall|k: int| 0 <= k < bins.len() && bins[k].target@.len() > 0 && bins[k].target@ != bins[k].name@
            ==> #[trigger] binary_fields(bins).contains((1u8, bins[k].target@)),
        forall|j: int| 0 <= j < binary_fields(bins).len() ==> (#[trigger] binary_fields(bins)[j]).0 == 1u8,
    decreases bins.len(),
{
    if bins.len() > 0 {
        let init = bins.drop_last();
        lemma_binary_fields_cover(init);
        let b = bins.last();
        let own = if b.target@.len() > 0 && b.target@ != b.name@ {
            seq![(1u8, b.name@), (1u8, b.target@)]
        } else {
            seq![(1u8, b.name@)]
        };
        let all = binary_fields(init) + own;
        assert(binary_fields(bins) == all);
        assert forall|x: (u8, Seq<char>)| binary_fields(init).contains(x) implies all.contains(x) by {
            let j = choose|j: int| 0 <= j < binary_fields(init).len() && binary_fields(init)[j] == x;
            assert(all[j] == x);
        }
        assert(all[binary_fields(init).len() as int] == (1u8, b.name@));
        if b.target@.len() > 0 && b.target@ != b.name@ {
            assert(all[binary_fields(init).len() as int + 1] == (1u8, b.target@));
        }
        assert forall|k: int| 0 <= k < bins.len() implies #[trigger] all.contains((1u8, bins[k].name@)) by {
            if k < init.len() {
                assert(init[k] == bins[k]);
                assert(binary_fields(init).contains((1u8, init[k].name@)));
            }
        }
        assert forall|k: int| 0 <= k < bins.len() && bins[k].target@.len() > 0 && bins[k].target@ != bins[k].name@
            implies #[trigger] all.contains((1u8, bins[k].target@)) by {
            if k < init.len() {
                assert(init[k] == bins[k]);
                assert(binary_fields(init).contains((1u8, init[k].target@)));
            }
        }
        assert forall|j: int| 0 <= j < all.len() implies (#[trigger] all[j]).0 == 1u8 by {
            if j < binary_fields(init).len() {
                assert(all[j] == binary_fields(init)[j]);
            }
        }
    }
}

/// Every command of a program is searched: for each of its executables the
/// searched fields hold the executable's name, and its link target when that
/// is a different, non-empty name, at the command tier (1). There are at
/// least as many command-tier fields as executables (counted after the name,
/// before the launchers), and the name itself leads, at tier 0.
pub proof fn lemma_every_command_is_searched(app: AppItem)
    ensures
        search_field_list(app)[0] == (0u8, app.name@),
        forall|k: int| 0 <= k < app.binaries@.len() ==> #[trigger] search_field_list(app).contains((1u8, app.binaries@[k].name@)),
        forall|k: int| 0 <= k < app.binaries@.len() && app.binaries@[k].target@.len() > 0
            && app.binaries@[k].target@ != app.binaries@[k].name@
            ==> #[trigger] search_field_list(app).contains((1u8, app.binaries@[k].target@)),
        search_field_list(app).len() >= 1 + app.binaries@.len() + 3 * app.desktop_entries@.len() + 9,
        forall|j: int| 1 <= j <= app.binaries@.len() ==> (#[trigger] search_field_list(app)[j]).0 == 1u8,
{
    let bins = app.binaries@;
    lemma_binary_fields_cover(bins);
    lemma_launcher_fields_len(app.desktop_entries@);
    let name = seq![(0u8, app.name@)];
    let bf = binary_fields(bins);
    let head = name + bf;
    let all = search_field_list(app);
    let tail = launcher_fields(app.desktop_entries@) + seq![
        (3u8, app.desc@),
        (4u8, app.version@),
        (4u8, app.origin.label_text()),
        (4u8, app.install_role.label_text()),
        (4u8, crate::text::join(app.state.tags(), " · "@)),
        (4u8, crate::text::join(app.capabilities.tags(), " · "@)),
        (4u8, app.capabilities.role_text()),
        (4u8, app.url@),
        (4u8, app.licenses@),
    ];
    assert(all =~= head + tail);
    assert forall|j: int| 0 <= j < bf.len() implies all[j + 1] == bf[j] by {
        assert(head[j + 1] == bf[j]);
    }
    assert forall|k: int| 0 <= k < bins.len() implies #[trigger] all.contains((1u8, bins[k].name@)) by {
        assert(bf.contains((1u8, bins[k].name@)));
        let j = choose|j: int| 0 <= j < bf.len() && bf[j] == (1u8, bins[k].name@);
        assert(all[j + 1] == bf[j]);
    }
    assert forall|k: int| 0 <= k < bins.len() && bins[k].target@.len() > 0 && bins[k].target@ != bins[k].name@
        implies #[trigger] all.contains((1u8, bins[k].target@)) by {
        assert(bf.contains((1u8, bins[k].target@)));
        let j = choose|j: int| 0 <= j < bf.len() && bf[j] == (1u8, bins[k].target@);
        assert(all[j + 1] == bf[j]);
    }
    assert forall|j: int| 1 <= j <= bins.len() implies (#[trigger] all[j]).0 == 1u8 by {
        assert(all[j] == bf[j - 1]);
    }
}

proof fn lemma_launcher_fields_len(entries: Seq<crate::models::DesktopEntry>)
    ensures
        launcher_fields(entries).len() == 3 * entries.len(),
    decreases entries.len(),
{
    if entries.len() > 0 {
        lemma_launcher_fields_len(entries.drop_last());
    }
}

} // verus!
