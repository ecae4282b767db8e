//! Reading the `[Section]` / `key=value` files of systemd units and D-Bus
//! services, and the decisions taken from them.
use crate::names::name_views;
use crate::pacman::{none_word, strings_of};
use crate::text::{chars_eq, chars_of, first_is, lines, lines_of, push_str, slice_vec, split_once, split_once_chars, string_of, trim, trim_chars, views};
use vstd::prelude::*;

verus! {

pub open spec fn is_bracket(c: char) -> bool {
    c == '[' || c == ']'
}

/// `s` without leading brackets.
pub open spec fn strip_leading_brackets(s: Seq<char>) -> Seq<char>
    decreases s.len(),
{
    if s.len() > 0 && is_bracket(s[0]) { strip_leading_brackets(s.subrange(1, s.len() as int)) } else { s }
}

/// `s` without trailing brackets.
pub open spec fn strip_trailing_brackets(s: Seq<char>) -> Seq<char>
    decreases s.len(),
{
    if s.len() > 0 && is_bracket(s.last()) { strip_trailing_brackets(s.drop_last()) } else { s }
}

/// The name of a `[Section]` header line.
pub open spec fn section_name(line: Seq<char>) -> Seq<char> {
    strip_trailing_brackets(strip_leading_brackets(line))
}

pub open spec fn is_header(line: Seq<char>) -> bool {
    line.len() > 0 && line[0] == '[' && line.last() == ']'
}

pub open spec fn is_comment(line: Seq<char>) -> bool {
    line.len() > 0 && (line[0] == '#' || line[0] == ';')
}

/// The section in force and the values found so far, after one more
/// (trimmed) line.
pub open spec fn unit_step(st: (Seq<char>, Seq<Seq<char>>), line: Seq<char>, section: Seq<char>, key: Seq<char>) -> (Seq<char>, Seq<Seq<char>>) {
    if is_header(line) {
        (section_name(line), st.1)
    } else if st.0 != section || is_comment(line) {
        st
    } else {
        match split_once(line, '=') {
            Some(kv) => if trim(kv.0) == key && trim(kv.1).len() > 0 { (st.0, st.1.push(trim(kv.1))) } else { st },
            None => st,
        }
    }
}

pub open spec fn unit_scan(ls: Seq<Seq<char>>, section: Seq<char>, key: Seq<char>) -> (Seq<char>, Seq<Seq<char>>)
    decreases ls.len(),
{
    if ls.len() == 0 {
        (Seq::empty(), Seq::empty())
    } else {
        unit_step(unit_scan(ls.drop_last(), section, key), trim(ls.last()), section, key)
    }
}

/// The non-empty values of `key` in section `section`, in file order.
pub open spec fn unit_values(content: Seq<char>, section: Seq<char>, key: Seq<char>) -> Seq<Seq<char>> {
    unit_scan(lines_of(content), section, key).1
}

fn section_name_of(line: &[char]) -> (out: Vec<char>)
    ensures
        out@ == section_name(line@),
{
    let mut a: usize = 0;
    proof {
        assert(line@.subrange(0, line@.len() as int) =~= line@);
    }
    while a < line.len() && (line[a] == '[' || line[a] == ']')
        invariant
            a <= line@.len(),
            strip_leading_brackets(line@.subrange(a as int, line@.len() as int)) == strip_leading_brackets(line@),
        decreases line@.len() - a,
    {
        proof {
            let t = line@.subrange(a as int, line@.len() as int);
            assert(t.subrange(1, t.len() as int) =~= line@.subrange(a + 1, line@.len() as int));
        }
        a += 1;
    }
    let rest = slice_vec(line, a, line.len());
    let mut e: usize = rest.len();
    proof {
        assert(rest@.subrange(0, e as int) =~= rest@);
    }
    while e > 0 && (rest[e - 1] == '[' || rest[e - 1] == ']')
        invariant
            e <= rest@.len(),
            strip_trailing_brackets(rest@.subrange(0, e as int)) == strip_trailing_brackets(rest@),
        decreases e,
    {
        proof {
            let t = rest@.subrange(0, e as int);
            assert(t.drop_last() =~= rest@.subrange(0, e - 1));
        }
        e -= 1;
    }
    slice_vec(&rest, 0, e)
}

fn unit_values_of(content: &[char], section: &[char], key: &[char]) -> (r: Vec<Vec<char>>)
    ensures
        views(r@) == unit_values(content@, section@, key@),
{
    let ls = lines(content);
    let ghost lv = views(ls@);
    let mut current: Vec<char> = Vec::new();
    let mut values: Vec<Vec<char>> = Vec::new();
    let mut i: usize = 0;
    while i < ls.len()
        invariant
            lv == views(ls@),
            lv == lines_of(content@),
            i <= ls@.len(),
            (current@, views(values@)) == unit_scan(lv.subrange(0, i as int), section@, key@),
        decreases ls@.len() - i,
    {
        let ghost pre = lv.subrange(0, i + 1);
        proof {
            assert(pre.drop_last() =~= lv.subrange(0, i as int));
            assert(pre.last() == ls@[i as int]@);
        }
        let line = trim_chars(&ls[i]);
        let n = line.len();
        if n > 0 && line[0] == '[' && line[n - 1] == ']' {
            current = section_name_of(&line);
        } else if !chars_eq(&current, section) || (n > 0 && (line[0] == '#' || line[0] == ';')) {
        } else {
            match split_once_chars(&line, '=') {
                Some((k, v)) => {
                    let kt = trim_chars(&k);
                    let vt = trim_chars(&v);
                    if chars_eq(&kt, key) && vt.len() > 0 {
                        let ghost before = views(values@);
                        values.push(vt);
                        proof {
                            assert(views(values@) =~= before.push(trim(v@)));
                        }
                    }
                },
                None => {},
            }
        }
        i += 1;
    }
    proof {
        assert(lv.subrange(0, ls@.len() as int) =~= lv);
    }
    values
}

/// The non-empty values given to `wanted_key` in the section
/// `[wanted_section]`, trimmed, in file order; comments are skipped.
pub fn values_for_key(content: &str, wanted_section: &str, wanted_key: &str) -> (r: Vec<String>)
    ensures
        name_views(r@) == unit_values(content@, wanted_section@, wanted_key@),
{
    let c = chars_of(content);
    let s = chars_of(wanted_section);
    let k = chars_of(wanted_key);
    let v = unit_values_of(&c, &s, &k);
    strings_of(&v)
}

/// A unit's service type: the first `Type=` of `[Service]`, `simple` by default.
pub open spec fn service_type(content: Seq<char>) -> Seq<char> {
    let types = unit_values(content, "Service"@, "Type"@);
    if types.len() > 0 { types[0] } else { "simple"@ }
}

/// A service that keeps running: not a one-shot job, and it starts a command.
pub open spec fn persistent(content: Seq<char>) -> bool {
    service_type(content) != "oneshot"@ && unit_values(content, "Service"@, "ExecStart"@).len() > 0
}

/// Whether a systemd unit describes a long-running service.
pub fn service_definition_is_persistent(content: &str) -> (r: bool)
    ensures
        r == persistent(content@),
{
    let types = values_for_key(content, "Service", "Type");
    let starts = values_for_key(content, "Service", "ExecStart");
    let oneshot = chars_of("oneshot");
    let is_oneshot = if types.len() > 0 {
        let t = chars_of(types[0].as_str());
        chars_eq(&t, &oneshot)
    } else {
        let simple = chars_of("simple");
        chars_eq(&simple, &oneshot)
    };
    !is_oneshot && starts.len() > 0
}

/// A D-Bus service that the bus can start: it names a command or a unit.
pub open spec fn activatable(content: Seq<char>) -> bool {
    unit_values(content, "D-BUS Service"@, "Exec"@).len() > 0
        || unit_values(content, "D-BUS Service"@, "SystemdService"@).len() > 0
}

/// Whether a D-Bus service file lets the bus start the service.
pub fn dbus_service_is_activatable(content: &str) -> (r: bool)
    ensures
        r == activatable(content@),
{
    values_for_key(content, "D-BUS Service", "Exec").len() > 0
        || values_for_key(content, "D-BUS Service", "SystemdService").len() > 0
}

/// A unit runs once and exits: its first `Type=` is `oneshot`.
pub open spec fn is_job(content: Seq<char>) -> bool {
    let types = unit_values(content, "Service"@, "Type"@);
    types.len() > 0 && types[0] == "oneshot"@
}

/// Whether a unit is a one-shot job (otherwise it is a daemon).
pub fn unit_is_job(content: &str) -> (r: bool)
    ensures
        r == is_job(content@),
{
    let types = values_for_key(content, "Service", "Type");
    if types.len() > 0 {
        let t = chars_of(types[0].as_str());
        chars_eq(&t, &chars_of("oneshot"))
    } else {
        false
    }
}

/// What a unit describes itself as: its first `Description=` of `[Unit]`, or
/// `Program discovered from <fallback>`.
pub open spec fn unit_description(content: Seq<char>, fallback: Seq<char>) -> Seq<char> {
    let d = unit_values(content, "Unit"@, "Description"@);
    if d.len() > 0 { d[0] } else { "Program discovered from "@ + fallback }
}

pub fn description_for_unit(content: &str, fallback: &str) -> (r: String)
    ensures
        r@ == unit_description(content@, fallback@),
{
    let d = values_for_key(content, "Unit", "Description");
    if d.len() > 0 {
        d[0].clone()
    } else {
        let mut v: Vec<char> = Vec::new();
        push_str(&mut v, "Program discovered from ");
        push_str(&mut v, fallback);
        string_of(&v)
    }
}

/// A `key=value` line of the wanted section gives its value: the text after
/// the first `=`, trimmed, even when the value itself holds `=` (as in
/// `ExecStart=/usr/bin/d --config=/etc/d.conf`). `key` is everything before
/// that first `=`.
pub proof fn lemma_value_follows_first_equals(
    st: (Seq<char>, Seq<Seq<char>>),
    k: Seq<char>,
    v: Seq<char>,
    section: Seq<char>,
    key: Seq<char>,
)
    requires
        st.0 == section,
        forall|j: int| 0 <= j < k.len() ==> k[j] != '=',
        !is_header(k + seq!['='] + v),
        !is_comment(k + seq!['='] + v),
    ensures
        unit_step(st, k + seq!['='] + v, section, key) == (if trim(k) == key && trim(v).len() > 0 {
            (st.0, st.1.push(trim(v)))
        } else {
            st
        }),
{
    let line = k + seq!['='] + v;
    assert(first_is(line, '=', k.len() as int)) by {
        assert forall|j: int| 0 <= j < k.len() implies line[j] != '=' by {
            assert(line[j] == k[j]);
        }
    }
    crate::text::lemma_index_of_found(line, '=', k.len() as int);
    assert(line.subrange(0, k.len() as int) =~= k);
    assert(line.subrange(k.len() as int + 1, line.len() as int) =~= v);
}

/// Reading a whole file: once the wanted section is in force, a further line
/// `key=value` (before any trimming) adds its trimmed value, everything after
/// the first `=`, to the values found before; the section stays in force.
pub proof fn lemma_values_grow_by_the_line(ls: Seq<Seq<char>>, line: Seq<char>, k: Seq<char>, v: Seq<char>, section: Seq<char>, key: Seq<char>)
    requires
        unit_scan(ls, section, key).0 == section,
        trim(line) == k + seq!['='] + v,
        forall|j: int| 0 <= j < k.len() ==> k[j] != '=',
        !is_header(trim(line)),
        !is_comment(trim(line)),
        trim(k) == key,
        trim(v).len() > 0,
    ensures
        unit_scan(ls.push(line), section, key) == (section, unit_scan(ls, section, key).1.push(trim(v))),
{
    assert(ls.push(line).drop_last() =~= ls);
    lemma_value_follows_first_equals(unit_scan(ls, section, key), k, v, section, key);
}

} // verus!
