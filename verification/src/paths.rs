//! The standard library's path and case operations that the rules rely on,
//! and ASCII character classes.
use vstd::prelude::*;

verus! {

/// What `Path::file_name` gives for a path: its final component, unless the
/// path ends in `..` or has no normal final component.
pub uninterp spec fn path_file_name(path: Seq<char>) -> Option<Seq<char>>;

/// What `Path::parent` gives for a path: the path without its final
/// component, if it has one.
pub uninterp spec fn path_parent(path: Seq<char>) -> Option<Seq<char>>;

/// The place of the last `.` in a file name, or -1 when it has none.
pub open spec fn last_dot(name: Seq<char>) -> int
    decreases name.len(),
{
    if name.len() == 0 {
        -1
    } else if name.last() == '.' {
        name.len() - 1
    } else {
        last_dot(name.drop_last())
    }
}

/// What `Path::file_stem` gives for a path, as its documentation states:
/// nothing without a file name; the whole name when it has no `.`, or only
/// a leading one; otherwise the part before the last `.`.
pub open spec fn path_file_stem(path: Seq<char>) -> Option<Seq<char>> {
    match path_file_name(path) {
        None => None,
        Some(name) => if last_dot(name) > 0 { Some(name.subrange(0, last_dot(name))) } else { Some(name) },
    }
}

/// What `Path::extension` gives for a path, as its documentation states:
/// nothing without a file name, without a `.`, or with only a leading one;
/// otherwise the part after the last `.`.
pub open spec fn path_extension(path: Seq<char>) -> Option<Seq<char>> {
    match path_file_name(path) {
        None => None,
        Some(name) => if last_dot(name) > 0 { Some(name.subrange(last_dot(name) + 1, name.len() as int)) } else { None },
    }
}

/// What `str::to_lowercase` gives for a string.
pub uninterp spec fn lowercase(s: Seq<char>) -> Seq<char>;

/// What `Path::components().count()` gives for a path.
pub uninterp spec fn component_count(path: Seq<char>) -> nat;

/// What `Path::starts_with` gives: `base` is a prefix of `path` by whole
/// components.
pub uninterp spec fn path_prefix(path: Seq<char>, base: Seq<char>) -> bool;

pub open spec fn opt_string_view(o: Option<String>) -> Option<Seq<char>> {
    match o {
        Some(s) => Some(s@),
        None => None,
    }
}

/// `Path::new(path).file_name()` as a string.
#[verifier::external_body]
pub fn file_name(path: &str) -> (r: Option<String>)
    ensures
        opt_string_view(r) == path_file_name(path@),
{
    std::path::Path::new(path).file_name().and_then(|name| name.to_str()).map(|name| name.to_string())
}

/// `Path::new(path).file_stem()` as a string: the file name without its
/// last extension (see `path_file_stem`).
#[verifier::external_body]
pub fn file_stem(path: &str) -> (r: Option<String>)
    ensures
        opt_string_view(r) == path_file_stem(path@),
{
    std::path::Path::new(path).file_stem().and_then(|stem| stem.to_str()).map(|stem| stem.to_string())
}

/// `Path::new(path).extension()` as a string: what follows the last `.` of
/// the file name (see `path_extension`).
#[verifier::external_body]
pub fn extension(path: &str) -> (r: Option<String>)
    ensures
        opt_string_view(r) == path_extension(path@),
{
    std::path::Path::new(path).extension().and_then(|extension| extension.to_str()).map(|extension| extension.to_string())
}

/// `Path::new(path).parent()` as a string.
#[verifier::external_body]
pub fn parent(path: &str) -> (r: Option<String>)
    ensures
        opt_string_view(r) == path_parent(path@),
{
    std::path::Path::new(path).parent().and_then(|parent| parent.to_str()).map(|parent| parent.to_string())
}

/// `str::to_lowercase`.
#[verifier::external_body]
pub fn to_lowercase(s: &str) -> (r: String)
    ensures
        r@ == lowercase(s@),
{
    s.to_lowercase()
}

/// `Path::new(path).starts_with(base)`.
#[verifier::external_body]
pub fn path_starts_with(path: &str, base: &str) -> (r: bool)
    ensures
        r == path_prefix(path@, base@),
{
    std::path::Path::new(path).starts_with(base)
}

/// `Path::new(path).components().count()`.
#[verifier::external_body]
pub fn components_in(path: &str) -> (r: usize)
    ensures
        r == component_count(path@),
{
    std::path::Path::new(path).components().count()
}

pub open spec fn is_ascii_digit(c: char) -> bool {
    '0' <= c <= '9'
}

pub open spec fn is_ascii_upper(c: char) -> bool {
    'A' <= c <= 'Z'
}

pub open spec fn is_ascii_lower(c: char) -> bool {
    'a' <= c <= 'z'
}

pub open spec fn is_ascii_alphanumeric(c: char) -> bool {
    is_ascii_digit(c) || is_ascii_upper(c) || is_ascii_lower(c)
}

/// `char::to_ascii_lowercase`.
pub open spec fn ascii_lower(c: char) -> char {
    if is_ascii_upper(c) { ((c as u32) + 32) as char } else { c }
}

pub fn ascii_lower_char(c: char) -> (r: char)
    ensures
        r == ascii_lower(c),
{
    if 'A' <= c && c <= 'Z' {
        let n = ((c as u32) + 32) as u8;
        n as char
    } else {
        c
    }
}

/// `str::to_ascii_lowercase` on characters.
pub open spec fn ascii_lowercase(s: Seq<char>) -> Seq<char> {
    s.map_values(|c: char| ascii_lower(c))
}

pub fn ascii_lowercase_chars(s: &[char]) -> (out: Vec<char>)
    ensures
        out@ == ascii_lowercase(s@),
{
    let mut out: Vec<char> = Vec::new();
    let mut i: usize = 0;
    while i < s.len()
        invariant
            i <= s@.len(),
            out@ == ascii_lowercase(s@.subrange(0, i as int)),
        decreases s@.len() - i,
    {
        out.push(ascii_lower_char(s[i]));
        i += 1;
        proof {
            assert(out@ =~= ascii_lowercase(s@.subrange(0, i as int)));
        }
    }
    proof {
        assert(s@.subrange(0, s@.len() as int) =~= s@);
    }
    out
}

/// `str::eq_ignore_ascii_case`.
pub open spec fn eq_ignore_ascii_case(a: Seq<char>, b: Seq<char>) -> bool {
    ascii_lowercase(a) == ascii_lowercase(b)
}

pub fn eq_ignore_case(a: &[char], b: &[char]) -> (r: bool)
    ensures
        r == eq_ignore_ascii_case(a@, b@),
{
    let la = ascii_lowercase_chars(a);
    let lb = ascii_lowercase_chars(b);
    crate::text::chars_eq(&la, &lb)
}

/// The ASCII letters and digits of `name`, lower-cased: how names are compared
/// loosely.
pub open spec fn normalized_name(name: Seq<char>) -> Seq<char>
    decreases name.len(),
{
    if name.len() == 0 {
        Seq::empty()
    } else {
        let rest = normalized_name(name.drop_last());
        let c = name.last();
        if is_ascii_alphanumeric(c) { rest.push(ascii_lower(c)) } else { rest }
    }
}

pub fn normalize_chars(name: &[char]) -> (out: Vec<char>)
    ensures
        out@ == normalized_name(name@),
{
    let mut out: Vec<char> = Vec::new();
    let mut i: usize = 0;
    while i < name.len()
        invariant
            i <= name@.len(),
            out@ == normalized_name(name@.subrange(0, i as int)),
        decreases name@.len() - i,
    {
        let c = name[i];
        proof {
            assert(name@.subrange(0, i + 1).drop_last() =~= name@.subrange(0, i as int));
        }
        if ('0' <= c && c <= '9') || ('A' <= c && c <= 'Z') || ('a' <= c && c <= 'z') {
            out.push(ascii_lower_char(c));
        }
        i += 1;
    }
    proof {
        assert(name@.subrange(0, name@.len() as int) =~= name@);
    }
    out
}

} // verus!
