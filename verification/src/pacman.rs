//! Reading the package manager's query output: installed versions, package
//! names, per-package metadata with what each package provides and what
//! requires it, and the owner of each installed file.
use crate::names::name_views;
use crate::text::{chars_eq, chars_of, is_ws, lines, lines_of, split_on, split_once, split_once_chars, split_seq, split_whitespace, string_of, trim, trim_chars, views, words};
use vstd::prelude::*;

verus! {

/// What one package's metadata record says.
#[derive(Clone, Debug, PartialEq, Eq)]
pub struct PackageMetadata {
    pub size: String,
    pub install_date: String,
    pub description: String,
    pub url: String,
    pub licenses: String,
    pub depends_on: Vec<String>,
}

/// The three tables read from the metadata records: each package's metadata,
/// each provided name with its provider, and each package's reverse
/// dependencies, in the order of the records (a later entry for the same name
/// replaces an earlier one when the pairs are gathered into a map).
#[derive(Clone, Debug)]
pub struct QueryInfo {
    pub metadata: Vec<(String, PackageMetadata)>,
    pub provides: Vec<(String, String)>,
    pub reverse_dependencies: Vec<(String, Vec<String>)>,
}

/// The views of a list of string pairs.
pub open spec fn pair_views(v: Seq<(String, String)>) -> Seq<(Seq<char>, Seq<char>)> {
    v.map_values(|p: (String, String)| (p.0@, p.1@))
}

/// The first two words of a line, when it has two.
pub open spec fn first_two(line: Seq<char>) -> Option<(Seq<char>, Seq<char>)> {
    let w = words(line);
    if w.len() >= 2 { Some((w[0], w[1])) } else { None }
}

/// Name and version from each line that has both.
pub open spec fn version_entries(ls: Seq<Seq<char>>) -> Seq<(Seq<char>, Seq<char>)>
    decreases ls.len(),
{
    if ls.len() == 0 {
        Seq::empty()
    } else {
        let rest = version_entries(ls.drop_last());
        match first_two(ls.last()) {
            Some(p) => rest.push(p),
            None => rest,
        }
    }
}

/// The first word of each line that has one.
pub open spec fn first_words(ls: Seq<Seq<char>>) -> Seq<Seq<char>>
    decreases ls.len(),
{
    if ls.len() == 0 {
        Seq::empty()
    } else {
        let rest = first_words(ls.drop_last());
        let w = words(ls.last());
        if w.len() >= 1 { rest.push(w[0]) } else { rest }
    }
}

/// The two words of `line`, when it has two or more.
fn first_two_words(line: &[char]) -> (r: Option<(Vec<char>, Vec<char>)>)
    ensures
        r matches Some(p) ==> first_two(line@) == Some((p.0@, p.1@)),
        r is None ==> first_two(line@) is None,
{
    let w = split_whitespace(line);
    if w.len() >= 2 {
        proof {
            assert(views(w@)[0] == w@[0]@);
            assert(views(w@)[1] == w@[1]@);
        }
        Some((slice_all(&w[0]), slice_all(&w[1])))
    } else {
        None
    }
}

fn slice_all(v: &Vec<char>) -> (out: Vec<char>)
    ensures
        out@ == v@,
{
    let mut out: Vec<char> = Vec::new();
    let mut i: usize = 0;
    while i < v.len()
        invariant
            i <= v@.len(),
            out@ == v@.subrange(0, i as int),
        decreases v@.len() - i,
    {
        out.push(v[i]);
        i += 1;
        proof {
            assert(out@ =~= v@.subrange(0, i as int));
        }
    }
    proof {
        assert(v@.subrange(0, v@.len() as int) =~= v@);
    }
    out
}

/// Name and version of each package listed one per line (`name version`);
/// lines without both are skipped.
pub fn parse_package_versions(output: &str) -> (r: Vec<(String, String)>)
    ensures
        pair_views(r@) == version_entries(lines_of(output@)),
{
    let text = chars_of(output);
    let ls = lines(&text);
    let ghost lv = views(ls@);
    let mut r: Vec<(String, String)> = Vec::new();
    let mut i: usize = 0;
    while i < ls.len()
        invariant
            lv == views(ls@),
            i <= ls@.len(),
            pair_views(r@) == version_entries(lv.subrange(0, i as int)),
        decreases ls@.len() - i,
    {
        let ghost before = r@;
        match first_two_words(&ls[i]) {
            Some((a, b)) => {
                r.push((string_of(&a), string_of(&b)));
            },
            None => {},
        }
        proof {
            let pre = lv.subrange(0, i + 1);
            assert(pre.drop_last() =~= lv.subrange(0, i as int));
            assert(pre.last() == ls@[i as int]@);
            if r@.len() > before.len() {
                assert(pair_views(r@) =~= pair_views(before).push(pair_views(r@).last()));
            } else {
                assert(pair_views(r@) =~= pair_views(before));
            }
        }
        i += 1;
    }
    proof {
        assert(lv.subrange(0, ls@.len() as int) =~= lv);
    }
    r
}

/// The first word of each line: the package names of a listing.
pub fn parse_package_names(output: &str) -> (r: Vec<String>)
    ensures
        name_views(r@) == first_words(lines_of(output@)),
{
    let text = chars_of(output);
    let ls = lines(&text);
    let ghost lv = views(ls@);
    let mut r: Vec<String> = Vec::new();
    let mut i: usize = 0;
    while i < ls.len()
        invariant
            lv == views(ls@),
            i <= ls@.len(),
            name_views(r@) == first_words(lv.subrange(0, i as int)),
        decreases ls@.len() - i,
    {
        let ghost before = r@;
        let w = split_whitespace(&ls[i]);
        if w.len() >= 1 {
            proof {
                assert(views(w@)[0] == w@[0]@);
            }
            r.push(string_of(&w[0]));
        }
        proof {
            let pre = lv.subrange(0, i + 1);
            assert(pre.drop_last() =~= lv.subrange(0, i as int));
            assert(pre.last() == ls@[i as int]@);
            if r@.len() > before.len() {
                assert(name_views(r@) =~= name_views(before).push(name_views(r@).last()));
            } else {
                assert(name_views(r@) =~= name_views(before));
            }
        }
        i += 1;
    }
    proof {
        assert(lv.subrange(0, ls@.len() as int) =~= lv);
    }
    r
}

/// The word `None`, which the package manager prints for an empty list.
pub open spec fn none_word() -> Seq<char> {
    seq!['N', 'o', 'n', 'e']
}

/// `c` starts a version constraint.
pub open spec fn is_constraint(c: char) -> bool {
    c == '<' || c == '>' || c == '='
}

/// Where the version constraint of a dependency starts (its length if none).
pub open spec fn constraint_start(w: Seq<char>) -> int {
    if exists|i: int| 0 <= i < w.len() && is_constraint(w[i]) && forall|j: int| 0 <= j < i ==> !is_constraint(w[j]) {
        choose|i: int| 0 <= i < w.len() && is_constraint(w[i]) && forall|j: int| 0 <= j < i ==> !is_constraint(w[j])
    } else {
        w.len() as int
    }
}

/// A dependency without its version constraint.
pub open spec fn bare_name(w: Seq<char>) -> Seq<char> {
    w.subrange(0, constraint_start(w))
}

/// The package names of a dependency list, version constraints removed;
/// nothing for an empty list or `None`.
pub open spec fn dependency_names(value: Seq<char>) -> Seq<Seq<char>> {
    if value.len() == 0 || value == none_word() {
        Seq::empty()
    } else {
        words(value).map_values(|w: Seq<char>| bare_name(w))
    }
}

fn is_none_word(v: &[char]) -> (r: bool)
    ensures
        r == (v@ == none_word()),
{
    let none = ['N', 'o', 'n', 'e'];
    let r = chars_eq(v, &none);
    proof {
        assert(none@ =~= none_word());
    }
    r
}

fn bare_name_of(w: &[char]) -> (out: Vec<char>)
    ensures
        out@ == bare_name(w@),
{
    let mut i: usize = 0;
    while i < w.len() && !(w[i] == '<' || w[i] == '>' || w[i] == '=')
        invariant
            i <= w@.len(),
            forall|j: int| 0 <= j < i ==> !is_constraint(w@[j]),
        decreases w@.len() - i,
    {
        i += 1;
    }
    proof {
        if i < w@.len() {
            let p = |k: int| 0 <= k < w@.len() && is_constraint(w@[k]) && forall|j: int| 0 <= j < k ==> !is_constraint(w@[j]);
            assert(p(i as int));
            let c = choose|k: int| 0 <= k < w@.len() && is_constraint(w@[k]) && forall|j: int| 0 <= j < k ==> !is_constraint(w@[j]);
            assert(p(c));
            if c < i { assert(!is_constraint(w@[c])); }
            if i < c { assert(!is_constraint(w@[i as int])); }
        }
    }
    crate::text::slice_vec(w, 0, i)
}

fn dependency_names_of(value: &[char]) -> (r: Vec<Vec<char>>)
    ensures
        views(r@) == dependency_names(value@),
{
    if value.len() == 0 || is_none_word(value) {
        return Vec::new();
    }
    let w = split_whitespace(value);
    let mut r: Vec<Vec<char>> = Vec::new();
    let mut i: usize = 0;
    while i < w.len()
        invariant
            i <= w@.len(),
            r@.len() == i,
            forall|k: int| 0 <= k < i ==> #[trigger] r@[k]@ == bare_name(w@[k]@),
        decreases w@.len() - i,
    {
        r.push(bare_name_of(&w[i]));
        i += 1;
    }
    proof {
        assert(views(r@) =~= views(w@).map_values(|x: Seq<char>| bare_name(x)));
    }
    r
}

/// The package names of a dependency list such as `readline>=8 glibc`,
/// without version constraints.
pub fn parse_dependency_names(value: &str) -> (r: Vec<String>)
    ensures
        name_views(r@) == dependency_names(value@),
{
    let cs = chars_of(value);
    let names = dependency_names_of(&cs);
    strings_of(&names)
}

/// The strings made of each character vector.
pub fn strings_of(v: &Vec<Vec<char>>) -> (r: Vec<String>)
    ensures
        name_views(r@) == views(v@),
{
    let mut r: Vec<String> = Vec::new();
    let mut i: usize = 0;
    while i < v.len()
        invariant
            i <= v@.len(),
            r@.len() == i,
            forall|k: int| 0 <= k < i ==> #[trigger] r@[k]@ == v@[k]@,
        decreases v@.len() - i,
    {
        r.push(string_of(&v[i]));
        i += 1;
    }
    proof {
        assert(name_views(r@) =~= views(v@));
    }
    r
}

/// A path without its trailing `/` (the root `/` stays).
pub open spec fn without_trailing_slash(p: Seq<char>) -> Seq<char> {
    if p.len() > 1 && p.last() == '/' { p.drop_last() } else { p }
}

/// Path and owning package of each line `package path`.
pub open spec fn owner_entries(ls: Seq<Seq<char>>) -> Seq<(Seq<char>, Seq<char>)>
    decreases ls.len(),
{
    if ls.len() == 0 {
        Seq::empty()
    } else {
        let rest = owner_entries(ls.drop_last());
        match first_two(ls.last()) {
            Some(p) => rest.push((without_trailing_slash(p.1), p.0)),
            None => rest,
        }
    }
}

/// Each installed file with its owning package, from lines `package path`;
/// directories lose their trailing `/`.
pub fn parse_file_owners(output: &str) -> (r: Vec<(String, String)>)
    ensures
        pair_views(r@) == owner_entries(lines_of(output@)),
{
    let text = chars_of(output);
    let ls = lines(&text);
    let ghost lv = views(ls@);
    let mut r: Vec<(String, String)> = Vec::new();
    let mut i: usize = 0;
    while i < ls.len()
        invariant
            lv == views(ls@),
            i <= ls@.len(),
            pair_views(r@) == owner_entries(lv.subrange(0, i as int)),
        decreases ls@.len() - i,
    {
        let ghost before = r@;
        match first_two_words(&ls[i]) {
            Some((package, path)) => {
                let n = path.len();
                let p = if n > 1 && path[n - 1] == '/' {
                    crate::text::slice_vec(&path, 0, n - 1)
                } else {
                    path
                };
                proof {
                    assert(p@ == without_trailing_slash(first_two(ls@[i as int]@).unwrap().1));
                }
                r.push((string_of(&p), string_of(&package)));
            },
            None => {},
        }
        proof {
            let pre = lv.subrange(0, i + 1);
            assert(pre.drop_last() =~= lv.subrange(0, i as int));
            assert(pre.last() == ls@[i as int]@);
            if r@.len() > before.len() {
                assert(pair_views(r@) =~= pair_views(before).push(pair_views(r@).last()));
            } else {
                assert(pair_views(r@) =~= pair_views(before));
            }
        }
        i += 1;
    }
    proof {
        assert(lv.subrange(0, ls@.len() as int) =~= lv);
    }
    r
}

/// The value of the last `key: value` line of a record whose trimmed key is
/// `key`, trimmed.
pub open spec fn field(ls: Seq<Seq<char>>, key: Seq<char>) -> Option<Seq<char>>
    decreases ls.len(),
{
    if ls.len() == 0 {
        None
    } else {
        match split_once(ls.last(), ':') {
            Some(kv) => if trim(kv.0) == key { Some(trim(kv.1)) } else { field(ls.drop_last(), key) },
            None => field(ls.drop_last(), key),
        }
    }
}

pub open spec fn or_else(o: Option<Seq<char>>, d: Seq<char>) -> Seq<char> {
    match o {
        Some(v) => v,
        None => d,
    }
}

pub open spec fn opt_view(o: Option<Vec<char>>) -> Option<Seq<char>> {
    match o {
        Some(v) => Some(v@),
        None => None,
    }
}

/// `m` is the metadata that the record `ls` describes: sizes and dates
/// default to `N/A`, texts to empty, dependencies to none.
pub open spec fn meta_matches(m: PackageMetadata, ls: Seq<Seq<char>>) -> bool {
    &&& m.size@ == or_else(field(ls, "Installed Size"@), "N/A"@)
    &&& m.install_date@ == or_else(field(ls, "Install Date"@), "N/A"@)
    &&& m.description@ == or_else(field(ls, "Description"@), Seq::empty())
    &&& m.url@ == or_else(field(ls, "URL"@), Seq::empty())
    &&& m.licenses@ == or_else(field(ls, "Licenses"@), Seq::empty())
    &&& name_views(m.depends_on@) == dependency_names(or_else(field(ls, "Depends On"@), Seq::empty()))
}

/// One metadata entry per record that names its package, in record order.
pub open spec fn metadata_ok(out: Seq<(String, PackageMetadata)>, records: Seq<Seq<char>>) -> bool
    decreases records.len(),
{
    if records.len() == 0 {
        out.len() == 0
    } else {
        let ls = lines_of(records.last());
        match field(ls, "Name"@) {
            Some(n) => out.len() > 0 && out.last().0@ == n && meta_matches(out.last().1, ls) && metadata_ok(out.drop_last(), records.drop_last()),
            None => metadata_ok(out, records.drop_last()),
        }
    }
}

/// Each provided name with its provider, record by record.
pub open spec fn provides_entries(records: Seq<Seq<char>>) -> Seq<(Seq<char>, Seq<char>)>
    decreases records.len(),
{
    if records.len() == 0 {
        Seq::empty()
    } else {
        let ls = lines_of(records.last());
        let rest = provides_entries(records.drop_last());
        match (field(ls, "Name"@), field(ls, "Provides"@)) {
            (Some(n), Some(p)) => if p != none_word() {
                rest + dependency_names(p).map_values(|v: Seq<char>| (v, n))
            } else {
                rest
            },
            _ => rest,
        }
    }
}

/// The packages that require each package, for the records that list any.
pub open spec fn reverse_ok(out: Seq<(String, Vec<String>)>, records: Seq<Seq<char>>) -> bool
    decreases records.len(),
{
    if records.len() == 0 {
        out.len() == 0
    } else {
        let ls = lines_of(records.last());
        match (field(ls, "Name"@), field(ls, "Required By"@)) {
            (Some(n), Some(r)) => if r != none_word() {
                out.len() > 0 && out.last().0@ == n && name_views(out.last().1@) == words(r) && reverse_ok(out.drop_last(), records.drop_last())
            } else {
                reverse_ok(out, records.drop_last())
            },
            _ => reverse_ok(out, records.drop_last()),
        }
    }
}

/// The records of a metadata listing: the pieces between blank lines.
pub open spec fn records_of(output: Seq<char>) -> Seq<Seq<char>> {
    split_seq(output, seq!['\n', '\n'])
}

/// Takes `value` into `slot` when the line's key is `key`.
fn take_field(slot: &mut Option<Vec<char>>, k: &Vec<char>, value: &Vec<char>, key: &Vec<char>)
    ensures
        opt_view(*final(slot)) == if k@ == key@ { Some(value@) } else { opt_view(*old(slot)) },
{
    if chars_eq(k, key) {
        *slot = Some(slice_all(value));
    }
}

/// The fields of one record that the metadata needs.
struct RecordFields {
    name: Option<Vec<char>>,
    provides: Option<Vec<char>>,
    depends: Option<Vec<char>>,
    required_by: Option<Vec<char>>,
    size: Option<Vec<char>>,
    install_date: Option<Vec<char>>,
    description: Option<Vec<char>>,
    url: Option<Vec<char>>,
    licenses: Option<Vec<char>>,
}

/// The keys of those fields.
struct FieldKeys {
    name: Vec<char>,
    provides: Vec<char>,
    depends: Vec<char>,
    required_by: Vec<char>,
    size: Vec<char>,
    install_date: Vec<char>,
    description: Vec<char>,
    url: Vec<char>,
    licenses: Vec<char>,
}

spec fn keys_ok(k: FieldKeys) -> bool {
    &&& k.name@ == "Name"@
    &&& k.provides@ == "Provides"@
    &&& k.depends@ == "Depends On"@
    &&& k.required_by@ == "Required By"@
    &&& k.size@ == "Installed Size"@
    &&& k.install_date@ == "Install Date"@
    &&& k.description@ == "Description"@
    &&& k.url@ == "URL"@
    &&& k.licenses@ == "Licenses"@
}

spec fn fields_ok(f: RecordFields, ls: Seq<Seq<char>>) -> bool {
    &&& opt_view(f.name) == field(ls, "Name"@)
    &&& opt_view(f.provides) == field(ls, "Provides"@)
    &&& opt_view(f.depends) == field(ls, "Depends On"@)
    &&& opt_view(f.required_by) == field(ls, "Required By"@)
    &&& opt_view(f.size) == field(ls, "Installed Size"@)
    &&& opt_view(f.install_date) == field(ls, "Install Date"@)
    &&& opt_view(f.description) == field(ls, "Description"@)
    &&& opt_view(f.url) == field(ls, "URL"@)
    &&& opt_view(f.licenses) == field(ls, "Licenses"@)
}

fn field_keys() -> (k: FieldKeys)
    ensures
        keys_ok(k),
{
    FieldKeys {
        name: chars_of("Name"),
        provides: chars_of("Provides"),
        depends: chars_of("Depends On"),
        required_by: chars_of("Required By"),
        size: chars_of("Installed Size"),
        install_date: chars_of("Install Date"),
        description: chars_of("Description"),
        url: chars_of("URL"),
        licenses: chars_of("Licenses"),
    }
}

/// The fields of the record made of the lines `ls`.
fn read_fields(ls: &Vec<Vec<char>>, keys: &FieldKeys) -> (f: RecordFields)
    requires
        keys_ok(*keys),
    ensures
        fields_ok(f, views(ls@)),
{
    let ghost lv = views(ls@);
    let mut f = RecordFields {
        name: None,
        provides: None,
        depends: None,
        required_by: None,
        size: None,
        install_date: None,
        description: None,
        url: None,
        licenses: None,
    };
    let mut i: usize = 0;
    while i < ls.len()
        invariant
            keys_ok(*keys),
            lv == views(ls@),
            i <= ls@.len(),
            fields_ok(f, lv.subrange(0, i as int)),
        decreases ls@.len() - i,
    {
        let ghost pre = lv.subrange(0, i + 1);
        proof {
            assert(pre.drop_last() =~= lv.subrange(0, i as int));
            assert(pre.last() == ls@[i as int]@);
        }
        match split_once_chars(&ls[i], ':') {
            Some((k, v)) => {
                let kt = trim_chars(&k);
                let vt = trim_chars(&v);
                take_field(&mut f.name, &kt, &vt, &keys.name);
                take_field(&mut f.provides, &kt, &vt, &keys.provides);
                take_field(&mut f.depends, &kt, &vt, &keys.depends);
                take_field(&mut f.required_by, &kt, &vt, &keys.required_by);
                take_field(&mut f.size, &kt, &vt, &keys.size);
                take_field(&mut f.install_date, &kt, &vt, &keys.install_date);
                take_field(&mut f.description, &kt, &vt, &keys.description);
                take_field(&mut f.url, &kt, &vt, &keys.url);
                take_field(&mut f.licenses, &kt, &vt, &keys.licenses);
            },
            None => {},
        }
        i += 1;
    }
    proof {
        assert(lv.subrange(0, ls@.len() as int) =~= lv);
    }
    f
}

fn string_or(o: &Option<Vec<char>>, d: &str) -> (r: String)
    ensures
        r@ == or_else(opt_view(*o), d@),
{
    match o {
        Some(v) => string_of(v),
        None => string_of(&chars_of(d)),
    }
}

/// Reads the metadata listing: one record per package, separated by blank
/// lines, each line `key : value`.
pub fn parse_query_info(output: &str) -> (q: QueryInfo)
    ensures
        metadata_ok(q.metadata@, records_of(output@)),
        pair_views(q.provides@) == provides_entries(records_of(output@)),
        reverse_ok(q.reverse_dependencies@, records_of(output@)),
{
    let text = chars_of(output);
    let sep = ['\n', '\n'];
    proof {
        assert(sep@ =~= seq!['\n', '\n']);
    }
    let records = split_on(&text, &sep);
    let ghost rv = views(records@);
    let keys = field_keys();
    let mut metadata: Vec<(String, PackageMetadata)> = Vec::new();
    let mut provides: Vec<(String, String)> = Vec::new();
    let mut reverse_dependencies: Vec<(String, Vec<String>)> = Vec::new();
    let mut b: usize = 0;
    while b < records.len()
        invariant
            keys_ok(keys),
            rv == views(records@),
            rv == records_of(output@),
            b <= records@.len(),
            metadata_ok(metadata@, rv.subrange(0, b as int)),
            pair_views(provides@) == provides_entries(rv.subrange(0, b as int)),
            reverse_ok(reverse_dependencies@, rv.subrange(0, b as int)),
        decreases records@.len() - b,
    {
        let ghost pre = rv.subrange(0, b + 1);
        let ls = lines(&records[b]);
        let ghost lsv = views(ls@);
        proof {
            assert(pre.drop_last() =~= rv.subrange(0, b as int));
            assert(pre.last() == records@[b as int]@);
            assert(lsv == lines_of(pre.last()));
        }
        let f = read_fields(&ls, &keys);
        match &f.name {
            Some(name) => {
                let ghost old_meta = metadata@;
                let dependencies = match &f.depends {
                    Some(d) => dependency_names_of(d),
                    None => Vec::new(),
                };
                let m = PackageMetadata {
                    size: string_or(&f.size, "N/A"),
                    install_date: string_or(&f.install_date, "N/A"),
                    description: string_or(&f.description, ""),
                    url: string_or(&f.url, ""),
                    licenses: string_or(&f.licenses, ""),
                    depends_on: strings_of(&dependencies),
                };
                proof {
                    assert(""@ =~= Seq::<char>::empty()) by {
                        reveal_strlit("");
                    }
                    assert(dependency_names(Seq::<char>::empty()) =~= Seq::<Seq<char>>::empty());
                    assert(m.size@ == or_else(field(lsv, "Installed Size"@), "N/A"@));
                    assert(m.description@ == or_else(field(lsv, "Description"@), Seq::empty()));
                    assert(views(dependencies@) == dependency_names(or_else(field(lsv, "Depends On"@), Seq::empty())));
                    assert(meta_matches(m, lsv));
                }
                metadata.push((string_of(name), m));
                proof {
                    assert(metadata@.drop_last() =~= old_meta);
                }
                match &f.required_by {
                    Some(req) => {
                        if !is_none_word(req) {
                            let ghost old_rev = reverse_dependencies@;
                            let users = split_whitespace(req);
                            reverse_dependencies.push((string_of(name), strings_of(&users)));
                            proof {
                                assert(reverse_dependencies@.drop_last() =~= old_rev);
                            }
                        }
                    },
                    None => {},
                }
                match &f.provides {
                    Some(prov) => {
                        if !is_none_word(prov) {
                            let ghost old_prov = pair_views(provides@);
                            let virtuals = dependency_names_of(prov);
                            let mut k: usize = 0;
                            while k < virtuals.len()
                                invariant
                                    k <= virtuals@.len(),
                                    pair_views(provides@) == old_prov + views(virtuals@).subrange(0, k as int).map_values(|v: Seq<char>| (v, name@)),
                                decreases virtuals@.len() - k,
                            {
                                let ghost before = pair_views(provides@);
                                provides.push((string_of(&virtuals[k]), string_of(name)));
                                k += 1;
                                proof {
                                    assert(pair_views(provides@) =~= before.push((virtuals@[k - 1]@, name@)));
                                    assert(views(virtuals@).subrange(0, k as int).map_values(|v: Seq<char>| (v, name@)) =~= views(virtuals@).subrange(0, k - 1).map_values(|v: Seq<char>| (v, name@)).push((virtuals@[k - 1]@, name@)));
                                }
                            }
                            proof {
                                assert(views(virtuals@).subrange(0, virtuals@.len() as int) =~= views(virtuals@));
                            }
                        }
                    },
                    None => {},
                }
            },
            None => {},
        }
        proof {
            assert(metadata_ok(metadata@, pre));
            assert(pair_views(provides@) == provides_entries(pre));
            assert(reverse_ok(reverse_dependencies@, pre));
        }
        b += 1;
    }
    proof {
        assert(rv.subrange(0, records@.len() as int) =~= rv);
    }
    QueryInfo { metadata, provides, reverse_dependencies }
}

/// Line `i` of `ls` is the `%NAME%` marker and a line follows it.
pub open spec fn name_marker_at(ls: Seq<Seq<char>>, i: int) -> bool {
    0 <= i && i + 1 < ls.len() && ls[i] == "%NAME%"@
}

pub open spec fn first_name_marker(ls: Seq<Seq<char>>, i: int) -> bool {
    name_marker_at(ls, i) && forall|j: int| 0 <= j < i ==> !#[trigger] name_marker_at(ls, j)
}

/// The package name that a package database record gives: the line after the
/// first `%NAME%` line that has one after it.
pub open spec fn desc_name(desc: Seq<char>) -> Option<Seq<char>> {
    let ls = lines_of(desc);
    if exists|i: int| first_name_marker(ls, i) {
        Some(ls[(choose|i: int| first_name_marker(ls, i)) + 1])
    } else {
        None
    }
}

pub fn desc_package_name(desc: &str) -> (r: Option<String>)
    ensures
        match r {
            Some(name) => desc_name(desc@) == Some(name@),
            None => desc_name(desc@) is None,
        },
{
    let d = chars_of(desc);
    let ls = lines(&d);
    let ghost lv = views(ls@);
    let marker = chars_of("%NAME%");
    let mut i: usize = 0;
    while i < ls.len() && i + 1 < ls.len()
        invariant
            lv == views(ls@),
            lv == lines_of(desc@),
            marker@ == "%NAME%"@,
            forall|j: int| 0 <= j < i ==> !#[trigger] name_marker_at(lv, j),
        decreases ls@.len() - i,
    {
        if chars_eq(&ls[i], &marker) {
            proof {
                assert(lv[i as int] == ls@[i as int]@);
                assert(first_name_marker(lv, i as int));
                let c = choose|c: int| first_name_marker(lv, c);
                if c < i {
                    assert(!name_marker_at(lv, c));
                }
                if i < c {
                    assert(!name_marker_at(lv, i as int));
                }
                assert(lv[i + 1] == ls@[i + 1]@);
            }
            return Some(string_of(&ls[i + 1]));
        }
        proof {
            assert(lv[i as int] == ls@[i as int]@);
        }
        i += 1;
    }
    proof {
        assert forall|c: int| !first_name_marker(lv, c) by {
            if first_name_marker(lv, c) {
                assert(c < i);
            }
        }
    }
    None
}

} // verus!
