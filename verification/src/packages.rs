//! One program record per installed package, built from what the package
//! manager reports, and the last step of a scan: the programs in name order
//! with the counts shown beside them.
use crate::models::{AppItem, InstallOrigin, InstallRole, PackageCapabilities, ProgramState, ScanResult};
use crate::names::{copy_strings, name_views};
use crate::order::{chars_less, chars_lt, lemma_chars_lt_irrefl, lemma_chars_lt_trans};
use crate::pacman::{
    first_words, metadata_ok, owner_entries, pair_views, parse_file_owners, parse_package_names,
    parse_package_versions, parse_query_info, provides_entries, records_of, reverse_ok,
    version_entries, PackageMetadata,
};
use crate::paths::{lowercase, to_lowercase};
use crate::text::{chars_of, is_lit, lines_of, split_whitespace, starts_lit, starts_with, views, words};
use vstd::prelude::*;

verus! {

/// Everything one round of package queries reported, as lists in output
/// order: explicitly installed and dependency packages with their versions,
/// orphaned and foreign (AUR) package names, the metadata tables, and the
/// owner of each installed file.
pub struct PacmanSnapshot {
    pub explicit: Vec<(String, String)>,
    pub dependencies: Vec<(String, String)>,
    pub orphan_packages: Vec<String>,
    pub aur_packages: Vec<String>,
    pub metadata: Vec<(String, PackageMetadata)>,
    pub provides: Vec<(String, String)>,
    pub reverse_dependencies: Vec<(String, Vec<String>)>,
    pub file_owners: Vec<(String, String)>,
}

/// The snapshot that the outputs of the six package queries describe:
/// explicit packages, dependencies, orphans, foreign packages, the metadata
/// listing and the file listing.
pub fn snapshot_from_outputs(
    explicit: &str,
    dependencies: &str,
    orphans: &str,
    aur: &str,
    info: &str,
    files: &str,
) -> (s: PacmanSnapshot)
    ensures
        pair_views(s.explicit@) == version_entries(lines_of(explicit@)),
        pair_views(s.dependencies@) == version_entries(lines_of(dependencies@)),
        name_views(s.orphan_packages@) == first_words(lines_of(orphans@)),
        name_views(s.aur_packages@) == first_words(lines_of(aur@)),
        metadata_ok(s.metadata@, records_of(info@)),
        pair_views(s.provides@) == provides_entries(records_of(info@)),
        reverse_ok(s.reverse_dependencies@, records_of(info@)),
        pair_views(s.file_owners@) == owner_entries(lines_of(files@)),
{
    let query = parse_query_info(info);
    PacmanSnapshot {
        explicit: parse_package_versions(explicit),
        dependencies: parse_package_versions(dependencies),
        orphan_packages: parse_package_names(orphans),
        aur_packages: parse_package_names(aur),
        metadata: query.metadata,
        provides: query.provides,
        reverse_dependencies: query.reverse_dependencies,
        file_owners: parse_file_owners(files),
    }
}

/// The metadata of the last entry for `name`: what a map filled from the
/// entries in order holds for it.
pub open spec fn metadata_for(pairs: Seq<(String, PackageMetadata)>, name: Seq<char>) -> Option<PackageMetadata>
    decreases pairs.len(),
{
    if pairs.len() == 0 {
        None
    } else if pairs.last().0@ == name {
        Some(pairs.last().1)
    } else {
        metadata_for(pairs.drop_last(), name)
    }
}

/// The list of the last entry for `name`, or nothing.
pub open spec fn list_for(pairs: Seq<(String, Vec<String>)>, name: Seq<char>) -> Seq<Seq<char>>
    decreases pairs.len(),
{
    if pairs.len() == 0 {
        Seq::empty()
    } else if pairs.last().0@ == name {
        name_views(pairs.last().1@)
    } else {
        list_for(pairs.drop_last(), name)
    }
}

/// The names of `s`, each once, where it first occurs: a set's contents.
pub open spec fn distinct_names(s: Seq<Seq<char>>) -> Seq<Seq<char>>
    decreases s.len(),
{
    if s.len() == 0 {
        Seq::empty()
    } else {
        let rest = distinct_names(s.drop_last());
        if rest.contains(s.last()) { rest } else { rest.push(s.last()) }
    }
}

pub proof fn lemma_push_contains(s: Seq<Seq<char>>, y: Seq<char>, x: Seq<char>)
    ensures
        s.push(y).contains(x) <==> (s.contains(x) || y == x),
{
    if s.push(y).contains(x) {
        let k = choose|k: int| 0 <= k < s.len() + 1 && s.push(y)[k] == x;
        if k < s.len() {
            assert(s[k] == x);
        }
    }
    if s.contains(x) {
        let k = choose|k: int| 0 <= k < s.len() && s[k] == x;
        assert(s.push(y)[k] == x);
    }
    if y == x {
        assert(s.push(y)[s.len() as int] == x);
    }
}

pub proof fn lemma_distinct_names_contains(s: Seq<Seq<char>>, x: Seq<char>)
    ensures
        distinct_names(s).contains(x) <==> s.contains(x),
    decreases s.len(),
{
    if s.len() > 0 {
        let d = s.drop_last();
        let l = s.last();
        lemma_distinct_names_contains(d, x);
        lemma_distinct_names_contains(d, l);
        assert(s =~= d.push(l));
        lemma_push_contains(d, l, x);
        lemma_push_contains(distinct_names(d), l, x);
    }
}

/// `name` is listed in `names`.
pub open spec fn listed(names: Seq<String>, name: Seq<char>) -> bool {
    name_views(names).contains(name)
}

/// The package entries in the order a map of programs is filled: the
/// explicitly installed packages, then the dependencies.
pub open spec fn package_entries(s: PacmanSnapshot) -> Seq<(Seq<char>, Seq<char>, InstallRole)> {
    pair_views(s.explicit@).map_values(|p: (Seq<char>, Seq<char>)| (p.0, p.1, InstallRole::Explicit))
        + pair_views(s.dependencies@).map_values(|p: (Seq<char>, Seq<char>)| (p.0, p.1, InstallRole::Dependency))
}

/// No capability and no command.
pub open spec fn no_capabilities(c: PackageCapabilities) -> bool {
    !c.has_gui && !c.has_cli && !c.has_library && !c.has_service && !c.has_job && !c.has_plugin
        && !c.is_meta && c.cli_commands@.len() == 0
}

/// `app` is the record of the package `name` at `version` installed in the
/// role `role`: its origin is AUR when the package is foreign; its state is
/// plain but for the orphan flag of an orphaned dependency; its size, date,
/// description, URL, licenses and dependencies come from the package's
/// metadata (size and date `N/A` without any); it is required by the
/// packages that its metadata names, each once; and it has no executable,
/// launcher, service or capability yet.
pub open spec fn package_record(
    app: AppItem,
    s: PacmanSnapshot,
    name: Seq<char>,
    version: Seq<char>,
    role: InstallRole,
) -> bool {
    &&& app.name@ == name
    &&& app.version@ == version
    &&& app._owning_pkg@ == name
    &&& app.install_role == role
    &&& app.origin == (if listed(s.aur_packages@, name) { InstallOrigin::Aur } else { InstallOrigin::Pacman })
    &&& app.state == ProgramState {
        orphan: role == InstallRole::Dependency && listed(s.orphan_packages@, name),
        ..ProgramState::clear()
    }
    &&& match metadata_for(s.metadata@, name) {
        Some(m) => {
            &&& app.size@ == m.size@
            &&& app.install_date@ == m.install_date@
            &&& app.desc@ == m.description@
            &&& app.url@ == m.url@
            &&& app.licenses@ == m.licenses@
            &&& name_views(app.depends_on@) == name_views(m.depends_on@)
        },
        None => {
            &&& app.size@ == "N/A"@
            &&& app.install_date@ == "N/A"@
            &&& app.desc@.len() == 0
            &&& app.url@.len() == 0
            &&& app.licenses@.len() == 0
            &&& app.depends_on@.len() == 0
        },
    }
    &&& name_views(app.required_by@) == distinct_names(list_for(s.reverse_dependencies@, name))
    &&& app.representative_path@.len() == 0
    &&& app.binaries@.len() == 0
    &&& app.desktop_entries@.len() == 0
    &&& app.services@.len() == 0
    &&& no_capabilities(app.capabilities)
}

/// The version and role of the last entry for `name`.
pub open spec fn last_entry(entries: Seq<(Seq<char>, Seq<char>, InstallRole)>, name: Seq<char>) -> Option<(Seq<char>, InstallRole)>
    decreases entries.len(),
{
    if entries.len() == 0 {
        None
    } else if entries.last().0 == name {
        Some((entries.last().1, entries.last().2))
    } else {
        last_entry(entries.drop_last(), name)
    }
}

pub open spec fn entry_names(entries: Seq<(Seq<char>, Seq<char>, InstallRole)>) -> Seq<Seq<char>> {
    entries.map_values(|e: (Seq<char>, Seq<char>, InstallRole)| e.0)
}

pub open spec fn app_names(apps: Seq<AppItem>) -> Seq<Seq<char>> {
    apps.map_values(|a: AppItem| a.name@)
}

/// `apps` is what filling a map keyed by package name from `entries` gives:
/// one record per name, in the order the names first occur, each the record
/// of the last entry for its name.
pub open spec fn apps_from(apps: Seq<AppItem>, s: PacmanSnapshot, entries: Seq<(Seq<char>, Seq<char>, InstallRole)>) -> bool {
    &&& app_names(apps) == distinct_names(entry_names(entries))
    &&& forall|i: int| 0 <= i < apps.len() ==> match last_entry(entries, #[trigger] apps[i].name@) {
        Some(e) => package_record(apps[i], s, apps[i].name@, e.0, e.1),
        None => false,
    }
}

pub proof fn lemma_distinct_names_unique(s: Seq<Seq<char>>)
    ensures
        distinct_names(s).no_duplicates(),
    decreases s.len(),
{
    if s.len() > 0 {
        lemma_distinct_names_unique(s.drop_last());
        let rest = distinct_names(s.drop_last());
        if !rest.contains(s.last()) {
            assert forall|a: int, b: int| 0 <= a < b < rest.len() + 1 implies rest.push(s.last())[a] != rest.push(s.last())[b] by {
                if b == rest.len() {
                    assert(rest[a] == rest.push(s.last())[a]);
                }
            }
        }
    }
}

/// `name` is listed in `names`.
fn contains_name(names: &Vec<String>, name: &String) -> (r: bool)
    ensures
        r == listed(names@, name@),
{
    let mut i: usize = 0;
    while i < names.len()
        invariant
            i <= names@.len(),
            forall|k: int| 0 <= k < i ==> names@[k]@ != name@,
        decreases names@.len() - i,
    {
        if names[i] == *name {
            proof {
                assert(name_views(names@)[i as int] == name@);
            }
            return true;
        }
        i += 1;
    }
    proof {
        if name_views(names@).contains(name@) {
            let k = choose|k: int| 0 <= k < names@.len() && name_views(names@)[k] == name@;
            assert(names@[k]@ == name@);
        }
    }
    false
}

/// The position of the last metadata entry for `name`.
fn metadata_index(pairs: &Vec<(String, PackageMetadata)>, name: &String) -> (r: Option<usize>)
    ensures
        match r {
            Some(i) => i < pairs@.len() && metadata_for(pairs@, name@) == Some(pairs@[i as int].1),
            None => metadata_for(pairs@, name@) is None,
        },
{
    let mut n: usize = pairs.len();
    proof {
        assert(pairs@.subrange(0, n as int) =~= pairs@);
    }
    while n > 0
        invariant
            n <= pairs@.len(),
            metadata_for(pairs@, name@) == metadata_for(pairs@.subrange(0, n as int), name@),
        decreases n,
    {
        proof {
            assert(pairs@.subrange(0, n as int).drop_last() =~= pairs@.subrange(0, n - 1));
        }
        if pairs[n - 1].0 == *name {
            return Some(n - 1);
        }
        n -= 1;
    }
    None
}

/// The position of the last reverse-dependency entry for `name`.
fn list_index(pairs: &Vec<(String, Vec<String>)>, name: &String) -> (r: Option<usize>)
    ensures
        match r {
            Some(i) => i < pairs@.len() && list_for(pairs@, name@) == name_views(pairs@[i as int].1@),
            None => list_for(pairs@, name@).len() == 0,
        },
{
    let mut n: usize = pairs.len();
    proof {
        assert(pairs@.subrange(0, n as int) =~= pairs@);
    }
    while n > 0
        invariant
            n <= pairs@.len(),
            list_for(pairs@, name@) == list_for(pairs@.subrange(0, n as int), name@),
        decreases n,
    {
        proof {
            assert(pairs@.subrange(0, n as int).drop_last() =~= pairs@.subrange(0, n - 1));
        }
        if pairs[n - 1].0 == *name {
            return Some(n - 1);
        }
        n -= 1;
    }
    None
}

/// The strings of `v`, each once, where it first occurs.
fn distinct_strings(v: &Vec<String>) -> (r: Vec<String>)
    ensures
        name_views(r@) == distinct_names(name_views(v@)),
{
    let mut r: Vec<String> = Vec::new();
    let mut i: usize = 0;
    while i < v.len()
        invariant
            i <= v@.len(),
            name_views(r@) == distinct_names(name_views(v@.subrange(0, i as int))),
        decreases v@.len() - i,
    {
        proof {
            assert(name_views(v@.subrange(0, i + 1)).drop_last() =~= name_views(v@.subrange(0, i as int)));
            assert(name_views(v@.subrange(0, i + 1)).last() == v@[i as int]@);
        }
        if !contains_name(&r, &v[i]) {
            r.push(v[i].clone());
            proof {
                assert(name_views(r@) =~= name_views(r@.drop_last()).push(v@[i as int]@));
            }
        }
        i += 1;
    }
    proof {
        assert(v@.subrange(0, v@.len() as int) =~= v@);
    }
    r
}

/// The record of the package `name` at `version`, installed in `role`.
fn package_app(s: &PacmanSnapshot, name: &String, version: &String, role: InstallRole) -> (app: AppItem)
    ensures
        package_record(app, *s, name@, version@, role),
{
    let origin = if contains_name(&s.aur_packages, name) { InstallOrigin::Aur } else { InstallOrigin::Pacman };
    let mut state = ProgramState::plain();
    state.orphan = match role {
        InstallRole::Dependency => contains_name(&s.orphan_packages, name),
        _ => false,
    };
    let required_by = match list_index(&s.reverse_dependencies, name) {
        Some(i) => distinct_strings(&s.reverse_dependencies[i].1),
        None => {
            let none: Vec<String> = Vec::new();
            proof {
                assert(name_views(none@) =~= Seq::<Seq<char>>::empty());
                assert(distinct_names(Seq::<Seq<char>>::empty()) =~= Seq::<Seq<char>>::empty());
            }
            none
        },
    };
    let (size, install_date, desc, url, licenses, depends_on) = match metadata_index(&s.metadata, name) {
        Some(i) => {
            let m = &s.metadata[i].1;
            (m.size.clone(), m.install_date.clone(), m.description.clone(), m.url.clone(), m.licenses.clone(), copy_strings(&m.depends_on))
        },
        None => ("N/A".to_string(), "N/A".to_string(), String::new(), String::new(), String::new(), Vec::new()),
    };
    proof {
        reveal_strlit("N/A");
    }
    AppItem {
        name: name.clone(),
        version: version.clone(),
        origin,
        install_role: role,
        state,
        size,
        install_date,
        desc,
        url,
        licenses,
        _owning_pkg: name.clone(),
        representative_path: String::new(),
        binaries: Vec::new(),
        required_by,
        depends_on,
        desktop_entries: Vec::new(),
        services: Vec::new(),
        capabilities: PackageCapabilities::none(),
    }
}

pub proof fn lemma_entries_push(entries: Seq<(Seq<char>, Seq<char>, InstallRole)>, e: (Seq<char>, Seq<char>, InstallRole), n: Seq<char>)
    ensures
        last_entry(entries.push(e), n) == (if n == e.0 { Some((e.1, e.2)) } else { last_entry(entries, n) }),
        entry_names(entries.push(e)) == entry_names(entries).push(e.0),
        distinct_names(entry_names(entries.push(e))) == (if distinct_names(entry_names(entries)).contains(e.0) {
            distinct_names(entry_names(entries))
        } else {
            distinct_names(entry_names(entries)).push(e.0)
        }),
{
    assert(entries.push(e).drop_last() =~= entries);
    assert(entry_names(entries.push(e)) =~= entry_names(entries).push(e.0));
    assert(entry_names(entries).push(e.0).drop_last() =~= entry_names(entries));
}

/// Adds the packages of `list` in `role` to the programs, a later entry for a
/// name replacing the record of an earlier one.
fn add_packages(
    apps: &mut Vec<AppItem>,
    s: &PacmanSnapshot,
    list: &Vec<(String, String)>,
    role: InstallRole,
    Ghost(prior): Ghost<Seq<(Seq<char>, Seq<char>, InstallRole)>>,
)
    requires
        apps_from(old(apps)@, *s, prior),
    ensures
        apps_from(final(apps)@, *s, prior + pair_views(list@).map_values(|p: (Seq<char>, Seq<char>)| (p.0, p.1, role))),
{
    let ghost added = pair_views(list@).map_values(|p: (Seq<char>, Seq<char>)| (p.0, p.1, role));
    let mut i: usize = 0;
    proof {
        assert(prior + added.subrange(0, 0) =~= prior);
    }
    while i < list.len()
        invariant
            i <= list@.len(),
            added == pair_views(list@).map_values(|p: (Seq<char>, Seq<char>)| (p.0, p.1, role)),
            apps_from(apps@, *s, prior + added.subrange(0, i as int)),
        decreases list@.len() - i,
    {
        let ghost entries = prior + added.subrange(0, i as int);
        let ghost e = (list@[i as int].0@, list@[i as int].1@, role);
        proof {
            assert(added[i as int] == e);
            assert(prior + added.subrange(0, i + 1) =~= entries.push(e));
            lemma_entries_push(entries, e, e.0);
            lemma_distinct_names_contains(entry_names(entries), e.0);
            lemma_distinct_names_unique(entry_names(entries));
        }
        let app = package_app(s, &list[i].0, &list[i].1, role);
        let mut j: usize = 0;
        while j < apps.len() && apps[j].name != list[i].0
            invariant
                i < list@.len(),
                j <= apps@.len(),
                forall|k: int| 0 <= k < j ==> apps@[k].name@ != list@[i as int].0@,
            decreases apps@.len() - j,
        {
            j += 1;
        }
        let ghost before = apps@;
        if j < apps.len() {
            apps.set(j, app);
            proof {
                assert(app_names(before)[j as int] == e.0);
                assert(app_names(apps@) =~= app_names(before));
                assert forall|k: int| 0 <= k < apps@.len() implies match last_entry(entries.push(e), #[trigger] apps@[k].name@) {
                    Some(x) => package_record(apps@[k], *s, apps@[k].name@, x.0, x.1),
                    None => false,
                } by {
                    lemma_entries_push(entries, e, apps@[k].name@);
                    if k != j {
                        assert(app_names(before)[k] != app_names(before)[j as int]);
                        assert(apps@[k] == before[k]);
                    }
                }
            }
        } else {
            proof {
                assert(!app_names(before).contains(e.0)) by {
                    if app_names(before).contains(e.0) {
                        let k = choose|k: int| 0 <= k < before.len() && app_names(before)[k] == e.0;
                        assert(before[k].name@ == e.0);
                    }
                }
            }
            apps.push(app);
            proof {
                assert(app_names(apps@) =~= app_names(before).push(e.0));
                assert forall|k: int| 0 <= k < apps@.len() implies match last_entry(entries.push(e), #[trigger] apps@[k].name@) {
                    Some(x) => package_record(apps@[k], *s, apps@[k].name@, x.0, x.1),
                    None => false,
                } by {
                    lemma_entries_push(entries, e, apps@[k].name@);
                    if k < before.len() {
                        assert(apps@[k] == before[k]);
                        assert(app_names(before)[k] == apps@[k].name@);
                        assert(apps@[k].name@ != e.0);
                    }
                }
            }
        }
        i += 1;
    }
    proof {
        assert(added.subrange(0, list@.len() as int) =~= added);
    }
}

/// One record per installed package, keyed by name: the explicitly installed
/// packages first, then the dependencies, a later entry for a name replacing
/// an earlier one.
pub fn package_apps(s: &PacmanSnapshot) -> (apps: Vec<AppItem>)
    ensures
        apps_from(apps@, *s, package_entries(*s)),
{
    let mut apps: Vec<AppItem> = Vec::new();
    proof {
        let empty = Seq::<(Seq<char>, Seq<char>, InstallRole)>::empty();
        assert(entry_names(empty) =~= Seq::<Seq<char>>::empty());
        assert(app_names(apps@) =~= Seq::<Seq<char>>::empty());
    }
    add_packages(&mut apps, s, &s.explicit, InstallRole::Explicit, Ghost(Seq::empty()));
    proof {
        let ex = pair_views(s.explicit@).map_values(|p: (Seq<char>, Seq<char>)| (p.0, p.1, InstallRole::Explicit));
        assert(Seq::<(Seq<char>, Seq<char>, InstallRole)>::empty() + ex =~= ex);
    }
    let ghost ex = pair_views(s.explicit@).map_values(|p: (Seq<char>, Seq<char>)| (p.0, p.1, InstallRole::Explicit));
    add_packages(&mut apps, s, &s.dependencies, InstallRole::Dependency, Ghost(ex));
    apps
}

/// The programs installed in `role`.
pub open spec fn count_role(apps: Seq<AppItem>, role: InstallRole) -> nat
    decreases apps.len(),
{
    if apps.len() == 0 {
        0
    } else {
        count_role(apps.drop_last(), role) + (if apps.last().install_role == role { 1nat } else { 0nat })
    }
}

/// The programs of `origin`.
pub open spec fn count_origin(apps: Seq<AppItem>, origin: InstallOrigin) -> nat
    decreases apps.len(),
{
    if apps.len() == 0 {
        0
    } else {
        count_origin(apps.drop_last(), origin) + (if apps.last().origin == origin { 1nat } else { 0nat })
    }
}

/// The name of a program as it is sorted: lower-cased.
pub open spec fn sort_key(app: AppItem) -> Seq<char> {
    lowercase(app.name@)
}

/// Ordered by lower-cased name.
pub open spec fn sorted_by_name(apps: Seq<AppItem>) -> bool {
    forall|i: int, j: int| 0 <= i < j < apps.len() ==> !chars_lt(sort_key(#[trigger] apps[j]), sort_key(#[trigger] apps[i]))
}

/// The lower-cased names of `apps`, as characters.
fn sort_keys(apps: &Vec<AppItem>) -> (keys: Vec<Vec<char>>)
    ensures
        keys@.len() == apps@.len(),
        forall|k: int| 0 <= k < keys@.len() ==> #[trigger] keys@[k]@ == sort_key(apps@[k]),
{
    let mut keys: Vec<Vec<char>> = Vec::new();
    let mut i: usize = 0;
    while i < apps.len()
        invariant
            i <= apps@.len(),
            keys@.len() == i,
            forall|k: int| 0 <= k < i ==> #[trigger] keys@[k]@ == sort_key(apps@[k]),
        decreases apps@.len() - i,
    {
        let lower = to_lowercase(apps[i].name.as_str());
        keys.push(chars_of(lower.as_str()));
        i += 1;
    }
    keys
}

/// The position of the first program with the least key.
fn least_key(keys: &Vec<Vec<char>>) -> (m: usize)
    requires
        keys@.len() > 0,
    ensures
        m < keys@.len(),
        forall|k: int| 0 <= k < keys@.len() ==> !chars_lt(#[trigger] keys@[k]@, keys@[m as int]@),
{
    let mut m: usize = 0;
    let mut k: usize = 1;
    proof {
        lemma_chars_lt_irrefl(keys@[0]@);
    }
    while k < keys.len()
        invariant
            1 <= k <= keys@.len(),
            m < k,
            forall|q: int| 0 <= q < k ==> !chars_lt(#[trigger] keys@[q]@, keys@[m as int]@),
        decreases keys@.len() - k,
    {
        if chars_less(&keys[k], &keys[m]) {
            proof {
                assert forall|q: int| 0 <= q < k + 1 implies !chars_lt(#[trigger] keys@[q]@, keys@[k as int]@) by {
                    if q < k && chars_lt(keys@[q]@, keys@[k as int]@) {
                        lemma_chars_lt_trans(keys@[q]@, keys@[k as int]@, keys@[m as int]@);
                    }
                    if q == k {
                        lemma_chars_lt_irrefl(keys@[q]@);
                    }
                }
            }
            m = k;
        }
        k += 1;
    }
    m
}

/// The programs in order of their lower-cased names.
fn sort_by_name(apps: Vec<AppItem>) -> (out: Vec<AppItem>)
    ensures
        out@.to_multiset() == apps@.to_multiset(),
        sorted_by_name(out@),
{
    broadcast use vstd::seq_lib::group_to_multiset_ensures, vstd::multiset::group_multiset_axioms;
    let ghost all = apps@;
    let mut rest = apps;
    let mut keys = sort_keys(&rest);
    let mut out: Vec<AppItem> = Vec::new();
    proof {
        assert(out@.to_multiset().add(rest@.to_multiset()) =~= all.to_multiset());
    }
    while rest.len() > 0
        invariant
            keys@.len() == rest@.len(),
            forall|k: int| 0 <= k < keys@.len() ==> #[trigger] keys@[k]@ == sort_key(rest@[k]),
            out@.to_multiset().add(rest@.to_multiset()) == all.to_multiset(),
            sorted_by_name(out@),
            forall|i: int, k: int| 0 <= i < out@.len() && 0 <= k < rest@.len() ==> !chars_lt(sort_key(#[trigger] rest@[k]), sort_key(#[trigger] out@[i])),
        decreases rest@.len(),
    {
        let m = least_key(&keys);
        let ghost r0 = rest@;
        let ghost o0 = out@;
        proof {
            assert forall|k: int| 0 <= k < r0.len() implies !chars_lt(sort_key(#[trigger] r0[k]), sort_key(r0[m as int])) by {
                assert(keys@[k]@ == sort_key(r0[k]));
            }
        }
        let item = rest.remove(m);
        keys.remove(m);
        out.push(item);
        proof {
            assert(r0.contains(r0[m as int]));
            vstd::seq_lib::to_multiset_contains(r0, r0[m as int]);
            vstd::seq_lib::to_multiset_remove(r0, m as int);
            vstd::seq_lib::to_multiset_build(o0, r0[m as int]);
            assert(rest@ == r0.remove(m as int));
            assert(out@ == o0.push(r0[m as int]));
            assert(rest@.to_multiset() == r0.to_multiset().remove(r0[m as int]));
            assert(out@.to_multiset() == o0.to_multiset().insert(r0[m as int]));
            assert(out@.to_multiset().add(rest@.to_multiset()) =~= all.to_multiset());
            assert forall|k: int| 0 <= k < keys@.len() implies #[trigger] keys@[k]@ == sort_key(rest@[k]) by {
                if k < m {
                    assert(rest@[k] == r0[k]);
                } else {
                    assert(rest@[k] == r0[k + 1]);
                }
            }
            assert forall|i: int, j: int| 0 <= i < j < out@.len() implies !chars_lt(sort_key(#[trigger] out@[j]), sort_key(#[trigger] out@[i])) by {
                if j < o0.len() {
                    assert(out@[j] == o0[j]);
                    assert(out@[i] == o0[i]);
                } else {
                    assert(out@[i] == o0[i]);
                    assert(out@[j] == r0[m as int]);
                }
            }
            assert forall|i: int, k: int| 0 <= i < out@.len() && 0 <= k < rest@.len() implies !chars_lt(sort_key(#[trigger] rest@[k]), sort_key(#[trigger] out@[i])) by {
                let k0 = if k < m { k } else { k + 1 };
                assert(rest@[k] == r0[k0]);
                if i < o0.len() {
                    assert(out@[i] == o0[i]);
                } else {
                    assert(out@[i] == r0[m as int]);
                }
            }
        }
    }
    proof {
        assert(rest@.to_multiset() =~= vstd::multiset::Multiset::empty());
        assert(out@.to_multiset() =~= all.to_multiset());
    }
    out
}

/// The number of programs in `role` and of AUR programs.
fn count_programs(apps: &Vec<AppItem>) -> (r: (usize, usize, usize))
    ensures
        r.0 == count_role(apps@, InstallRole::Explicit),
        r.1 == count_role(apps@, InstallRole::Dependency),
        r.2 == count_origin(apps@, InstallOrigin::Aur),
{
    let mut explicit: usize = 0;
    let mut dependencies: usize = 0;
    let mut aur: usize = 0;
    let mut i: usize = 0;
    while i < apps.len()
        invariant
            i <= apps@.len(),
            explicit == count_role(apps@.subrange(0, i as int), InstallRole::Explicit),
            dependencies == count_role(apps@.subrange(0, i as int), InstallRole::Dependency),
            aur == count_origin(apps@.subrange(0, i as int), InstallOrigin::Aur),
            explicit <= i,
            dependencies <= i,
            aur <= i,
        decreases apps@.len() - i,
    {
        proof {
            assert(apps@.subrange(0, i + 1).drop_last() =~= apps@.subrange(0, i as int));
        }
        match apps[i].install_role {
            InstallRole::Explicit => explicit += 1,
            InstallRole::Dependency => dependencies += 1,
            _ => {},
        }
        match apps[i].origin {
            InstallOrigin::Aur => aur += 1,
            _ => {},
        }
        i += 1;
    }
    proof {
        assert(apps@.subrange(0, apps@.len() as int) =~= apps@);
    }
    (explicit, dependencies, aur)
}

/// The result of a scan: the programs in order of their lower-cased names,
/// the provided names, and the counts of explicit packages, dependencies,
/// executables, symlinks and AUR packages, the package counts taken over
/// the programs returned.
pub fn finish_scan(apps: Vec<AppItem>, provides_map: Vec<(String, String)>, binaries: usize, symlinks: usize) -> (r: ScanResult)
    ensures
        r.apps@.to_multiset() == apps@.to_multiset(),
        sorted_by_name(r.apps@),
        r.provides_map@ == provides_map@,
        r._stats.0 == count_role(r.apps@, InstallRole::Explicit),
        r._stats.1 == count_role(r.apps@, InstallRole::Dependency),
        r._stats.2 == binaries,
        r._stats.3 == symlinks,
        r._stats.4 == count_origin(r.apps@, InstallOrigin::Aur),
{
    let apps = sort_by_name(apps);
    let (explicit, dependencies, aur) = count_programs(&apps);
    ScanResult { apps, provides_map, _stats: (explicit, dependencies, binaries, symlinks, aur) }
}

/// The packages that make up the base system.
pub open spec fn core_system_package(name: Seq<char>) -> bool {
    ||| name == "coreutils"@
        || name == "util-linux"@
        || name == "findutils"@
        || name == "procps-ng"@
        || name == "grep"@
        || name == "sed"@
        || name == "gawk"@
        || name == "tar"@
        || name == "gzip"@
        || name == "bzip2"@
        || name == "xz"@
        || name == "bash"@
        || name == "shadow"@
        || name == "iproute2"@
        || name == "net-tools"@
        || name == "diffutils"@
        || name == "file"@
        || name == "glibc"@
        || name == "systemd"@
        || name == "systemd-libs"@
        || name == "pacman"@
        || name == "linux-cachyos"@
        || name == "linux-cachyos-headers"@
        || name == "filesystem"@
        || name == "bash-completion"@
        || name == "dbus"@
        || name == "dbus-broker"@
        || name == "polkit"@
        || name == "sudo"@
        || name == "pam"@
        || name == "systemd-sysvcompat"@
        || name == "zstd"@
        || name == "less"@
        || name == "which"@
        || name == "psmisc"@
}

fn is_core_system_package(name: &[char]) -> (r: bool)
    ensures
        r == core_system_package(name@),
{
    is_lit(name, "coreutils")
        || is_lit(name, "util-linux")
        || is_lit(name, "findutils")
        || is_lit(name, "procps-ng")
        || is_lit(name, "grep")
        || is_lit(name, "sed")
        || is_lit(name, "gawk")
        || is_lit(name, "tar")
        || is_lit(name, "gzip")
        || is_lit(name, "bzip2")
        || is_lit(name, "xz")
        || is_lit(name, "bash")
        || is_lit(name, "shadow")
        || is_lit(name, "iproute2")
        || is_lit(name, "net-tools")
        || is_lit(name, "diffutils")
        || is_lit(name, "file")
        || is_lit(name, "glibc")
        || is_lit(name, "systemd")
        || is_lit(name, "systemd-libs")
        || is_lit(name, "pacman")
        || is_lit(name, "linux-cachyos")
        || is_lit(name, "linux-cachyos-headers")
        || is_lit(name, "filesystem")
        || is_lit(name, "bash-completion")
        || is_lit(name, "dbus")
        || is_lit(name, "dbus-broker")
        || is_lit(name, "polkit")
        || is_lit(name, "sudo")
        || is_lit(name, "pam")
        || is_lit(name, "systemd-sysvcompat")
        || is_lit(name, "zstd")
        || is_lit(name, "less")
        || is_lit(name, "which")
        || is_lit(name, "psmisc")
}

/// The package groups of the base system.
pub open spec fn system_group(group: Seq<char>) -> bool {
    group == "base"@ || group == "base-devel"@ || group == "cachyos-base"@ || group == "system"@
}

/// The lower-cased package names that belong to the system: kernels, init,
/// the C library, drivers, graphics, audio, the message bus and
/// authentication.
pub open spec fn system_name(lower: Seq<char>) -> bool {
    ||| starts_with(lower, "linux-"@)
    ||| starts_with(lower, "systemd"@)
    ||| lower == "glibc"@
    ||| starts_with(lower, "nvidia-"@)
    ||| starts_with(lower, "wayland"@)
    ||| starts_with(lower, "mesa"@)
    ||| starts_with(lower, "pipewire"@)
    ||| lower == "wireplumber"@
    ||| starts_with(lower, "alsa-"@)
    ||| starts_with(lower, "dbus"@)
    ||| starts_with(lower, "polkit"@)
    ||| starts_with(lower, "pam"@)
}

/// A package is part of the system when it is one of the base packages (by
/// its exact name), belongs to a base group (groups compared lower-cased),
/// or has a system name (compared lower-cased).
pub open spec fn system_package(package: Seq<char>, groups: Seq<char>) -> bool {
    ||| core_system_package(package)
    ||| exists|i: int| 0 <= i < words(lowercase(groups)).len() && system_group(#[trigger] words(lowercase(groups))[i])
    ||| system_name(lowercase(package))
}

/// Whether a package belongs to the system rather than to the user's
/// programs; the description plays no part.
pub fn is_sys_package(pkg: &str, groups: &str, _desc: &str) -> (r: bool)
    ensures
        r == system_package(pkg@, groups@),
{
    let name = chars_of(pkg);
    let lower_pkg = chars_of(to_lowercase(pkg).as_str());
    let lower_groups = chars_of(to_lowercase(groups).as_str());
    let ghost gw = words(lower_groups@);
    if is_core_system_package(&name) {
        return true;
    }
    let ws = split_whitespace(&lower_groups);
    let mut i: usize = 0;
    while i < ws.len()
        invariant
            i <= ws@.len(),
            views(ws@) == gw,
            gw == words(lowercase(groups@)),
            forall|k: int| 0 <= k < i ==> !system_group(#[trigger] gw[k]),
        decreases ws@.len() - i,
    {
        let g = &ws[i];
        if is_lit(g, "base") || is_lit(g, "base-devel") || is_lit(g, "cachyos-base") || is_lit(g, "system") {
            proof {
                assert(gw[i as int] == ws@[i as int]@);
                assert(system_group(gw[i as int]));
            }
            return true;
        }
        proof {
            assert(gw[i as int] == ws@[i as int]@);
        }
        i += 1;
    }
    starts_lit(&lower_pkg, "linux-")
        || starts_lit(&lower_pkg, "systemd")
        || is_lit(&lower_pkg, "glibc")
        || starts_lit(&lower_pkg, "nvidia-")
        || starts_lit(&lower_pkg, "wayland")
        || starts_lit(&lower_pkg, "mesa")
        || starts_lit(&lower_pkg, "pipewire")
        || is_lit(&lower_pkg, "wireplumber")
        || starts_lit(&lower_pkg, "alsa-")
        || starts_lit(&lower_pkg, "dbus")
        || starts_lit(&lower_pkg, "polkit")
        || starts_lit(&lower_pkg, "pam")
}

/// The owner of each installed file in a file listing: the same reading as
/// the snapshot's, a trailing slash dropped from directories.
pub fn parse_pacman_ql(output: &str) -> (r: Vec<(String, String)>)
    ensures
        pair_views(r@) == owner_entries(lines_of(output@)),
{
    parse_file_owners(output)
}

pub open spec fn toolchain_origin(origin: InstallOrigin) -> bool {
    origin == InstallOrigin::Cargo || origin == InstallOrigin::Uv || origin == InstallOrigin::Npm
}

/// Programs read back from a saved scan: those of a toolchain origin are
/// toolchain-managed; nothing else changes.
pub fn normalize_cached_roles(apps: &mut Vec<AppItem>)
    ensures
        final(apps)@.len() == old(apps)@.len(),
        forall|i: int| 0 <= i < old(apps)@.len() ==> #[trigger] final(apps)@[i] == (if toolchain_origin(old(apps)@[i].origin) {
            AppItem { install_role: InstallRole::ToolchainManaged, ..old(apps)@[i] }
        } else {
            old(apps)@[i]
        }),
{
    let mut i: usize = 0;
    while i < apps.len()
        invariant
            i <= apps@.len(),
            apps@.len() == old(apps)@.len(),
            forall|k: int| 0 <= k < i ==> #[trigger] apps@[k] == (if toolchain_origin(old(apps)@[k].origin) {
                AppItem { install_role: InstallRole::ToolchainManaged, ..old(apps)@[k] }
            } else {
                old(apps)@[k]
            }),
            forall|k: int| i <= k < apps@.len() ==> #[trigger] apps@[k] == old(apps)@[k],
        decreases apps@.len() - i,
    {
        let app = &mut apps[i];
        match app.origin {
            InstallOrigin::Cargo | InstallOrigin::Uv | InstallOrigin::Npm => {
                app.install_role = InstallRole::ToolchainManaged;
            },
            _ => {},
        }
        i += 1;
    }
}

/// Each package name has one program record: the records of a snapshot
/// have distinct names.
pub proof fn lemma_package_records_have_distinct_names(s: PacmanSnapshot, apps: Seq<AppItem>)
    requires
        apps_from(apps, s, package_entries(s)),
    ensures
        forall|i: int, j: int| 0 <= i < j < apps.len() ==> (#[trigger] apps[i]).name@ != (#[trigger] apps[j]).name@,
{
    lemma_distinct_names_unique(entry_names(package_entries(s)));
    assert forall|i: int, j: int| 0 <= i < j < apps.len() implies (#[trigger] apps[i]).name@ != (#[trigger] apps[j]).name@ by {
        assert(app_names(apps)[i] == apps[i].name@);
        assert(app_names(apps)[j] == apps[j].name@);
    }
}

/// Every package of the snapshot has a record: a name is among the records
/// exactly when an explicit or dependency entry names it.
pub proof fn lemma_every_package_has_a_record(s: PacmanSnapshot, apps: Seq<AppItem>, name: Seq<char>)
    requires
        apps_from(apps, s, package_entries(s)),
    ensures
        app_names(apps).contains(name) <==> entry_names(package_entries(s)).contains(name),
{
    lemma_distinct_names_contains(entry_names(package_entries(s)), name);
}

} // verus!
