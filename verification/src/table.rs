//! The table of programs that a scan fills: each program under its key, with
//! the identity (the resolved path) of each of its executables, and how a
//! program found outside the package manager joins it: merged into the
//! program that already has its executable, or added under a key made of its
//! origin, state and name.
use crate::desktop::{entry_matches_app, entry_names_app, push_entry_once};
use crate::models::{AppItem, BinaryInfo, DesktopEntry, InstallOrigin, InstallRole, PackageCapabilities, ProgramState};
use crate::paths::{eq_ignore_ascii_case, eq_ignore_case, file_stem, path_file_stem, path_prefix, path_starts_with};
use crate::names::name_views;
use crate::records::{discovered_install_role, discovered_role, origin_is_more_specific};
use crate::text::{chars_of, join, push_str, rsplit_once, rsplit_once_chars, starts_lit, starts_with, string_of};
use vstd::prelude::*;

verus! {

/// A program found outside the package manager, as a scanner reports it.
pub struct StandaloneRecord {
    pub name: String,
    pub version: String,
    pub origin: InstallOrigin,
    pub state: ProgramState,
    pub description: String,
    pub binary: Option<BinaryInfo>,
}

/// One program of the table: its key, the program, and the identity of each
/// of its executables, in the order of its executables.
pub struct ProgramEntry {
    pub key: String,
    pub app: AppItem,
    pub identities: Vec<String>,
}

pub open spec fn entry_ok(e: ProgramEntry) -> bool {
    e.identities@.len() == e.app.binaries@.len()
}

/// Every program has one identity per executable.
pub open spec fn table_ok(t: Seq<ProgramEntry>) -> bool {
    forall|i: int| 0 <= i < t.len() ==> entry_ok(#[trigger] t[i])
}

/// No two programs are filed under the same key.
pub open spec fn keys_distinct(t: Seq<ProgramEntry>) -> bool {
    forall|i: int, j: int| 0 <= i < j < t.len() ==> (#[trigger] t[i]).key@ != (#[trigger] t[j]).key@
}

pub open spec fn owns(e: ProgramEntry, id: Seq<char>) -> bool {
    name_views(e.identities@).contains(id)
}

pub open spec fn is_first_owner(t: Seq<ProgramEntry>, id: Seq<char>, i: int) -> bool {
    0 <= i < t.len() && owns(t[i], id) && forall|j: int| 0 <= j < i ==> !owns(#[trigger] t[j], id)
}

/// The first program that has an executable of identity `id`.
pub open spec fn owner_of(t: Seq<ProgramEntry>, id: Seq<char>) -> Option<int> {
    if exists|i: int| is_first_owner(t, id, i) {
        Some(choose|i: int| is_first_owner(t, id, i))
    } else {
        None
    }
}

pub open spec fn is_first_key(t: Seq<ProgramEntry>, key: Seq<char>, i: int) -> bool {
    0 <= i < t.len() && t[i].key@ == key && forall|j: int| 0 <= j < i ==> (#[trigger] t[j]).key@ != key
}

/// The first program filed under `key`.
pub open spec fn key_index(t: Seq<ProgramEntry>, key: Seq<char>) -> Option<int> {
    if exists|i: int| is_first_key(t, key, i) {
        Some(choose|i: int| is_first_key(t, key, i))
    } else {
        None
    }
}

/// The key of a new program: its origin's code, its state's tags and its
/// name, joined by `:`.
pub open spec fn record_key(r: StandaloneRecord) -> Seq<char> {
    r.origin.code_text() + ":"@ + join(r.state.tags(), " · "@) + ":"@ + r.name@
}

/// A program found outside the package manager merged into `app`, when
/// `app` is one too: it gains a version it lacked; it takes the record's
/// origin, role and state when the record's origin says more than a local
/// installation, else only a broken state; and it takes the record's
/// description in place of none or a generic one.
pub open spec fn merged(app: AppItem, r: StandaloneRecord) -> AppItem {
    if app.install_role == InstallRole::Standalone || app.install_role == InstallRole::ToolchainManaged {
        let version = if app.version@.len() == 0 && r.version@.len() > 0 { r.version } else { app.version };
        let more_specific = app.origin == InstallOrigin::Local && r.origin != InstallOrigin::Local;
        let origin = if more_specific { r.origin } else { app.origin };
        let role = if more_specific { discovered_role(r.origin) } else { app.install_role };
        let state = if more_specific {
            r.state
        } else if r.state.broken {
            ProgramState { broken: true, ..app.state }
        } else {
            app.state
        };
        let desc = if (app.desc@.len() == 0 || starts_with(app.desc@, "Local custom tool"@)) && r.description@.len() > 0 {
            r.description
        } else {
            app.desc
        };
        AppItem { version, origin, install_role: role, state, desc, ..app }
    } else {
        app
    }
}

/// `after` is `before` with the executable added unless one of the same
/// identity is there.
pub open spec fn pushed_once(before: ProgramEntry, app: AppItem, after: ProgramEntry, binary: Option<BinaryInfo>, id: Option<Seq<char>>) -> bool {
    &&& after.key == before.key
    &&& match (binary, id) {
        (Some(b), Some(i)) => if owns(before, i) {
            after.app == app && after.identities@ == before.identities@
        } else {
            &&& after.app == (AppItem { binaries: after.app.binaries, ..app })
            &&& after.app.binaries@ == app.binaries@.push(b)
            &&& name_views(after.identities@) == name_views(before.identities@).push(i)
        },
        _ => after.app == app && after.identities@ == before.identities@,
    }
}

/// `e` is the new program of the record: named, versioned, placed and
/// described as the record says, of size `Local installation` and licenses
/// `N/A`, with the record's executable if it has one and nothing else.
pub open spec fn fresh_entry(e: ProgramEntry, r: StandaloneRecord, id: Option<Seq<char>>) -> bool {
    let app = e.app;
    &&& e.key@ == record_key(r)
    &&& app.name == r.name
    &&& app.version == r.version
    &&& app.origin == r.origin
    &&& app.install_role == discovered_role(r.origin)
    &&& app.state == r.state
    &&& app.size@ == "Local installation"@
    &&& app.install_date@.len() == 0
    &&& app.desc == r.description
    &&& app.url@.len() == 0
    &&& app.licenses@ == "N/A"@
    &&& app._owning_pkg@.len() == 0
    &&& app.representative_path@.len() == 0
    &&& app.required_by@.len() == 0
    &&& app.depends_on@.len() == 0
    &&& app.desktop_entries@.len() == 0
    &&& app.services@.len() == 0
    &&& !app.capabilities.has_gui && !app.capabilities.has_cli && !app.capabilities.has_library
        && !app.capabilities.has_service && !app.capabilities.has_job && !app.capabilities.has_plugin
        && !app.capabilities.is_meta && app.capabilities.cli_commands@.len() == 0
    &&& match (r.binary, id) {
        (Some(b), Some(i)) => app.binaries@ == seq![b] && name_views(e.identities@) == seq![i],
        _ => app.binaries@.len() == 0 && e.identities@.len() == 0,
    }
}

pub open spec fn opt_view(o: Option<String>) -> Option<Seq<char>> {
    match o {
        Some(s) => Some(s@),
        None => None,
    }
}

/// The program that the record joins: the first one with the record's
/// executable when merging by executable, else none.
pub open spec fn merge_target(t: Seq<ProgramEntry>, merge_by_binary_path: bool, id: Option<Seq<char>>) -> Option<int> {
    match id {
        Some(i) => if merge_by_binary_path { owner_of(t, i) } else { None },
        None => None,
    }
}

/// `after` is `before` with only the program at `i` changed.
pub open spec fn only_changed(before: Seq<ProgramEntry>, after: Seq<ProgramEntry>, i: int) -> bool {
    &&& after.len() == before.len()
    &&& forall|k: int| 0 <= k < before.len() && k != i ==> #[trigger] after[k] == before[k]
}

fn owns_identity(e: &ProgramEntry, id: &String) -> (r: bool)
    ensures
        r == owns(*e, id@),
{
    let mut k: usize = 0;
    while k < e.identities.len()
        invariant
            k <= e.identities@.len(),
            forall|q: int| 0 <= q < k ==> e.identities@[q]@ != id@,
        decreases e.identities@.len() - k,
    {
        if e.identities[k] == *id {
            proof {
                assert(name_views(e.identities@)[k as int] == id@);
            }
            return true;
        }
        k += 1;
    }
    proof {
        if name_views(e.identities@).contains(id@) {
            let q = choose|q: int| 0 <= q < e.identities@.len() && name_views(e.identities@)[q] == id@;
            assert(e.identities@[q]@ == id@);
        }
    }
    false
}

fn find_owner(t: &Vec<ProgramEntry>, id: &String) -> (r: Option<usize>)
    ensures
        match r {
            Some(i) => owner_of(t@, id@) == Some(i as int),
            None => owner_of(t@, id@) is None,
        },
{
    let mut i: usize = 0;
    while i < t.len()
        invariant
            i <= t@.len(),
            forall|j: int| 0 <= j < i ==> !owns(#[trigger] t@[j], id@),
        decreases t@.len() - i,
    {
        if owns_identity(&t[i], id) {
            proof {
                assert(is_first_owner(t@, id@, i as int));
                let c = choose|c: int| is_first_owner(t@, id@, c);
                if c < i {
                    assert(!owns(t@[c], id@));
                }
                if i < c {
                    assert(!owns(t@[i as int], id@));
                }
            }
            return Some(i);
        }
        i += 1;
    }
    None
}

/// The position of the first program filed under `key`.
pub fn find_key(t: &Vec<ProgramEntry>, key: &String) -> (r: Option<usize>)
    ensures
        match r {
            Some(i) => key_index(t@, key@) == Some(i as int),
            None => key_index(t@, key@) is None,
        },
{
    let mut i: usize = 0;
    while i < t.len()
        invariant
            i <= t@.len(),
            forall|j: int| 0 <= j < i ==> (#[trigger] t@[j]).key@ != key@,
        decreases t@.len() - i,
    {
        if t[i].key == *key {
            proof {
                assert(is_first_key(t@, key@, i as int));
                let c = choose|c: int| is_first_key(t@, key@, c);
                if c < i {
                    assert(t@[c].key@ != key@);
                }
                if i < c {
                    assert(t@[i as int].key@ != key@);
                }
            }
            return Some(i);
        }
        i += 1;
    }
    None
}

/// Adds the executable to the program unless one of the same identity is
/// there.
fn push_binary_once(e: &mut ProgramEntry, binary: Option<BinaryInfo>, id: Option<String>)
    requires
        entry_ok(*old(e)),
    ensures
        entry_ok(*final(e)),
        pushed_once(*old(e), old(e).app, *final(e), binary, opt_view(id)),
{
    match (binary, id) {
        (Some(b), Some(i)) => {
            if !owns_identity(e, &i) {
                let ghost ids = name_views(e.identities@);
                e.app.binaries.push(b);
                e.identities.push(i);
                proof {
                    assert(name_views(e.identities@) =~= ids.push(name_views(e.identities@).last()));
                }
            }
        },
        _ => {},
    }
}

/// Merges the record into the program, when it is one found outside the
/// package manager.
#[verifier::spinoff_prover]
#[verifier::rlimit(100)]
fn merge_record(app: &mut AppItem, record: StandaloneRecord) -> (binary: Option<BinaryInfo>)
    ensures
        *final(app) == merged(*old(app), record),
        binary == record.binary,
{
    let ghost r = record;
    let StandaloneRecord { name, version, origin, state, description, binary } = record;
    if app.install_role.is_external() {
        let take_version = app.version.as_str().is_empty() && !version.as_str().is_empty();
        let more = origin_is_more_specific(origin, app.origin);
        let mut new_state = app.state;
        if more {
            new_state = state;
        } else if state.broken {
            new_state.broken = true;
        }
        let new_origin = if more { origin } else { app.origin };
        let new_role = if more { discovered_install_role(origin) } else { app.install_role };
        let generic = starts_lit(&chars_of(app.desc.as_str()), "Local custom tool");
        let take_desc = (app.desc.as_str().is_empty() || generic) && !description.as_str().is_empty();
        let ghost m = merged(*old(app), r);
        assert(new_state == m.state);
        assert(new_origin == m.origin);
        assert(new_role == m.install_role);
        app.origin = new_origin;
        app.install_role = new_role;
        app.state = new_state;
        if take_version {
            app.version = version;
        }
        if take_desc {
            app.desc = description;
        }
        assert(app.version == m.version);
        assert(app.desc == m.desc);
    }
    binary
}

/// The key of a new program.
fn key_for(record: &StandaloneRecord) -> (key: String)
    ensures
        key@ == record_key(*record),
{
    let mut v: Vec<char> = Vec::new();
    push_str(&mut v, record.origin.code());
    push_str(&mut v, ":");
    push_str(&mut v, record.state.tag_summary().as_str());
    push_str(&mut v, ":");
    push_str(&mut v, record.name.as_str());
    string_of(&v)
}

/// Files a program found outside the package manager and returns its key.
/// With `merge_by_binary_path`, a record whose executable (of identity
/// `identity`) a program already has is merged into the first such program;
/// otherwise the record is filed under its own key, joining the program
/// there or starting a new one. The executable is added once.
pub fn upsert(table: &mut Vec<ProgramEntry>, record: StandaloneRecord, identity: Option<String>, merge_by_binary_path: bool) -> (key: String)
    requires
        table_ok(old(table)@),
        record.binary is Some <==> identity is Some,
    ensures
        table_ok(final(table)@),
        keys_distinct(old(table)@) ==> keys_distinct(final(table)@),
        match merge_target(old(table)@, merge_by_binary_path, opt_view(identity)) {
            Some(i) => {
                &&& only_changed(old(table)@, final(table)@, i)
                &&& key == old(table)@[i].key
                &&& pushed_once(old(table)@[i], merged(old(table)@[i].app, record), final(table)@[i], record.binary, opt_view(identity))
            },
            None => {
                &&& key@ == record_key(record)
                &&& match key_index(old(table)@, record_key(record)) {
                    Some(j) => {
                        &&& only_changed(old(table)@, final(table)@, j)
                        &&& pushed_once(old(table)@[j], old(table)@[j].app, final(table)@[j], record.binary, opt_view(identity))
                    },
                    None => {
                        &&& final(table)@.len() == old(table)@.len() + 1
                        &&& forall|k: int| 0 <= k < old(table)@.len() ==> #[trigger] final(table)@[k] == old(table)@[k]
                        &&& fresh_entry(final(table)@[old(table)@.len() as int], record, opt_view(identity))
                    },
                }
            },
        },
{
    let ghost t0 = table@;
    let ghost r = record;
    let target = match &identity {
        Some(id) => if merge_by_binary_path { find_owner(table, id) } else { None },
        None => None,
    };
    match target {
        Some(i) => {
            let e = &mut table[i];
            let binary = merge_record(&mut e.app, record);
            proof {
                assert(entry_ok(*e));
            }
            push_binary_once(e, binary, identity);
            let key = table[i].key.clone();
            proof {
                assert forall|k: int| 0 <= k < table@.len() implies entry_ok(#[trigger] table@[k]) by {
                    if k != i {
                        assert(table@[k] == t0[k]);
                    }
                }
                if keys_distinct(t0) {
                    assert forall|a: int, b: int| 0 <= a < b < table@.len() implies (#[trigger] table@[a]).key@ != (#[trigger] table@[b]).key@ by {
                        assert(table@[a].key == t0[a].key);
                        assert(table@[b].key == t0[b].key);
                    }
                }
            }
            key
        },
        None => {
            let key = key_for(&record);
            match find_key(table, &key) {
                Some(j) => {
                    let e = &mut table[j];
                    push_binary_once(e, record.binary, identity);
                    proof {
                        assert forall|k: int| 0 <= k < table@.len() implies entry_ok(#[trigger] table@[k]) by {
                            if k != j {
                                assert(table@[k] == t0[k]);
                            }
                        }
                        if keys_distinct(t0) {
                            assert forall|a: int, b: int| 0 <= a < b < table@.len() implies (#[trigger] table@[a]).key@ != (#[trigger] table@[b]).key@ by {
                                assert(table@[a].key == t0[a].key);
                                assert(table@[b].key == t0[b].key);
                            }
                        }
                    }
                    key
                },
                None => {
                    let StandaloneRecord { name, version, origin, state, description, binary } = record;
                    let mut binaries: Vec<BinaryInfo> = Vec::new();
                    let mut identities: Vec<String> = Vec::new();
                    match (binary, identity) {
                        (Some(b), Some(i)) => {
                            binaries.push(b);
                            identities.push(i);
                            proof {
                                assert(binaries@ =~= seq![r.binary->0]);
                                assert(name_views(identities@) =~= seq![identities@[0]@]);
                            }
                        },
                        _ => {},
                    }
                    let app = AppItem {
                        name,
                        version,
                        origin,
                        install_role: discovered_install_role(origin),
                        state,
                        size: "Local installation".to_string(),
                        install_date: String::new(),
                        desc: description,
                        url: String::new(),
                        licenses: "N/A".to_string(),
                        _owning_pkg: String::new(),
                        representative_path: String::new(),
                        binaries,
                        required_by: Vec::new(),
                        depends_on: Vec::new(),
                        desktop_entries: Vec::new(),
                        services: Vec::new(),
                        capabilities: PackageCapabilities::none(),
                    };
                    table.push(ProgramEntry { key: key.clone(), app, identities });
                    proof {
                        assert forall|k: int| 0 <= k < table@.len() implies entry_ok(#[trigger] table@[k]) by {
                            if k < t0.len() {
                                assert(table@[k] == t0[k]);
                            }
                        }
                        if keys_distinct(t0) {
                            assert forall|a: int, b: int| 0 <= a < b < table@.len() implies (#[trigger] table@[a]).key@ != (#[trigger] table@[b]).key@ by {
                                assert(table@[a] == t0[a]);
                                if b < t0.len() {
                                    assert(table@[b] == t0[b]);
                                } else {
                                    assert(!is_first_key(t0, key@, a));
                                }
                            }
                        }
                    }
                    key
                },
            }
        },
    }
}

/// A launcher attached to a program's entry: added unless one from the same
/// file is there; nothing else changes.
pub open spec fn entry_attached(before: ProgramEntry, after: ProgramEntry, entry: DesktopEntry) -> bool {
    &&& after.key == before.key
    &&& after.identities == before.identities
    &&& after.app == (AppItem { desktop_entries: after.app.desktop_entries, ..before.app })
    &&& if exists|k: int| 0 <= k < before.app.desktop_entries@.len() && #[trigger] before.app.desktop_entries@[k].file_path@ == entry.file_path@ {
        after.app.desktop_entries@ == before.app.desktop_entries@
    } else {
        after.app.desktop_entries@ == before.app.desktop_entries@.push(entry)
    }
}

fn attach_entry(e: &mut ProgramEntry, entry: DesktopEntry)
    ensures
        entry_attached(*old(e), *final(e), entry),
{
    push_entry_once(&mut e.app.desktop_entries, entry);
}

/// Attaches the launcher to every program whose executables or name it
/// matches, and says whether any did.
pub fn attach_to_matching(table: &mut Vec<ProgramEntry>, entry: &DesktopEntry) -> (matched: bool)
    ensures
        final(table)@.len() == old(table)@.len(),
        matched == exists|i: int| 0 <= i < old(table)@.len() && entry_names_app(*entry, #[trigger] old(table)@[i].app),
        forall|i: int| 0 <= i < old(table)@.len() ==> if entry_names_app(*entry, #[trigger] old(table)@[i].app) {
            entry_attached(old(table)@[i], final(table)@[i], *entry)
        } else {
            final(table)@[i] == old(table)@[i]
        },
{
    let mut matched = false;
    let mut i: usize = 0;
    while i < table.len()
        invariant
            i <= table@.len(),
            table@.len() == old(table)@.len(),
            matched == exists|k: int| 0 <= k < i && entry_names_app(*entry, #[trigger] old(table)@[k].app),
            forall|k: int| 0 <= k < i ==> if entry_names_app(*entry, #[trigger] old(table)@[k].app) {
                entry_attached(old(table)@[k], table@[k], *entry)
            } else {
                table@[k] == old(table)@[k]
            },
            forall|k: int| i <= k < table@.len() ==> #[trigger] table@[k] == old(table)@[k],
        decreases table@.len() - i,
    {
        if entry_matches_app(entry, &table[i].app) {
            attach_entry(&mut table[i], entry.duplicate());
            matched = true;
        }
        i += 1;
    }
    matched
}

/// The name of the program a launcher starts: for a broken launcher, what
/// follows the last `.` of the launcher file's stem (the whole stem without
/// one, the launcher's name without a stem); else the program's stem (the
/// launcher's name without one).
pub open spec fn launcher_program_name(entry_path: Seq<char>, entry_name: Seq<char>, program: Seq<char>, broken: bool) -> Seq<char> {
    if broken {
        let stem = match path_file_stem(entry_path) {
            Some(s) => s,
            None => entry_name,
        };
        match rsplit_once(stem, '.') {
            Some(parts) => parts.1,
            None => stem,
        }
    } else {
        match path_file_stem(program) {
            Some(s) => s,
            None => entry_name,
        }
    }
}

pub fn launcher_program(entry: &DesktopEntry, program: &str, broken: bool) -> (r: String)
    ensures
        r@ == launcher_program_name(entry.file_path@, entry.name@, program@, broken),
{
    if broken {
        let stem = match file_stem(entry.file_path.as_str()) {
            Some(s) => s,
            None => entry.name.clone(),
        };
        match rsplit_once_chars(&chars_of(stem.as_str()), '.') {
            Some(parts) => string_of(&parts.1),
            None => stem,
        }
    } else {
        match file_stem(program) {
            Some(s) => s,
            None => entry.name.clone(),
        }
    }
}

/// How a program found through a launcher is described: as a broken
/// launcher with its comment, by its comment, or by the launcher's file.
pub open spec fn launcher_description_text(entry: DesktopEntry, broken: bool) -> Seq<char> {
    if broken {
        "Broken desktop launcher: "@ + entry.comment@
    } else if entry.comment@.len() == 0 {
        "Application discovered from "@ + entry.file_path@
    } else {
        entry.comment@
    }
}

pub fn launcher_description(entry: &DesktopEntry, broken: bool) -> (r: String)
    ensures
        r@ == launcher_description_text(*entry, broken),
{
    if broken {
        let mut v = chars_of("Broken desktop launcher: ");
        push_str(&mut v, entry.comment.as_str());
        string_of(&v)
    } else if entry.comment.as_str().is_empty() {
        let mut v = chars_of("Application discovered from ");
        push_str(&mut v, entry.file_path.as_str());
        string_of(&v)
    } else {
        entry.comment.clone()
    }
}

/// How a crate installed with Cargo is described.
pub fn cargo_description(package: &str) -> (r: String)
    ensures
        r@ == "Cargo-installed Rust package "@ + package@,
{
    let mut v = chars_of("Cargo-installed Rust package ");
    push_str(&mut v, package);
    string_of(&v)
}

/// Marks the program filed under `i` as a local file, dated `install_date`
/// unless it has a date already.
pub fn mark_local_file(table: &mut Vec<ProgramEntry>, i: usize, install_date: String)
    requires
        i < old(table)@.len(),
    ensures
        final(table)@.len() == old(table)@.len(),
        only_changed(old(table)@, final(table)@, i as int),
        final(table)@[i as int].key == old(table)@[i as int].key,
        final(table)@[i as int].identities == old(table)@[i as int].identities,
        final(table)@[i as int].app == (AppItem {
            size: final(table)@[i as int].app.size,
            install_date: final(table)@[i as int].app.install_date,
            ..old(table)@[i as int].app
        }),
        final(table)@[i as int].app.size@ == "Local File"@,
        final(table)@[i as int].app.install_date@ == (if old(table)@[i as int].app.install_date@.len() == 0 {
            install_date@
        } else {
            old(table)@[i as int].app.install_date@
        }),
{
    let e = &mut table[i];
    if e.app.install_date.as_str().is_empty() {
        e.app.install_date = install_date;
    }
    e.app.size = "Local File".to_string();
    proof {
        reveal_strlit("Local File");
    }
}

/// The program has an executable named `name`.
pub open spec fn has_binary_named(e: ProgramEntry, name: Seq<char>) -> bool {
    exists|b: int| 0 <= b < e.app.binaries@.len() && (#[trigger] e.app.binaries@[b]).name@ == name
}

pub open spec fn is_first_named(t: Seq<ProgramEntry>, name: Seq<char>, i: int) -> bool {
    0 <= i < t.len() && has_binary_named(t[i], name) && forall|j: int| 0 <= j < i ==> !has_binary_named(#[trigger] t[j], name)
}

/// The first program with an executable named `name`.
pub open spec fn named_owner(t: Seq<ProgramEntry>, name: Seq<char>) -> Option<int> {
    if exists|i: int| is_first_named(t, name, i) {
        Some(choose|i: int| is_first_named(t, name, i))
    } else {
        None
    }
}

/// The program that a command runs: the first with an executable of the
/// command's identity; else, for a command not given by an absolute path,
/// the first with an executable of the command's file name.
pub open spec fn command_owner(t: Seq<ProgramEntry>, id: Seq<char>, name: Option<Seq<char>>, absolute: bool) -> Option<int> {
    match owner_of(t, id) {
        Some(i) => Some(i),
        None => match name {
            Some(n) => if absolute { None } else { named_owner(t, n) },
            None => None,
        },
    }
}

fn has_binary_named_exec(e: &ProgramEntry, name: &String) -> (r: bool)
    ensures
        r == has_binary_named(*e, name@),
{
    let mut b: usize = 0;
    while b < e.app.binaries.len()
        invariant
            b <= e.app.binaries@.len(),
            forall|q: int| 0 <= q < b ==> (#[trigger] e.app.binaries@[q]).name@ != name@,
        decreases e.app.binaries@.len() - b,
    {
        if e.app.binaries[b].name == *name {
            return true;
        }
        b += 1;
    }
    false
}

fn find_named(t: &Vec<ProgramEntry>, name: &String) -> (r: Option<usize>)
    ensures
        match r {
            Some(i) => named_owner(t@, name@) == Some(i as int),
            None => named_owner(t@, name@) is None,
        },
{
    let mut i: usize = 0;
    while i < t.len()
        invariant
            i <= t@.len(),
            forall|j: int| 0 <= j < i ==> !has_binary_named(#[trigger] t@[j], name@),
        decreases t@.len() - i,
    {
        if has_binary_named_exec(&t[i], name) {
            proof {
                assert(is_first_named(t@, name@, i as int));
                let c = choose|c: int| is_first_named(t@, name@, c);
                if c < i {
                    assert(!has_binary_named(t@[c], name@));
                }
                if i < c {
                    assert(!has_binary_named(t@[i as int], name@));
                }
            }
            return Some(i);
        }
        i += 1;
    }
    None
}

/// The key of the program that a command runs (see `command_owner`), given
/// the command's identity, its file name, and whether it is an absolute path.
pub fn key_for_command(table: &Vec<ProgramEntry>, identity: &String, name: &Option<String>, absolute: bool) -> (r: Option<String>)
    ensures
        opt_view(r) == match command_owner(table@, identity@, opt_view(*name), absolute) {
            Some(i) => Some(table@[i].key@),
            None => None,
        },
{
    match find_owner(table, identity) {
        Some(i) => Some(table[i].key.clone()),
        None => match name {
            Some(n) => {
                if absolute {
                    None
                } else {
                    match find_named(table, n) {
                        Some(i) => Some(table[i].key.clone()),
                        None => None,
                    }
                }
            },
            None => None,
        },
    }
}

/// What a unit or D-Bus service file finds of its program in the table.
pub enum ProgramLookup {
    /// The program filed under this key.
    Found(String),
    /// No program yet: one is made for the file's command.
    Add,
    /// The file names no program.
    Missing,
}

/// The program a service file belongs to: its owning package when that is in
/// the table; else the program its command runs (identity, file name, whether
/// absolute).
pub open spec fn service_program(
    t: Seq<ProgramEntry>,
    owner: Option<Seq<char>>,
    command: Option<(Seq<char>, Option<Seq<char>>, bool)>,
) -> Option<Seq<char>> {
    match owner {
        Some(o) if key_index(t, o) is Some => Some(o),
        _ => match command {
            Some((id, name, absolute)) => match command_owner(t, id, name, absolute) {
                Some(i) => Some(t[i].key@),
                None => None,
            },
            None => None,
        },
    }
}

pub open spec fn command_view(c: Option<(String, Option<String>, bool)>) -> Option<(Seq<char>, Option<Seq<char>>, bool)> {
    match c {
        Some((id, name, absolute)) => Some((id@, opt_view(name), absolute)),
        None => None,
    }
}

pub fn lookup_service_program(table: &Vec<ProgramEntry>, owner: &Option<String>, command: &Option<(String, Option<String>, bool)>) -> (r: ProgramLookup)
    ensures
        match r {
            ProgramLookup::Found(k) => service_program(table@, opt_view(*owner), command_view(*command)) == Some(k@),
            ProgramLookup::Add => service_program(table@, opt_view(*owner), command_view(*command)) is None && command.is_some(),
            ProgramLookup::Missing => service_program(table@, opt_view(*owner), command_view(*command)) is None && command.is_none(),
        },
{
    if let Some(o) = owner {
        if find_key(table, o).is_some() {
            return ProgramLookup::Found(o.clone());
        }
    }
    match command {
        Some((identity, name, absolute)) => match key_for_command(table, identity, name, *absolute) {
            Some(k) => ProgramLookup::Found(k),
            None => ProgramLookup::Add,
        },
        None => ProgramLookup::Missing,
    }
}

/// Some program has an executable whose identity lies under `root` (by
/// whole path components).
pub open spec fn has_executable_under(t: Seq<ProgramEntry>, root: Seq<char>) -> bool {
    exists|i: int, k: int| 0 <= i < t.len() && 0 <= k < t[i].identities@.len() && path_prefix((#[trigger] t[i].identities@[k])@, root)
}

fn entry_under(e: &ProgramEntry, root: &str) -> (r: bool)
    ensures
        r == exists|k: int| 0 <= k < e.identities@.len() && path_prefix((#[trigger] e.identities@[k])@, root@),
{
    let mut k: usize = 0;
    while k < e.identities.len()
        invariant
            k <= e.identities@.len(),
            forall|q: int| 0 <= q < k ==> !path_prefix((#[trigger] e.identities@[q])@, root@),
        decreases e.identities@.len() - k,
    {
        if path_starts_with(e.identities[k].as_str(), root) {
            return true;
        }
        k += 1;
    }
    false
}

pub fn executable_under(table: &Vec<ProgramEntry>, root: &str) -> (r: bool)
    ensures
        r == has_executable_under(table@, root@),
{
    let mut i: usize = 0;
    while i < table.len()
        invariant
            i <= table@.len(),
            forall|a: int, k: int| 0 <= a < i && 0 <= k < table@[a].identities@.len() ==> !path_prefix((#[trigger] table@[a].identities@[k])@, root@),
        decreases table@.len() - i,
    {
        if entry_under(&table[i], root) {
            return true;
        }
        i += 1;
    }
    false
}

/// Adds an executable that a package owns to the program filed under the
/// package's name, with its identity; nothing changes when there is none.
pub fn attach_package_binary(table: &mut Vec<ProgramEntry>, package: &String, binary: BinaryInfo, identity: String)
    requires
        table_ok(old(table)@),
    ensures
        table_ok(final(table)@),
        match key_index(old(table)@, package@) {
            Some(i) => {
                &&& only_changed(old(table)@, final(table)@, i)
                &&& final(table)@[i].key == old(table)@[i].key
                &&& final(table)@[i].app == (AppItem { binaries: final(table)@[i].app.binaries, ..old(table)@[i].app })
                &&& final(table)@[i].app.binaries@ == old(table)@[i].app.binaries@.push(binary)
                &&& name_views(final(table)@[i].identities@) == name_views(old(table)@[i].identities@).push(identity@)
            },
            None => final(table)@ == old(table)@,
        },
{
    match find_key(table, package) {
        Some(i) => {
            let ghost before = table@;
            let ghost ids = name_views(table@[i as int].identities@);
            let e = &mut table[i];
            e.app.binaries.push(binary);
            e.identities.push(identity);
            proof {
                assert(name_views(table@[i as int].identities@) =~= ids.push(identity@));
                assert forall|k: int| 0 <= k < table@.len() implies entry_ok(#[trigger] table@[k]) by {
                    if k != i {
                        assert(table@[k] == before[k]);
                    }
                }
            }
        },
        None => {},
    }
}

/// A program other than a local installation carries the name, compared
/// without regard to ASCII case.
pub open spec fn named_package_in(table: Seq<ProgramEntry>, name: Seq<char>) -> bool {
    exists|i: int| 0 <= i < table.len() && eq_ignore_ascii_case((#[trigger] table[i]).app.name@, name)
        && table[i].app.origin != InstallOrigin::Local
}

pub fn same_named_package_exists(table: &Vec<ProgramEntry>, name: &str) -> (r: bool)
    ensures
        r == named_package_in(table@, name@),
{
    let n = chars_of(name);
    let mut i: usize = 0;
    while i < table.len()
        invariant
            i <= table@.len(),
            n@ == name@,
            forall|k: int| 0 <= k < i ==> !(eq_ignore_ascii_case((#[trigger] table@[k]).app.name@, name@) && table@[k].app.origin != InstallOrigin::Local),
        decreases table@.len() - i,
    {
        let e = &table[i];
        if eq_ignore_case(&chars_of(e.app.name.as_str()), &n) && e.app.origin != InstallOrigin::Local {
            proof {
                assert(eq_ignore_ascii_case(table@[i as int].app.name@, name@));
            }
            return true;
        }
        i += 1;
    }
    false
}

/// How an installation under `/opt` is described: as a possible leftover
/// when a package of the same name is installed, else as unlinked.
pub fn opt_description(root: &str, same_named_package: bool) -> (r: String)
    ensures
        r@ == (if same_named_package {
            "Possible leftover manual installation under "@ + root@ + "; a same-named package is also installed"@
        } else {
            "Unlinked manual installation under "@ + root@
        }),
{
    if same_named_package {
        let mut v = chars_of("Possible leftover manual installation under ");
        push_str(&mut v, root);
        push_str(&mut v, "; a same-named package is also installed");
        string_of(&v)
    } else {
        let mut v = chars_of("Unlinked manual installation under ");
        push_str(&mut v, root);
        string_of(&v)
    }
}

} // verus!
