//! The services of a program: what a systemd unit or a D-Bus service file
//! makes of one, how a service joins a program only once, which units start
//! others, and which units are running.
use crate::models::{AppItem, ServiceInfo, ServiceKind};
use crate::names::name_views;
use crate::paths::{extension, file_name, file_stem, opt_string_view, path_extension, path_file_name, path_file_stem};
use crate::text::{chars_of, ends_lit, ends_with, is_lit, lines, lines_of, push_str, split_whitespace, string_of, views, words};
use crate::unit_file::{is_job, unit_is_job, unit_values, values_for_key};
use vstd::prelude::*;

verus! {

pub open spec fn scope_text(user: bool) -> Seq<char> {
    if user { "User"@ } else { "System"@ }
}

/// How a unit's scope is shown.
pub fn scope_label(user: bool) -> (r: &'static str)
    ensures
        r@ == scope_text(user),
{
    if user { "User" } else { "System" }
}

/// The command of a unit: its first `ExecStart=` in `[Service]`.
pub open spec fn unit_command(content: Seq<char>) -> Option<Seq<char>> {
    let starts = unit_values(content, "Service"@, "ExecStart"@);
    if starts.len() > 0 { Some(starts[0]) } else { None }
}

pub open spec fn kind_of(content: Seq<char>) -> ServiceKind {
    if is_job(content) { ServiceKind::Job } else { ServiceKind::Daemon }
}

/// `s` is the service that the unit `name` at `file_path` with `content`
/// describes: its command, a job when its type is `oneshot` and a daemon
/// otherwise, with the scope, activating units, enablement, run state and
/// brokenness given.
pub open spec fn unit_service_ok(
    s: ServiceInfo,
    name: Seq<char>,
    file_path: Seq<char>,
    content: Seq<char>,
    scope: Seq<char>,
    activators: Seq<Seq<char>>,
    enabled: bool,
    running: Option<bool>,
    broken: bool,
) -> bool {
    &&& s.name@ == name
    &&& s.file_path@ == file_path
    &&& unit_command(content) == Some(s.command@)
    &&& s.scope@ == scope
    &&& s.kind == kind_of(content)
    &&& name_views(s.activators@) == activators
    &&& s.enabled == enabled
    &&& s.running == running
    &&& s.broken == broken
}

/// The service of a systemd unit, or nothing when the unit starts no
/// command.
pub fn unit_service(
    name: &str,
    file_path: &str,
    content: &str,
    scope: &str,
    activators: Vec<String>,
    enabled: bool,
    running: Option<bool>,
    broken: bool,
) -> (r: Option<ServiceInfo>)
    ensures
        r is None <==> unit_command(content@) is None,
        r matches Some(s) ==> unit_service_ok(s, name@, file_path@, content@, scope@, name_views(activators@), enabled, running, broken),
{
    let starts = values_for_key(content, "Service", "ExecStart");
    if starts.len() == 0 {
        return None;
    }
    proof {
        assert(name_views(starts@)[0] == starts@[0]@);
    }
    let kind = if unit_is_job(content) { ServiceKind::Job } else { ServiceKind::Daemon };
    Some(ServiceInfo {
        name: name.to_string(),
        file_path: file_path.to_string(),
        command: starts[0].clone(),
        scope: scope.to_string(),
        kind,
        activators,
        enabled,
        running,
        broken,
    })
}

/// The service that a dangling unit link stands for.
pub fn broken_unit_service(name: &str, file_path: &str, scope: &str, enabled: bool) -> (s: ServiceInfo)
    ensures
        s.name@ == name@,
        s.file_path@ == file_path@,
        s.command@.len() == 0,
        s.scope@ == scope@,
        s.kind == ServiceKind::Daemon,
        s.activators@.len() == 0,
        s.enabled == enabled,
        s.running is None,
        s.broken,
{
    ServiceInfo {
        name: name.to_string(),
        file_path: file_path.to_string(),
        command: String::new(),
        scope: scope.to_string(),
        kind: ServiceKind::Daemon,
        activators: Vec::new(),
        enabled,
        running: None,
        broken: true,
    }
}

pub open spec fn prefixed(prefix: Seq<char>, text: Seq<char>) -> Seq<char> {
    prefix + text
}

fn prefixed_string(prefix: &str, text: &str) -> (r: String)
    ensures
        r@ == prefixed(prefix@, text@),
{
    let mut v: Vec<char> = Vec::new();
    push_str(&mut v, prefix);
    push_str(&mut v, text);
    string_of(&v)
}

/// How a dangling unit link is described.
pub fn broken_unit_description(path: &str) -> (r: String)
    ensures
        r@ == prefixed("Broken systemd unit link at "@, path@),
{
    prefixed_string("Broken systemd unit link at ", path)
}

/// How a program found through a D-Bus service file is described.
pub fn dbus_program_description(path: &str) -> (r: String)
    ensures
        r@ == prefixed("Program discovered from D-Bus service "@, path@),
{
    prefixed_string("Program discovered from D-Bus service ", path)
}

/// The activator that a D-Bus service file stands for.
pub fn dbus_activator(unit_name: &str) -> (r: String)
    ensures
        r@ == prefixed("D-Bus: "@, unit_name@),
{
    prefixed_string("D-Bus: ", unit_name)
}

/// The service of a D-Bus service file that names a command: a daemon in the
/// D-Bus scope, enabled, started by the bus.
pub fn dbus_service(name: &str, file_path: &str, exec: &str, activator: String, broken: bool) -> (s: ServiceInfo)
    ensures
        s.name@ == name@,
        s.file_path@ == file_path@,
        s.command@ == exec@,
        s.scope@ == "D-Bus"@,
        s.kind == ServiceKind::Daemon,
        name_views(s.activators@) == seq![activator@],
        s.enabled,
        s.running is None,
        s.broken == broken,
{
    let activators = vec![activator];
    proof {
        assert(name_views(activators@) =~= seq![activators@[0]@]);
    }
    ServiceInfo {
        name: name.to_string(),
        file_path: file_path.to_string(),
        command: exec.to_string(),
        scope: "D-Bus".to_string(),
        kind: ServiceKind::Daemon,
        activators,
        enabled: true,
        running: None,
        broken,
    }
}

/// A service of that file and name is among `services`.
pub open spec fn has_service(services: Seq<ServiceInfo>, file_path: Seq<char>, name: Seq<char>) -> bool {
    exists|i: int| 0 <= i < services.len() && #[trigger] services[i].file_path@ == file_path && services[i].name@ == name
}

/// Adds `service` to the program unless a service of the same file and name
/// is there already; nothing else of the program changes.
pub fn push_service_once(app: &mut AppItem, service: ServiceInfo)
    ensures
        final(app).services@ == (if has_service(old(app).services@, service.file_path@, service.name@) {
            old(app).services@
        } else {
            old(app).services@.push(service)
        }),
        *final(app) == (AppItem { services: final(app).services, ..*old(app) }),
{
    let mut i: usize = 0;
    while i < app.services.len()
        invariant
            i <= app.services@.len(),
            app.services@ == old(app).services@,
            *app == *old(app),
            forall|k: int| 0 <= k < i ==> !(#[trigger] app.services@[k].file_path@ == service.file_path@ && app.services@[k].name@ == service.name@),
        decreases app.services@.len() - i,
    {
        if app.services[i].file_path == service.file_path && app.services[i].name == service.name {
            return;
        }
        i += 1;
    }
    app.services.push(service);
}

/// The service after a D-Bus service file that starts the unit `unit` was
/// seen: the activator is added once to a service of that name; nothing else
/// changes.
pub open spec fn activated(before: ServiceInfo, after: ServiceInfo, unit: Seq<char>, activator: Seq<char>) -> bool {
    &&& after == (ServiceInfo { activators: after.activators, ..before })
    &&& name_views(after.activators@) == (if before.name@ == unit && !name_views(before.activators@).contains(activator) {
        name_views(before.activators@).push(activator)
    } else {
        name_views(before.activators@)
    })
}

fn contains_string(v: &Vec<String>, x: &String) -> (r: bool)
    ensures
        r == name_views(v@).contains(x@),
{
    let mut i: usize = 0;
    while i < v.len()
        invariant
            i <= v@.len(),
            forall|k: int| 0 <= k < i ==> v@[k]@ != x@,
        decreases v@.len() - i,
    {
        if v[i] == *x {
            proof {
                assert(name_views(v@)[i as int] == x@);
            }
            return true;
        }
        i += 1;
    }
    proof {
        if name_views(v@).contains(x@) {
            let k = choose|k: int| 0 <= k < v@.len() && name_views(v@)[k] == x@;
            assert(v@[k]@ == x@);
        }
    }
    false
}

fn activate_service(service: &mut ServiceInfo, unit: &String, activator: &String)
    ensures
        activated(*old(service), *final(service), unit@, activator@),
{
    if service.name == *unit && !contains_string(&service.activators, activator) {
        service.activators.push(activator.clone());
        proof {
            assert(name_views(service.activators@) =~= name_views(old(service).activators@).push(activator@));
        }
    }
}

fn activate_services(app: &mut AppItem, unit: &String, activator: &String)
    ensures
        *final(app) == (AppItem { services: final(app).services, ..*old(app) }),
        final(app).services@.len() == old(app).services@.len(),
        forall|j: int| 0 <= j < old(app).services@.len() ==> activated(#[trigger] old(app).services@[j], final(app).services@[j], unit@, activator@),
{
    let mut j: usize = 0;
    while j < app.services.len()
        invariant
            j <= app.services@.len(),
            *app == (AppItem { services: app.services, ..*old(app) }),
            app.services@.len() == old(app).services@.len(),
            forall|k: int| 0 <= k < j ==> activated(#[trigger] old(app).services@[k], app.services@[k], unit@, activator@),
            forall|k: int| j <= k < app.services@.len() ==> #[trigger] app.services@[k] == old(app).services@[k],
        decreases app.services@.len() - j,
    {
        activate_service(&mut app.services[j], unit, activator);
        j += 1;
    }
}

/// Adds `activator` once to every service named `unit` of every program, as
/// a D-Bus service file that starts that unit asks; nothing else changes.
pub fn add_systemd_activator(apps: &mut Vec<AppItem>, unit: &String, activator: &String)
    ensures
        final(apps)@.len() == old(apps)@.len(),
        forall|i: int| 0 <= i < old(apps)@.len() ==> {
            &&& #[trigger] final(apps)@[i] == (AppItem { services: final(apps)@[i].services, ..old(apps)@[i] })
            &&& final(apps)@[i].services@.len() == old(apps)@[i].services@.len()
            &&& forall|j: int| 0 <= j < old(apps)@[i].services@.len() ==> activated(#[trigger] old(apps)@[i].services@[j], final(apps)@[i].services@[j], unit@, activator@)
        },
{
    let mut i: usize = 0;
    while i < apps.len()
        invariant
            i <= apps@.len(),
            apps@.len() == old(apps)@.len(),
            forall|k: int| 0 <= k < i ==> {
                &&& #[trigger] apps@[k] == (AppItem { services: apps@[k].services, ..old(apps)@[k] })
                &&& apps@[k].services@.len() == old(apps)@[k].services@.len()
                &&& forall|j: int| 0 <= j < old(apps)@[k].services@.len() ==> activated(#[trigger] old(apps)@[k].services@[j], apps@[k].services@[j], unit@, activator@)
            },
            forall|k: int| i <= k < apps@.len() ==> #[trigger] apps@[k] == old(apps)@[k],
        decreases apps@.len() - i,
    {
        activate_services(&mut apps[i], unit, activator);
        i += 1;
    }
}

/// A directory whose links enable units: `<unit>.wants` or `<unit>.requires`.
pub fn is_enablement_directory(name: &str) -> (r: bool)
    ensures
        r == (ends_with(name@, ".wants"@) || ends_with(name@, ".requires"@)),
{
    let c = chars_of(name);
    ends_lit(&c, ".wants") || ends_lit(&c, ".requires")
}

/// The unit kinds that start a service of the same stem.
pub open spec fn activating_kind(ext: Seq<char>) -> bool {
    ext == "timer"@ || ext == "socket"@ || ext == "path"@
}

pub open spec fn or_empty(o: Option<Seq<char>>) -> Seq<char> {
    match o {
        Some(v) => v,
        None => Seq::empty(),
    }
}

/// What the unit file at `path` activates, when it is a timer, socket or
/// path unit: the service of its stem, and how the activation is shown.
pub open spec fn activation(path: Seq<char>) -> Option<(Seq<char>, Seq<char>)> {
    match path_extension(path) {
        Some(ext) => if activating_kind(ext) {
            Some((
                or_empty(path_file_stem(path)) + ".service"@,
                "systemd "@ + ext + ": "@ + or_empty(path_file_name(path)),
            ))
        } else {
            None
        },
        None => None,
    }
}

fn string_or_empty(o: Option<String>) -> (r: String)
    ensures
        r@ == or_empty(opt_string_view(o)),
{
    match o {
        Some(s) => s,
        None => String::new(),
    }
}

/// The service that the unit file at `path` activates, with the label of
/// the activation.
pub fn activation_entry(path: &str) -> (r: Option<(String, String)>)
    ensures
        match r {
            Some(p) => activation(path@) == Some((p.0@, p.1@)),
            None => activation(path@) is None,
        },
{
    let ext = match extension(path) {
        Some(e) => e,
        None => return None,
    };
    let ec = chars_of(ext.as_str());
    if !(is_lit(&ec, "timer") || is_lit(&ec, "socket") || is_lit(&ec, "path")) {
        return None;
    }
    let stem = string_or_empty(file_stem(path));
    let name = string_or_empty(file_name(path));
    let mut key: Vec<char> = Vec::new();
    push_str(&mut key, stem.as_str());
    push_str(&mut key, ".service");
    let mut label: Vec<char> = Vec::new();
    push_str(&mut label, "systemd ");
    push_str(&mut label, ext.as_str());
    push_str(&mut label, ": ");
    push_str(&mut label, name.as_str());
    Some((string_of(&key), string_of(&label)))
}

/// The units of a unit listing, line by line: those with at least three
/// columns, by name, and whether their active state is `active`.
pub open spec fn runtime_entries(ls: Seq<Seq<char>>) -> Seq<(Seq<char>, bool)>
    decreases ls.len(),
{
    if ls.len() == 0 {
        Seq::empty()
    } else {
        let rest = runtime_entries(ls.drop_last());
        let w = words(ls.last());
        if w.len() >= 3 { rest.push((w[0], w[2] == "active"@)) } else { rest }
    }
}

pub open spec fn runtime_views(v: Seq<(String, bool)>) -> Seq<(Seq<char>, bool)> {
    v.map_values(|p: (String, bool)| (p.0@, p.1))
}

/// Which units a unit listing shows, and whether each is active.
pub fn parse_runtime_units(output: &str) -> (r: Vec<(String, bool)>)
    ensures
        runtime_views(r@) == runtime_entries(lines_of(output@)),
{
    let text = chars_of(output);
    let ls = lines(&text);
    let ghost lv = views(ls@);
    let mut r: Vec<(String, bool)> = Vec::new();
    let mut i: usize = 0;
    while i < ls.len()
        invariant
            i <= ls@.len(),
            lv == views(ls@),
            lv == lines_of(output@),
            runtime_views(r@) == runtime_entries(lv.subrange(0, i as int)),
        decreases ls@.len() - i,
    {
        proof {
            assert(lv.subrange(0, i + 1).drop_last() =~= lv.subrange(0, i as int));
            assert(lv.subrange(0, i + 1).last() == ls@[i as int]@);
        }
        let w = split_whitespace(&ls[i]);
        if w.len() >= 3 {
            proof {
                assert(views(w@)[0] == w@[0]@);
                assert(views(w@)[2] == w@[2]@);
            }
            let active = is_lit(&w[2], "active");
            r.push((string_of(&w[0]), active));
            proof {
                assert(runtime_views(r@) =~= runtime_views(r@.drop_last()).push((w@[0]@, active)));
            }
        }
        i += 1;
    }
    proof {
        assert(lv.subrange(0, ls@.len() as int) =~= lv);
    }
    r
}

/// Whether the unit `name` is running, by the last listing entry for it.
pub open spec fn running_state(entries: Seq<(Seq<char>, bool)>, name: Seq<char>) -> Option<bool>
    decreases entries.len(),
{
    if entries.len() == 0 {
        None
    } else if entries.last().0 == name {
        Some(entries.last().1)
    } else {
        running_state(entries.drop_last(), name)
    }
}

/// Whether the unit `name` is running, as far as a unit listing tells.
pub fn unit_running(units: &Vec<(String, bool)>, name: &String) -> (r: Option<bool>)
    ensures
        r == running_state(runtime_views(units@), name@),
{
    let ghost all = runtime_views(units@);
    let mut n: usize = units.len();
    proof {
        assert(all.subrange(0, n as int) =~= all);
    }
    while n > 0
        invariant
            n <= units@.len(),
            all == runtime_views(units@),
            running_state(all, name@) == running_state(all.subrange(0, n as int), name@),
        decreases n,
    {
        proof {
            assert(all.subrange(0, n as int).drop_last() =~= all.subrange(0, n - 1));
        }
        if units[n - 1].0 == *name {
            return Some(units[n - 1].1);
        }
        n -= 1;
    }
    None
}

/// Adding a service once more changes nothing: after it is added, a
/// service of its file and name is there.
pub proof fn lemma_service_added_once(services: Seq<ServiceInfo>, service: ServiceInfo)
    ensures
        has_service(
            if has_service(services, service.file_path@, service.name@) { services } else { services.push(service) },
            service.file_path@,
            service.name@,
        ),
{
    if !has_service(services, service.file_path@, service.name@) {
        assert(services.push(service)[services.len() as int] == service);
    }
}

/// The visited unit files, by scope and path.
pub open spec fn visit_views(seen: Seq<(bool, String)>) -> Seq<(bool, Seq<char>)> {
    seen.map_values(|p: (bool, String)| (p.0, p.1@))
}

/// Whether `(user, file)` is among the unit files already visited.
pub open spec fn visited(seen: Seq<(bool, String)>, user: bool, file: Seq<char>) -> bool {
    visit_views(seen).contains((user, file))
}

/// Records a visit of the unit file `file` of scope `user`; says whether it
/// is the first one. A file reached through several links is attached once.
pub fn first_visit(seen: &mut Vec<(bool, String)>, user: bool, file: &String) -> (r: bool)
    ensures
        r == !visited(old(seen)@, user, file@),
        visit_views(final(seen)@) == (if r { visit_views(old(seen)@).push((user, file@)) } else { visit_views(old(seen)@) }),
{
    let mut i: usize = 0;
    while i < seen.len()
        invariant
            i <= seen@.len(),
            seen@ == old(seen)@,
            forall|j: int| 0 <= j < i ==> #[trigger] visit_views(seen@)[j] != (user, file@),
        decreases seen@.len() - i,
    {
        if seen[i].0 == user && seen[i].1 == *file {
            proof {
                assert(visit_views(seen@)[i as int] == (user, file@));
            }
            return false;
        }
        i += 1;
    }
    let ghost before = seen@;
    seen.push((user, file.clone()));
    proof {
        assert(visit_views(seen@) =~= visit_views(before).push((user, file@)));
    }
    true
}

/// What the scan does with one unit file.
pub enum UnitFileAction {
    /// A dangling link: a broken program of its own.
    RecordBroken,
    /// Passed over.
    Skip,
    /// Attached to the program that its first command runs.
    Attach(String),
}

/// The fate of a unit file: a dangling link becomes a broken program; a file
/// already visited through another link, one that could not be read, and
/// one that starts no command are passed over; any other is attached by its
/// first `ExecStart=` in `[Service]`.
pub fn unit_file_action(dangling: bool, first: bool, content: Option<&str>) -> (r: UnitFileAction)
    ensures
        dangling ==> r is RecordBroken,
        !dangling && (!first || content is None) ==> r is Skip,
        !dangling && first ==> (content matches Some(c) ==> match r {
            UnitFileAction::Attach(command) => unit_command(c@) == Some(command@),
            UnitFileAction::Skip => unit_command(c@) is None,
            UnitFileAction::RecordBroken => false,
        }),
{
    if dangling {
        return UnitFileAction::RecordBroken;
    }
    if !first {
        return UnitFileAction::Skip;
    }
    match content {
        None => UnitFileAction::Skip,
        Some(c) => {
            let starts = values_for_key(c, "Service", "ExecStart");
            if starts.len() == 0 {
                UnitFileAction::Skip
            } else {
                proof {
                    assert(name_views(starts@)[0] == starts@[0]@);
                }
                UnitFileAction::Attach(starts[0].clone())
            }
        },
    }
}

/// What a D-Bus service file asks for.
pub enum DbusFileAction {
    /// Activation of the named systemd unit.
    SystemdService(String),
    /// A program to start.
    Exec(String),
    /// Nothing the scan can use.
    Nothing,
}

/// The first `SystemdService=` of `[D-BUS Service]` when there is one, else
/// its first `Exec=`, else nothing.
pub fn dbus_file_action(content: &str) -> (r: DbusFileAction)
    ensures
        ({
            let units = unit_values(content@, "D-BUS Service"@, "SystemdService"@);
            let execs = unit_values(content@, "D-BUS Service"@, "Exec"@);
            match r {
                DbusFileAction::SystemdService(u) => units.len() > 0 && u@ == units[0],
                DbusFileAction::Exec(e) => units.len() == 0 && execs.len() > 0 && e@ == execs[0],
                DbusFileAction::Nothing => units.len() == 0 && execs.len() == 0,
            }
        }),
{
    let units = values_for_key(content, "D-BUS Service", "SystemdService");
    if units.len() > 0 {
        proof {
            assert(name_views(units@)[0] == units@[0]@);
        }
        return DbusFileAction::SystemdService(units[0].clone());
    }
    let execs = values_for_key(content, "D-BUS Service", "Exec");
    if execs.len() > 0 {
        proof {
            assert(name_views(execs@)[0] == execs@[0]@);
        }
        return DbusFileAction::Exec(execs[0].clone());
    }
    DbusFileAction::Nothing
}

} // verus!
