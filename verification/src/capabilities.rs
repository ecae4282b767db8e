//! What a package can do (graphical program, command-line tool, library,
//! service, plugin, meta package), judged from the files it owns, its
//! launchers, services and executables.
use crate::desktop::{desktop_exec_command, exec_program};
use crate::models::{AppItem, PackageCapabilities, ServiceKind};
use crate::names::{name_views, sorted_unique, strictly_sorted};
use crate::paths::{file_name, lowercase, opt_string_view, parent, path_file_name, path_parent, to_lowercase};
use crate::text::{chars_eq, chars_of, contains, contains_lit, ends_lit, ends_with, is_lit, rsplit_once, rsplit_once_chars, starts_lit, starts_with, string_of, strip_prefix, strip_suffix};
use crate::unit_file::{activatable, dbus_service_is_activatable, persistent, service_definition_is_persistent};
use vstd::prelude::*;

verus! {

/// `command` is listed in `list`.
pub open spec fn listed(list: Seq<String>, command: Seq<char>) -> bool {
    name_views(list).contains(command)
}

fn is_listed(list: &Vec<String>, command: &str) -> (r: bool)
    ensures
        r == listed(list@, command@),
{
    let c = chars_of(command);
    let mut k: usize = 0;
    while k < list.len()
        invariant
            k <= list@.len(),
            c@ == command@,
            forall|j: int| 0 <= j < k ==> list@[j]@ != command@,
        decreases list@.len() - k,
    {
        let item = chars_of(list[k].as_str());
        if chars_eq(&item, &c) {
            proof {
                assert(name_views(list@)[k as int] == command@);
            }
            return true;
        }
        k += 1;
    }
    proof {
        if name_views(list@).contains(command@) {
            let j = choose|j: int| 0 <= j < name_views(list@).len() && name_views(list@)[j] == command@;
            assert(list@[j]@ == command@);
        }
    }
    false
}

/// A command is a user-facing tool when it has a manual page, a shell
/// completion, or a terminal launcher.
pub fn command_has_cli_evidence(
    command: &str,
    documented_commands: &Vec<String>,
    completed_commands: &Vec<String>,
    terminal_commands: &Vec<String>,
) -> (r: bool)
    ensures
        r == (listed(documented_commands@, command@) || listed(completed_commands@, command@) || listed(terminal_commands@, command@)),
{
    is_listed(documented_commands, command) || is_listed(completed_commands, command) || is_listed(terminal_commands, command)
}

/// A command named like its package, or `<package>-...`.
pub open spec fn matches_package(package: Seq<char>, command: Seq<char>) -> bool {
    command == package || starts_with(command, package.push('-'))
}

pub fn command_matches_package(package: &str, command: &str) -> (r: bool)
    ensures
        r == matches_package(package@, command@),
{
    let c = chars_of(command);
    let mut p = chars_of(package);
    if chars_eq(&c, &p) {
        return true;
    }
    p.push('-');
    crate::text::has_prefix(&c, &p)
}

/// A shared or static library directly in the system library directories.
pub open spec fn public_library(path: Seq<char>) -> bool {
    match (path_parent(path), path_file_name(path)) {
        (Some(dir), Some(name)) => (dir == "/usr/lib"@ || dir == "/usr/lib32"@ || dir == "/usr/lib64"@)
            && starts_with(name, "lib"@)
            && (ends_with(name, ".so"@) || contains(name, ".so."@) || ends_with(name, ".a"@)),
        _ => false,
    }
}

pub fn is_public_library(path: &str) -> (r: bool)
    ensures
        r == public_library(path@),
{
    let dir = match parent(path) {
        Some(d) => d,
        None => return false,
    };
    let name = match file_name(path) {
        Some(n) => n,
        None => return false,
    };
    let d = chars_of(dir.as_str());
    let n = chars_of(name.as_str());
    (is_lit(&d, "/usr/lib") || is_lit(&d, "/usr/lib32") || is_lit(&d, "/usr/lib64"))
        && starts_lit(&n, "lib")
        && (ends_lit(&n, ".so") || contains_lit(&n, ".so.") || ends_lit(&n, ".a"))
}

pub open spec fn systemd_service_path(path: Seq<char>) -> bool {
    starts_with(path, "/usr/lib/systemd/system/"@) || starts_with(path, "/usr/lib/systemd/user/"@)
        || starts_with(path, "/etc/systemd/system/"@) || starts_with(path, "/etc/systemd/user/"@)
}

pub fn is_systemd_service_path(path: &str) -> (r: bool)
    ensures
        r == systemd_service_path(path@),
{
    let p = chars_of(path);
    starts_lit(&p, "/usr/lib/systemd/system/") || starts_lit(&p, "/usr/lib/systemd/user/")
        || starts_lit(&p, "/etc/systemd/system/") || starts_lit(&p, "/etc/systemd/user/")
}

pub open spec fn dbus_service_path(path: Seq<char>) -> bool {
    contains(path, "/dbus-1/services/"@) || contains(path, "/dbus-1/system-services/"@)
}

pub fn is_dbus_service_path(path: &str) -> (r: bool)
    ensures
        r == dbus_service_path(path@),
{
    let p = chars_of(path);
    contains_lit(&p, "/dbus-1/services/") || contains_lit(&p, "/dbus-1/system-services/")
}

/// A file's name, or nothing when the path has none.
pub open spec fn name_or_empty(path: Seq<char>) -> Seq<char> {
    match path_file_name(path) {
        Some(n) => n,
        None => Seq::empty(),
    }
}

fn file_name_or_empty(path: &str) -> (r: Vec<char>)
    ensures
        r@ == name_or_empty(path@),
{
    match file_name(path) {
        Some(n) => chars_of(n.as_str()),
        None => Vec::new(),
    }
}

/// The directories whose contents are plugins or add-ons.
pub open spec fn plugin_directory(path: Seq<char>) -> bool {
    ||| starts_with(path, "/usr/share/plasma/plasmoids/"@)
    ||| starts_with(path, "/usr/share/plasma/wallpapers/"@)
    ||| starts_with(path, "/usr/share/plasma/look-and-feel/"@)
    ||| starts_with(path, "/usr/share/plasma/desktoptheme/"@)
    ||| starts_with(path, "/usr/share/plasma/layout-templates/"@)
    ||| starts_with(path, "/usr/share/plasma/packages/"@)
    ||| starts_with(path, "/usr/share/plasma/shells/"@)
    ||| starts_with(path, "/usr/lib/gstreamer-1.0/"@)
    ||| starts_with(path, "/usr/lib/pipewire-0.3/"@)
    ||| starts_with(path, "/usr/lib/spa-0.2/"@)
    ||| starts_with(path, "/usr/lib/alsa-lib/"@)
    ||| starts_with(path, "/usr/lib/alsa-topology/"@)
    ||| starts_with(path, "/usr/lib/ladspa/"@)
    ||| starts_with(path, "/usr/lib/lv2/"@)
    ||| starts_with(path, "/usr/lib/vamp/"@)
    ||| starts_with(path, "/usr/lib/vst3/"@)
}

/// A plugin, add-on or QML module file.
pub open spec fn plugin_artifact(path: Seq<char>) -> bool {
    let name = name_or_empty(path);
    ||| contains(path, "/plugins/"@)
    ||| starts_with(path, "/usr/share/kservices"@)
    ||| starts_with(path, "/usr/share/kpackage/"@)
    ||| plugin_directory(path)
    ||| (starts_with(path, "/usr/lib/qt6/qml/"@) && (name == "qmldir"@ || ends_with(name, ".qmltypes"@) || ends_with(name, ".so"@)))
}

fn in_plugin_directory(p: &[char]) -> (r: bool)
    ensures
        r == plugin_directory(p@),
{
    starts_lit(p, "/usr/share/plasma/plasmoids/")
        || starts_lit(p, "/usr/share/plasma/wallpapers/")
        || starts_lit(p, "/usr/share/plasma/look-and-feel/")
        || starts_lit(p, "/usr/share/plasma/desktoptheme/")
        || starts_lit(p, "/usr/share/plasma/layout-templates/")
        || starts_lit(p, "/usr/share/plasma/packages/")
        || starts_lit(p, "/usr/share/plasma/shells/")
        || starts_lit(p, "/usr/lib/gstreamer-1.0/")
        || starts_lit(p, "/usr/lib/pipewire-0.3/")
        || starts_lit(p, "/usr/lib/spa-0.2/")
        || starts_lit(p, "/usr/lib/alsa-lib/")
        || starts_lit(p, "/usr/lib/alsa-topology/")
        || starts_lit(p, "/usr/lib/ladspa/")
        || starts_lit(p, "/usr/lib/lv2/")
        || starts_lit(p, "/usr/lib/vamp/")
        || starts_lit(p, "/usr/lib/vst3/")
}

pub fn is_plugin_artifact(path: &str) -> (r: bool)
    ensures
        r == plugin_artifact(path@),
{
    let p = chars_of(path);
    let name = file_name_or_empty(path);
    contains_lit(&p, "/plugins/")
        || starts_lit(&p, "/usr/share/kservices")
        || starts_lit(&p, "/usr/share/kpackage/")
        || in_plugin_directory(&p)
        || (starts_lit(&p, "/usr/lib/qt6/qml/") && (is_lit(&name, "qmldir") || ends_lit(&name, ".qmltypes") || ends_lit(&name, ".so")))
}

/// A file name without its compression suffix (the first of `.gz`, `.xz`,
/// `.zst`, `.bz2` that it ends with).
pub open spec fn uncompressed(name: Seq<char>) -> Seq<char> {
    if ends_with(name, ".gz"@) {
        strip_suffix(name, ".gz"@).unwrap()
    } else if ends_with(name, ".xz"@) {
        strip_suffix(name, ".xz"@).unwrap()
    } else if ends_with(name, ".zst"@) {
        strip_suffix(name, ".zst"@).unwrap()
    } else if ends_with(name, ".bz2"@) {
        strip_suffix(name, ".bz2"@).unwrap()
    } else {
        name
    }
}

/// The command that a section-1 or section-8 manual page documents.
pub open spec fn man_command(path: Seq<char>) -> Option<Seq<char>> {
    if !contains(path, "/share/man/man1/"@) && !contains(path, "/share/man/man8/"@) {
        None
    } else {
        match path_file_name(path) {
            Some(name) => match rsplit_once(uncompressed(name), '.') {
                Some(cs) => if starts_with(cs.1, "1"@) || starts_with(cs.1, "8"@) { Some(cs.0) } else { None },
                None => None,
            },
            None => None,
        }
    }
}

fn strip_known_suffix(name: &[char], lit: &str) -> (r: Option<Vec<char>>)
    ensures
        r matches Some(v) ==> ends_with(name@, lit@) && strip_suffix(name@, lit@) == Some(v@),
        r is None ==> !ends_with(name@, lit@),
{
    let p = chars_of(lit);
    crate::text::strip_suffix_chars(name, &p)
}

fn uncompressed_chars(name: &[char]) -> (r: Vec<char>)
    ensures
        r@ == uncompressed(name@),
{
    match strip_known_suffix(name, ".gz") {
        Some(v) => v,
        None => match strip_known_suffix(name, ".xz") {
            Some(v) => v,
            None => match strip_known_suffix(name, ".zst") {
                Some(v) => v,
                None => match strip_known_suffix(name, ".bz2") {
                    Some(v) => v,
                    None => crate::text::slice_vec(name, 0, name.len()),
                },
            },
        },
    }
}

pub fn man_page_command(path: &str) -> (r: Option<String>)
    ensures
        opt_string_view(r) == man_command(path@),
{
    let p = chars_of(path);
    if !contains_lit(&p, "/share/man/man1/") && !contains_lit(&p, "/share/man/man8/") {
        return None;
    }
    let name = match file_name(path) {
        Some(n) => chars_of(n.as_str()),
        None => return None,
    };
    let base = uncompressed_chars(&name);
    proof {
        assert(name@.subrange(0, name@.len() as int) =~= name@);
    }
    match rsplit_once_chars(&base, '.') {
        Some((command, section)) => {
            if starts_lit(&section, "1") || starts_lit(&section, "8") {
                Some(string_of(&command))
            } else {
                None
            }
        },
        None => None,
    }
}

/// The command that a shell completion file completes.
pub open spec fn completion_for(path: Seq<char>) -> Option<Seq<char>> {
    match path_file_name(path) {
        Some(name) => if starts_with(path, "/usr/share/bash-completion/completions/"@) {
            Some(name)
        } else if starts_with(path, "/usr/share/fish/vendor_completions.d/"@) {
            strip_suffix(name, ".fish"@)
        } else if starts_with(path, "/usr/share/zsh/site-functions/"@) {
            strip_prefix(name, "_"@)
        } else {
            None
        },
        None => None,
    }
}

pub fn completion_command(path: &str) -> (r: Option<String>)
    ensures
        opt_string_view(r) == completion_for(path@),
{
    let name = match file_name(path) {
        Some(n) => n,
        None => return None,
    };
    let p = chars_of(path);
    let n = chars_of(name.as_str());
    if starts_lit(&p, "/usr/share/bash-completion/completions/") {
        return Some(name);
    }
    if starts_lit(&p, "/usr/share/fish/vendor_completions.d/") {
        return match strip_known_suffix(&n, ".fish") {
            Some(v) => Some(string_of(&v)),
            None => None,
        };
    }
    if starts_lit(&p, "/usr/share/zsh/site-functions/") {
        return match crate::text::strip_lit(&n, "_") {
            Some(v) => Some(string_of(&v)),
            None => None,
        };
    }
    None
}

pub open spec fn appstream_metadata(path: Seq<char>) -> bool {
    (starts_with(path, "/usr/share/metainfo/"@) || starts_with(path, "/usr/share/appdata/"@)) && ends_with(path, ".xml"@)
}

/// An AppStream metadata file.
pub fn is_appstream_metadata(path: &str) -> (r: bool)
    ensures
        r == appstream_metadata(path@),
{
    let p = chars_of(path);
    (starts_lit(&p, "/usr/share/metainfo/") || starts_lit(&p, "/usr/share/appdata/")) && ends_lit(&p, ".xml")
}

/// What the files a package owns reveal about it.
#[derive(Clone, Debug)]
pub struct PackageEvidence {
    pub has_library: bool,
    pub has_persistent_service: bool,
    pub has_plugin: bool,
    pub appstream_gui: bool,
    pub appstream_cli: bool,
    pub documented_commands: Vec<String>,
    pub completed_commands: Vec<String>,
}

impl PackageEvidence {
    /// Nothing seen yet.
    pub fn empty() -> (r: Self)
        ensures
            !r.has_library && !r.has_persistent_service && !r.has_plugin && !r.appstream_gui && !r.appstream_cli,
            r.documented_commands@.len() == 0,
            r.completed_commands@.len() == 0,
    {
        PackageEvidence {
            has_library: false,
            has_persistent_service: false,
            has_plugin: false,
            appstream_gui: false,
            appstream_cli: false,
            documented_commands: Vec::new(),
            completed_commands: Vec::new(),
        }
    }
}

/// Which kind of service definition a file is, if any.
#[derive(Clone, Copy, Debug, PartialEq, Eq, Structural)]
pub enum ServiceFileKind {
    NotAService,
    SystemdUnit,
    DbusService,
}

pub open spec fn service_file(path: Seq<char>) -> ServiceFileKind {
    let name = name_or_empty(path);
    if systemd_service_path(path) && ends_with(name, ".service"@) {
        ServiceFileKind::SystemdUnit
    } else if dbus_service_path(path) && ends_with(name, ".service"@) {
        ServiceFileKind::DbusService
    } else {
        ServiceFileKind::NotAService
    }
}

/// Whether a file defines a systemd unit or a D-Bus service: such files are
/// read to see whether they describe a long-running service.
pub fn service_file_kind(path: &str) -> (r: ServiceFileKind)
    ensures
        r == service_file(path@),
{
    let name = file_name_or_empty(path);
    if is_systemd_service_path(path) && ends_lit(&name, ".service") {
        ServiceFileKind::SystemdUnit
    } else if is_dbus_service_path(path) && ends_lit(&name, ".service") {
        ServiceFileKind::DbusService
    } else {
        ServiceFileKind::NotAService
    }
}

/// The owned file describes a service that keeps running (for a unit) or
/// that the bus can start (for a D-Bus service), given its content when it
/// could be read.
pub open spec fn describes_service(path: Seq<char>, content: Option<Seq<char>>) -> bool {
    match (service_file(path), content) {
        (ServiceFileKind::SystemdUnit, Some(c)) => persistent(c),
        (ServiceFileKind::DbusService, Some(c)) => activatable(c),
        _ => false,
    }
}

pub open spec fn push_some(list: Seq<Seq<char>>, o: Option<Seq<char>>) -> Seq<Seq<char>> {
    match o {
        Some(x) => list.push(x),
        None => list,
    }
}

/// Adds what the owned file at `path` shows: a public library, a service
/// (from the file's content, read by the caller when `service_file_kind`
/// asks for it), a plugin, a documented or completed command.
pub fn observe_owned_path(evidence: &mut PackageEvidence, path: &str, service_content: Option<&str>)
    ensures
        final(evidence).has_library == (old(evidence).has_library || public_library(path@)),
        final(evidence).has_persistent_service == (old(evidence).has_persistent_service || describes_service(path@, match service_content {
            Some(c) => Some(c@),
            None => None,
        })),
        final(evidence).has_plugin == (old(evidence).has_plugin || plugin_artifact(path@)),
        final(evidence).appstream_gui == old(evidence).appstream_gui,
        final(evidence).appstream_cli == old(evidence).appstream_cli,
        name_views(final(evidence).documented_commands@) == push_some(name_views(old(evidence).documented_commands@), man_command(path@)),
        name_views(final(evidence).completed_commands@) == push_some(name_views(old(evidence).completed_commands@), completion_for(path@)),
{
    if is_public_library(path) {
        evidence.has_library = true;
    }
    let kind = service_file_kind(path);
    let service = match (kind, service_content) {
        (ServiceFileKind::SystemdUnit, Some(c)) => service_definition_is_persistent(c),
        (ServiceFileKind::DbusService, Some(c)) => dbus_service_is_activatable(c),
        _ => false,
    };
    if service {
        evidence.has_persistent_service = true;
    }
    if is_plugin_artifact(path) {
        evidence.has_plugin = true;
    }
    match man_page_command(path) {
        Some(command) => {
            let ghost before = name_views(evidence.documented_commands@);
            evidence.documented_commands.push(command);
            proof {
                assert(name_views(evidence.documented_commands@) =~= before.push(command@));
            }
        },
        None => {},
    }
    match completion_command(path) {
        Some(command) => {
            let ghost before = name_views(evidence.completed_commands@);
            evidence.completed_commands.push(command);
            proof {
                assert(name_views(evidence.completed_commands@) =~= before.push(command@));
            }
        },
        None => {},
    }
}

pub open spec fn declares_desktop_application(content: Seq<char>) -> bool {
    contains(content, "type=\"desktop-application\""@) || contains(content, "type='desktop-application'"@)
}

pub open spec fn declares_console_application(content: Seq<char>) -> bool {
    contains(content, "type=\"console-application\""@) || contains(content, "type='console-application'"@)
}

/// Adds what an AppStream metadata file declares: a desktop or a console
/// application.
pub fn observe_appstream_metadata(evidence: &mut PackageEvidence, content: &str)
    ensures
        final(evidence).appstream_gui == (old(evidence).appstream_gui || declares_desktop_application(content@)),
        final(evidence).appstream_cli == (old(evidence).appstream_cli || declares_console_application(content@)),
        final(evidence).has_library == old(evidence).has_library,
        final(evidence).has_persistent_service == old(evidence).has_persistent_service,
        final(evidence).has_plugin == old(evidence).has_plugin,
        final(evidence).documented_commands == old(evidence).documented_commands,
        final(evidence).completed_commands == old(evidence).completed_commands,
{
    let c = chars_of(content);
    if contains_lit(&c, "type=\"desktop-application\"") || contains_lit(&c, "type='desktop-application'") {
        evidence.appstream_gui = true;
    }
    if contains_lit(&c, "type=\"console-application\"") || contains_lit(&c, "type='console-application'") {
        evidence.appstream_cli = true;
    }
}

/// A service of the program that keeps running and is not broken.
pub open spec fn has_daemon(app: AppItem) -> bool {
    exists|k: int| 0 <= k < app.services@.len() && #[trigger] app.services@[k].kind == ServiceKind::Daemon && !app.services@[k].broken
}

pub open spec fn has_job_unit(app: AppItem) -> bool {
    exists|k: int| 0 <= k < app.services@.len() && #[trigger] app.services@[k].kind == ServiceKind::Job && !app.services@[k].broken
}

/// A visible launcher that does not run in a terminal.
pub open spec fn has_gui_launcher(app: AppItem) -> bool {
    exists|k: int| 0 <= k < app.desktop_entries@.len() && #[trigger] app.desktop_entries@[k].is_visible && !app.desktop_entries@[k].runs_in_terminal
}

/// The command (file name) that a visible terminal launcher starts.
pub open spec fn terminal_command(e: crate::models::DesktopEntry) -> Option<Seq<char>> {
    if e.is_visible && e.runs_in_terminal {
        match exec_program(e.exec_line@) {
            Some(c) => path_file_name(c),
            None => None,
        }
    } else {
        None
    }
}

pub open spec fn terminal_commands(entries: Seq<crate::models::DesktopEntry>) -> Seq<Seq<char>>
    decreases entries.len(),
{
    if entries.len() == 0 {
        Seq::empty()
    } else {
        push_some(terminal_commands(entries.drop_last()), terminal_command(entries.last()))
    }
}

/// An executable counts as the program's command-line tool: it has
/// command-line evidence, or the program shows no other face (no graphical
/// launcher, service or job) and, for a package, the command is named after it.
pub open spec fn keeps_command(app: AppItem, ev: PackageEvidence, gui: bool, terminal: Seq<Seq<char>>, command: Seq<char>) -> bool {
    let strong = listed(ev.documented_commands@, command) || listed(ev.completed_commands@, command) || terminal.contains(command);
    let quiet = !gui && !(ev.has_persistent_service || has_daemon(app)) && !has_job_unit(app);
    if (app.install_role == crate::models::InstallRole::Standalone || app.install_role == crate::models::InstallRole::ToolchainManaged) {
        strong || quiet
    } else {
        strong || (quiet && matches_package(app.name@, command))
    }
}

pub open spec fn gui_of(app: AppItem, ev: PackageEvidence) -> bool {
    app.capabilities.has_gui || ev.appstream_gui || has_gui_launcher(app)
}

/// A meta package: named `-meta`, described as one, or empty but with dependencies.
pub open spec fn meta_of(app: AppItem, size_is_zero: bool) -> bool {
    ||| ends_with(app.name@, "-meta"@)
    ||| contains(lowercase(app.desc@), "meta package"@)
    ||| contains(lowercase(app.desc@), "meta-package"@)
    ||| (size_is_zero && app.depends_on@.len() > 0)
}

/// `caps` is what the program can do, judged from the program itself, the
/// evidence of its package's files, and whether its installed size is zero.
pub open spec fn capabilities_ok(app: AppItem, ev: PackageEvidence, size_is_zero: bool, caps: PackageCapabilities) -> bool {
    let gui = gui_of(app, ev);
    let terminal = terminal_commands(app.desktop_entries@);
    &&& caps.has_gui == gui
    &&& caps.has_service == (ev.has_persistent_service || has_daemon(app))
    &&& caps.has_job == has_job_unit(app)
    &&& caps.has_library == (app.capabilities.has_library || ev.has_library)
    &&& caps.has_plugin == (app.capabilities.has_plugin || ev.has_plugin)
    &&& strictly_sorted(name_views(caps.cli_commands@))
    &&& forall|x: Seq<char>| name_views(caps.cli_commands@).contains(x) <==> (exists|k: int| 0 <= k < app.binaries@.len()
        && #[trigger] app.binaries@[k].name@ == x && keeps_command(app, ev, gui, terminal, x))
    &&& caps.has_cli == (app.capabilities.has_cli || ev.appstream_cli || caps.cli_commands@.len() > 0)
    &&& caps.is_meta == meta_of(app, size_is_zero)
}

fn any_daemon(app: &AppItem) -> (r: bool)
    ensures
        r == has_daemon(*app),
{
    let mut k: usize = 0;
    while k < app.services.len()
        invariant
            k <= app.services@.len(),
            forall|j: int| 0 <= j < k ==> !(#[trigger] app.services@[j].kind == ServiceKind::Daemon && !app.services@[j].broken),
        decreases app.services@.len() - k,
    {
        if app.services[k].kind == ServiceKind::Daemon && !app.services[k].broken {
            return true;
        }
        k += 1;
    }
    false
}

fn any_job(app: &AppItem) -> (r: bool)
    ensures
        r == has_job_unit(*app),
{
    let mut k: usize = 0;
    while k < app.services.len()
        invariant
            k <= app.services@.len(),
            forall|j: int| 0 <= j < k ==> !(#[trigger] app.services@[j].kind == ServiceKind::Job && !app.services@[j].broken),
        decreases app.services@.len() - k,
    {
        if app.services[k].kind == ServiceKind::Job && !app.services[k].broken {
            return true;
        }
        k += 1;
    }
    false
}

fn any_gui_launcher(app: &AppItem) -> (r: bool)
    ensures
        r == has_gui_launcher(*app),
{
    let mut k: usize = 0;
    while k < app.desktop_entries.len()
        invariant
            k <= app.desktop_entries@.len(),
            forall|j: int| 0 <= j < k ==> !(#[trigger] app.desktop_entries@[j].is_visible && !app.desktop_entries@[j].runs_in_terminal),
        decreases app.desktop_entries@.len() - k,
    {
        if app.desktop_entries[k].is_visible && !app.desktop_entries[k].runs_in_terminal {
            return true;
        }
        k += 1;
    }
    false
}

fn terminal_command_list(entries: &Vec<crate::models::DesktopEntry>) -> (r: Vec<String>)
    ensures
        name_views(r@) == terminal_commands(entries@),
{
    let mut r: Vec<String> = Vec::new();
    let mut k: usize = 0;
    while k < entries.len()
        invariant
            k <= entries@.len(),
            name_views(r@) == terminal_commands(entries@.subrange(0, k as int)),
        decreases entries@.len() - k,
    {
        proof {
            assert(entries@.subrange(0, k + 1).drop_last() =~= entries@.subrange(0, k as int));
        }
        let e = &entries[k];
        if e.is_visible && e.runs_in_terminal {
            match desktop_exec_command(e.exec_line.as_str()) {
                Some(command) => match file_name(command.as_str()) {
                    Some(n) => {
                        let ghost before = name_views(r@);
                        r.push(n);
                        proof {
                            assert(name_views(r@) =~= before.push(r@.last()@));
                        }
                    },
                    None => {},
                },
                None => {},
            }
        }
        k += 1;
    }
    proof {
        assert(entries@.subrange(0, entries@.len() as int) =~= entries@);
    }
    r
}

/// What the program can do: see `capabilities_ok`.
pub fn classify_capabilities(app: &AppItem, evidence: &PackageEvidence, size_is_zero: bool) -> (caps: PackageCapabilities)
    ensures
        capabilities_ok(*app, *evidence, size_is_zero, caps),
{
    let hints = &app.capabilities;
    let is_custom = app.install_role.is_external();
    let has_service = evidence.has_persistent_service || any_daemon(app);
    let has_job = any_job(app);
    let has_gui = hints.has_gui || evidence.appstream_gui || any_gui_launcher(app);
    let terminal = terminal_command_list(&app.desktop_entries);
    let ghost tv = terminal_commands(app.desktop_entries@);
    let mut kept: Vec<String> = Vec::new();
    let mut k: usize = 0;
    while k < app.binaries.len()
        invariant
            name_views(terminal@) == tv,
            tv == terminal_commands(app.desktop_entries@),
            is_custom == (app.install_role == crate::models::InstallRole::Standalone || app.install_role == crate::models::InstallRole::ToolchainManaged),
            has_gui == gui_of(*app, *evidence),
            has_service == (evidence.has_persistent_service || has_daemon(*app)),
            has_job == has_job_unit(*app),
            k <= app.binaries@.len(),
            forall|x: Seq<char>| name_views(kept@).contains(x) <==> (exists|j: int| 0 <= j < k
                && #[trigger] app.binaries@[j].name@ == x && keeps_command(*app, *evidence, has_gui, tv, x)),
        decreases app.binaries@.len() - k,
    {
        let name = app.binaries[k].name.as_str();
        let strong = command_has_cli_evidence(name, &evidence.documented_commands, &evidence.completed_commands, &terminal);
        let quiet = !has_gui && !has_service && !has_job;
        let keep = if is_custom {
            strong || quiet
        } else {
            strong || (quiet && command_matches_package(app.name.as_str(), name))
        };
        let ghost before = name_views(kept@);
        let ghost x = app.binaries@[k as int].name@;
        proof {
            assert(listed(terminal@, x) == tv.contains(x));
            assert(keep == keeps_command(*app, *evidence, has_gui, tv, x));
        }
        if keep {
            kept.push(app.binaries[k].name.clone());
            proof {
                assert(name_views(kept@) =~= before.push(x));
            }
        }
        proof {
            assert forall|y: Seq<char>| name_views(kept@).contains(y) <==> (exists|j: int| 0 <= j < k + 1
                && #[trigger] app.binaries@[j].name@ == y && keeps_command(*app, *evidence, has_gui, tv, y)) by {
                if name_views(kept@).contains(y) && !before.contains(y) {
                    assert(y == x);
                    assert(app.binaries@[k as int].name@ == y);
                }
                if exists|j: int| 0 <= j < k + 1 && #[trigger] app.binaries@[j].name@ == y && keeps_command(*app, *evidence, has_gui, tv, y) {
                    let j = choose|j: int| 0 <= j < k + 1 && #[trigger] app.binaries@[j].name@ == y && keeps_command(*app, *evidence, has_gui, tv, y);
                    if j == k {
                        assert(name_views(kept@).last() == y);
                    } else {
                        assert(before.contains(y));
                        let i = choose|i: int| 0 <= i < before.len() && before[i] == y;
                        assert(name_views(kept@)[i] == y);
                    }
                }
            }
        }
        k += 1;
    }
    let cli_commands = sorted_unique(kept);
    let name = chars_of(app.name.as_str());
    let lower = to_lowercase(app.desc.as_str());
    let lc = chars_of(lower.as_str());
    let is_meta = ends_lit(&name, "-meta")
        || contains_lit(&lc, "meta package")
        || contains_lit(&lc, "meta-package")
        || (size_is_zero && app.depends_on.len() > 0);
    let has_cli = hints.has_cli || evidence.appstream_cli || cli_commands.len() > 0;
    PackageCapabilities {
        has_gui,
        has_cli,
        has_library: hints.has_library || evidence.has_library,
        has_service,
        has_job,
        has_plugin: hints.has_plugin || evidence.has_plugin,
        is_meta,
        cli_commands,
    }
}

} // verus!
