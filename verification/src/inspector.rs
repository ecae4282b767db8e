//! The texts of the inspector that shows the selected program: its summary
//! lines, its launchers, its services, its full record, the text copied for
//! it, and the place opened for it.
use crate::models::{AppItem, BinaryInfo, DesktopEntry, ServiceInfo};
use crate::names::name_views;
use crate::paths::{opt_string_view, parent, path_parent};
use crate::presentation::version_suffix_text;
use crate::text::{chars_of, decimal, decimal_chars, join, join_chars, push_chars, push_str, string_of, views};
use vstd::prelude::*;

verus! {

/// Whether the program's command can be run by name.
pub open spec fn path_status_text(has_cli: bool, on_path: bool) -> Seq<char> {
    if !has_cli {
        "PATH: Not applicable (no user-facing CLI)"@
    } else if on_path {
        "PATH: Available by command name"@
    } else {
        "PATH: User-facing command unavailable"@
    }
}

pub fn path_status(app: &AppItem, on_path: bool) -> (r: String)
    ensures
        r@ == path_status_text(app.capabilities.has_cli, on_path),
{
    if !app.capabilities.has_cli {
        string_of(&chars_of("PATH: Not applicable (no user-facing CLI)"))
    } else if on_path {
        string_of(&chars_of("PATH: Available by command name"))
    } else {
        string_of(&chars_of("PATH: User-facing command unavailable"))
    }
}

/// The program's place, or `Unavailable`.
pub open spec fn place_text(app: AppItem) -> Seq<char> {
    if app.representative_path@.len() == 0 { "Unavailable"@ } else { app.representative_path@ }
}

pub fn location_line(app: &AppItem) -> (r: String)
    ensures
        r@ == "Location: "@ + place_text(*app),
{
    let mut v = chars_of("Location: ");
    if app.representative_path.as_str().is_empty() {
        push_str(&mut v, "Unavailable");
    } else {
        push_str(&mut v, app.representative_path.as_str());
    }
    string_of(&v)
}

/// The program's state tags, when it has any.
pub fn state_line(app: &AppItem) -> (r: Option<String>)
    ensures
        join(app.state.tags(), " · "@).len() == 0 ==> r is None,
        join(app.state.tags(), " · "@).len() > 0 ==> (r matches Some(s) && s@ == "State: "@ + join(app.state.tags(), " · "@)),
{
    let tags = app.state.tag_summary();
    if tags.as_str().is_empty() {
        None
    } else {
        let mut v = chars_of("State: ");
        push_str(&mut v, tags.as_str());
        Some(string_of(&v))
    }
}

/// The version, when there is one, and the size.
pub open spec fn version_size_text(app: AppItem) -> Seq<char> {
    if app.version@.len() == 0 {
        "Size: "@ + app.size@
    } else {
        "Version: "@ + app.version@ + "  •  Size: "@ + app.size@
    }
}

pub fn version_size_line(app: &AppItem) -> (r: String)
    ensures
        r@ == version_size_text(*app),
{
    let mut v: Vec<char> = Vec::new();
    if app.version.as_str().is_empty() {
        push_str(&mut v, "Size: ");
    } else {
        push_str(&mut v, "Version: ");
        push_str(&mut v, app.version.as_str());
        push_str(&mut v, "  •  Size: ");
    }
    push_str(&mut v, app.size.as_str());
    string_of(&v)
}

pub fn capabilities_line(app: &AppItem) -> (r: String)
    ensures
        r@ == "Capabilities: "@ + join(app.capabilities.tags(), " · "@) + "  •  Primary role: "@ + app.capabilities.role_text(),
{
    let mut v = chars_of("Capabilities: ");
    push_str(&mut v, app.capabilities.tag_summary().as_str());
    push_str(&mut v, "  •  Primary role: ");
    push_str(&mut v, app.capabilities.primary_role());
    string_of(&v)
}

pub fn description_line(app: &AppItem) -> (r: String)
    ensures
        r@ == "Description: "@ + app.desc@,
{
    let mut v = chars_of("Description: ");
    push_str(&mut v, app.desc.as_str());
    string_of(&v)
}

/// `lit` followed by a number and `tail`.
fn counted(lit: &str, n: usize, tail: &str) -> (r: String)
    ensures
        r@ == lit@ + decimal(n as nat) + tail@,
{
    let mut v = chars_of(lit);
    push_chars(&mut v, &decimal_chars(n));
    push_str(&mut v, tail);
    string_of(&v)
}

pub fn desktop_tab_label(app: &AppItem) -> (r: String)
    ensures
        r@ == "🖥️ Desktop Entries ("@ + decimal(app.desktop_entries@.len()) + ")"@,
{
    counted("🖥️ Desktop Entries (", app.desktop_entries.len(), ")")
}

pub fn services_tab_label(app: &AppItem) -> (r: String)
    ensures
        r@ == "⚙️ Services ("@ + decimal(app.services@.len()) + ")"@,
{
    counted("⚙️ Services (", app.services.len(), ")")
}

pub fn desktop_tab_heading(app: &AppItem) -> (r: String)
    ensures
        r@ == "Desktop Launchers & Shortcuts for "@ + app.name@ + " ("@ + decimal(app.desktop_entries@.len()) + "):"@,
{
    let mut v = chars_of("Desktop Launchers & Shortcuts for ");
    push_str(&mut v, app.name.as_str());
    push_str(&mut v, " (");
    push_chars(&mut v, &decimal_chars(app.desktop_entries.len()));
    push_str(&mut v, "):");
    string_of(&v)
}

pub fn services_tab_heading(app: &AppItem) -> (r: String)
    ensures
        r@ == "Service definitions for "@ + app.name@ + " ("@ + decimal(app.services@.len()) + "):"@,
{
    let mut v = chars_of("Service definitions for ");
    push_str(&mut v, app.name.as_str());
    push_str(&mut v, " (");
    push_chars(&mut v, &decimal_chars(app.services.len()));
    push_str(&mut v, "):");
    string_of(&v)
}

/// The lines that describe a launcher: its name (marked when hidden) and
/// file, the command it runs, and its comment and icon when it has them.
pub open spec fn launcher_lines(e: DesktopEntry) -> Seq<Seq<char>> {
    let head = "🖥️ "@ + e.name@ + (if e.is_visible { Seq::empty() } else { " (hidden/internal)"@ }) + "  ["@ + e.file_path@ + "]"@;
    let lines = seq![head, "   ↳ Exec: "@ + e.exec_line@];
    let lines = if e.comment@.len() > 0 { lines.push("   ↳ Comment: "@ + e.comment@) } else { lines };
    if e.icon@.len() > 0 { lines.push("   ↳ Icon: "@ + e.icon@) } else { lines }
}

fn labelled(label: &str, value: &str) -> (r: String)
    ensures
        r@ == label@ + value@,
{
    let mut v = chars_of(label);
    push_str(&mut v, value);
    string_of(&v)
}

pub fn desktop_entry_lines(entry: &DesktopEntry) -> (r: Vec<String>)
    ensures
        name_views(r@) == launcher_lines(*entry),
{
    let mut head = chars_of("🖥️ ");
    push_str(&mut head, entry.name.as_str());
    if !entry.is_visible {
        push_str(&mut head, " (hidden/internal)");
    }
    push_str(&mut head, "  [");
    push_str(&mut head, entry.file_path.as_str());
    push_str(&mut head, "]");
    let mut lines: Vec<String> = Vec::new();
    lines.push(string_of(&head));
    lines.push(labelled("   ↳ Exec: ", entry.exec_line.as_str()));
    let ghost two = name_views(lines@);
    if !entry.comment.as_str().is_empty() {
        lines.push(labelled("   ↳ Comment: ", entry.comment.as_str()));
    }
    let ghost three = name_views(lines@);
    if !entry.icon.as_str().is_empty() {
        lines.push(labelled("   ↳ Icon: ", entry.icon.as_str()));
    }
    proof {
        let head_v = "🖥️ "@ + entry.name@ + (if entry.is_visible { Seq::empty() } else { " (hidden/internal)"@ }) + "  ["@ + entry.file_path@ + "]"@;
        assert(head@ =~= head_v);
        assert(two =~= seq![head_v, "   ↳ Exec: "@ + entry.exec_line@]);
        if entry.comment@.len() > 0 {
            assert(three =~= two.push("   ↳ Comment: "@ + entry.comment@));
        } else {
            assert(three =~= two);
        }
        if entry.icon@.len() > 0 {
            assert(name_views(lines@) =~= three.push("   ↳ Icon: "@ + entry.icon@));
        } else {
            assert(name_views(lines@) =~= three);
        }
    }
    lines
}

/// What a service is doing: broken, running, stopped, or unknown.
pub open spec fn service_state_text(s: ServiceInfo) -> Seq<char> {
    if s.broken {
        "broken"@
    } else if s.running == Some(true) {
        "running"@
    } else if s.running == Some(false) {
        "stopped"@
    } else {
        "runtime state unavailable"@
    }
}

/// The lines that describe a service: its name, kind, scope and state;
/// whether it is enabled; its definition; and the command it runs and what
/// activates it, when known.
pub open spec fn service_lines_text(s: ServiceInfo) -> Seq<Seq<char>> {
    let head = "⚙️ "@ + s.name@ + " — "@ + s.kind.label_text() + " · "@ + s.scope@ + " · "@ + service_state_text(s);
    let lines = seq![
        head,
        "   ↳ Enabled: "@ + (if s.enabled { "yes"@ } else { "no"@ }),
        "   ↳ Definition: "@ + s.file_path@,
    ];
    let lines = if s.command@.len() > 0 { lines.push("   ↳ ExecStart: "@ + s.command@) } else { lines };
    if s.activators@.len() > 0 { lines.push("   ↳ Activation: "@ + join(name_views(s.activators@), ", "@)) } else { lines }
}

/// The strings of `v` joined by `sep`.
fn join_strings(v: &Vec<String>, sep: &str) -> (r: String)
    ensures
        r@ == join(name_views(v@), sep@),
{
    let mut pieces: Vec<Vec<char>> = Vec::new();
    let mut i: usize = 0;
    while i < v.len()
        invariant
            i <= v@.len(),
            views(pieces@) == name_views(v@).take(i as int),
        decreases v@.len() - i,
    {
        let ghost before = views(pieces@);
        pieces.push(chars_of(v[i].as_str()));
        proof {
            assert(views(pieces@) =~= before.push(v@[i as int]@));
            assert(name_views(v@).take(i + 1) =~= name_views(v@).take(i as int).push(v@[i as int]@));
        }
        i += 1;
    }
    proof {
        assert(name_views(v@).take(v@.len() as int) =~= name_views(v@));
    }
    string_of(&join_chars(&pieces, &chars_of(sep)))
}

fn service_state(service: &ServiceInfo) -> (r: &'static str)
    ensures
        r@ == service_state_text(*service),
{
    if service.broken {
        "broken"
    } else if service.running == Some(true) {
        "running"
    } else if service.running == Some(false) {
        "stopped"
    } else {
        "runtime state unavailable"
    }
}

pub fn service_lines(service: &ServiceInfo) -> (r: Vec<String>)
    ensures
        name_views(r@) == service_lines_text(*service),
{
    let mut head = chars_of("⚙️ ");
    push_str(&mut head, service.name.as_str());
    push_str(&mut head, " — ");
    push_str(&mut head, service.kind.label());
    push_str(&mut head, " · ");
    push_str(&mut head, service.scope.as_str());
    push_str(&mut head, " · ");
    push_str(&mut head, service_state(service));
    let mut lines: Vec<String> = Vec::new();
    lines.push(string_of(&head));
    lines.push(labelled("   ↳ Enabled: ", if service.enabled { "yes" } else { "no" }));
    lines.push(labelled("   ↳ Definition: ", service.file_path.as_str()));
    let ghost three = name_views(lines@);
    if !service.command.as_str().is_empty() {
        lines.push(labelled("   ↳ ExecStart: ", service.command.as_str()));
    }
    let ghost four = name_views(lines@);
    if service.activators.len() > 0 {
        let joined = join_strings(&service.activators, ", ");
        lines.push(labelled("   ↳ Activation: ", joined.as_str()));
    }
    proof {
        let head_v = "⚙️ "@ + service.name@ + " — "@ + service.kind.label_text() + " · "@ + service.scope@ + " · "@ + service_state_text(*service);
        assert(head@ =~= head_v);
        assert(three =~= seq![head_v, "   ↳ Enabled: "@ + (if service.enabled { "yes"@ } else { "no"@ }), "   ↳ Definition: "@ + service.file_path@]);
        if service.command@.len() > 0 {
            assert(four =~= three.push("   ↳ ExecStart: "@ + service.command@));
        } else {
            assert(four =~= three);
        }
        if service.activators@.len() > 0 {
            assert(name_views(lines@) =~= four.push("   ↳ Activation: "@ + join(name_views(service.activators@), ", "@)));
        } else {
            assert(name_views(lines@) =~= four);
        }
    }
    lines
}

/// An executable in the program's record: its name and version, and where
/// it is (with its target, for a link).
pub open spec fn executable_info_text(b: BinaryInfo) -> Seq<char> {
    let target = if b.is_symlink && b.target@.len() > 0 { " -> "@ + b.target@ } else { Seq::empty() };
    "• "@ + b.name@ + version_suffix_text(b.version@) + " ["@ + b.path@ + target + "]"@
}

pub fn executable_info_line(binary: &BinaryInfo) -> (r: String)
    ensures
        r@ == executable_info_text(*binary),
{
    let mut v = chars_of("• ");
    push_str(&mut v, binary.name.as_str());
    push_str(&mut v, crate::presentation::version_suffix(binary.version.as_str()).as_str());
    push_str(&mut v, " [");
    push_str(&mut v, binary.path.as_str());
    if binary.is_symlink && !binary.target.as_str().is_empty() {
        push_str(&mut v, " -> ");
        push_str(&mut v, binary.target.as_str());
    }
    push_str(&mut v, "]");
    let r = string_of(&v);
    proof {
        assert(r@ =~= executable_info_text(*binary));
    }
    r
}

pub fn executables_heading(app: &AppItem) -> (r: String)
    ensures
        r@ == "Executables & Symlinks ("@ + decimal(app.binaries@.len()) + "):"@,
{
    counted("Executables & Symlinks (", app.binaries.len(), "):")
}

/// The lines of the program's full record: name, installation, state
/// (when any), version (when any), date, size, licence, address,
/// capabilities, primary role, and the user-facing commands (when any).
pub open spec fn record_lines(app: AppItem) -> Seq<Seq<char>> {
    let state = join(app.state.tags(), " · "@);
    let lines = seq!["• Name: "@ + app.name@, "• Installation: "@ + app.summary_text()];
    let lines = if state.len() > 0 { lines.push("• State: "@ + state) } else { lines };
    let lines = if app.version@.len() > 0 { lines.push("• Version: "@ + app.version@) } else { lines };
    let lines = lines + seq![
        "• Install Date: "@ + app.install_date@,
        "• Installed Size: "@ + app.size@,
        "• License: "@ + app.licenses@,
        "• URL: "@ + app.url@,
        "• Capabilities: "@ + join(app.capabilities.tags(), " · "@),
        "• Primary role: "@ + app.capabilities.role_text(),
    ];
    if app.capabilities.cli_commands@.len() > 0 {
        lines.push("• User-facing commands: "@ + join(name_views(app.capabilities.cli_commands@), ", "@))
    } else {
        lines
    }
}

fn push_line(lines: &mut Vec<String>, label: &str, value: &str)
    ensures
        name_views(final(lines)@) == name_views(old(lines)@).push(label@ + value@),
{
    let ghost before = name_views(lines@);
    lines.push(labelled(label, value));
    proof {
        assert(name_views(lines@) =~= before.push(label@ + value@));
    }
}

pub fn info_lines(app: &AppItem) -> (r: Vec<String>)
    ensures
        name_views(r@) == record_lines(*app),
{
    let mut lines: Vec<String> = Vec::new();
    push_line(&mut lines, "• Name: ", app.name.as_str());
    push_line(&mut lines, "• Installation: ", app.installation_summary().as_str());
    let ghost two = name_views(lines@);
    let state = app.state.tag_summary();
    if !state.as_str().is_empty() {
        push_line(&mut lines, "• State: ", state.as_str());
    }
    let ghost three = name_views(lines@);
    if !app.version.as_str().is_empty() {
        push_line(&mut lines, "• Version: ", app.version.as_str());
    }
    let ghost four = name_views(lines@);
    push_line(&mut lines, "• Install Date: ", app.install_date.as_str());
    push_line(&mut lines, "• Installed Size: ", app.size.as_str());
    push_line(&mut lines, "• License: ", app.licenses.as_str());
    push_line(&mut lines, "• URL: ", app.url.as_str());
    push_line(&mut lines, "• Capabilities: ", app.capabilities.tag_summary().as_str());
    push_line(&mut lines, "• Primary role: ", app.capabilities.primary_role());
    let ghost ten = name_views(lines@);
    if app.capabilities.cli_commands.len() > 0 {
        let joined = join_strings(&app.capabilities.cli_commands, ", ");
        push_line(&mut lines, "• User-facing commands: ", joined.as_str());
    }
    proof {
        let st = join(app.state.tags(), " · "@);
        let l2 = seq!["• Name: "@ + app.name@, "• Installation: "@ + app.summary_text()];
        assert(two =~= l2);
        let l3 = if st.len() > 0 { l2.push("• State: "@ + st) } else { l2 };
        assert(three =~= l3);
        let l4 = if app.version@.len() > 0 { l3.push("• Version: "@ + app.version@) } else { l3 };
        assert(four =~= l4);
        let tail = seq![
            "• Install Date: "@ + app.install_date@,
            "• Installed Size: "@ + app.size@,
            "• License: "@ + app.licenses@,
            "• URL: "@ + app.url@,
            "• Capabilities: "@ + join(app.capabilities.tags(), " · "@),
            "• Primary role: "@ + app.capabilities.role_text(),
        ];
        assert(ten =~= l4 + tail);
    }
    lines
}

/// The text copied for the program.
pub open spec fn copy_text(app: AppItem) -> Seq<char> {
    let version = if app.version@.len() == 0 { Seq::empty() } else { "Version: "@ + app.version@ + "\n"@ };
    "Application: "@ + app.name@ + "\nInstallation: "@ + app.summary_text() + "\nState: "@ + join(app.state.tags(), " · "@) + "\n"@
        + version + "Location: "@ + place_text(app) + "\nCapabilities: "@ + join(app.capabilities.tags(), " · "@)
        + "\nPrimary role: "@ + app.capabilities.role_text() + "\nSize: "@ + app.size@ + "\nDesc: "@ + app.desc@ + "\n"@
}

pub fn copy_info_text(app: &AppItem) -> (r: String)
    ensures
        r@ == copy_text(*app),
{
    let mut v = chars_of("Application: ");
    push_str(&mut v, app.name.as_str());
    push_str(&mut v, "\nInstallation: ");
    push_str(&mut v, app.installation_summary().as_str());
    push_str(&mut v, "\nState: ");
    push_str(&mut v, app.state.tag_summary().as_str());
    push_str(&mut v, "\n");
    if !app.version.as_str().is_empty() {
        push_str(&mut v, "Version: ");
        push_str(&mut v, app.version.as_str());
        push_str(&mut v, "\n");
    }
    push_str(&mut v, "Location: ");
    if app.representative_path.as_str().is_empty() {
        push_str(&mut v, "Unavailable");
    } else {
        push_str(&mut v, app.representative_path.as_str());
    }
    push_str(&mut v, "\nCapabilities: ");
    push_str(&mut v, app.capabilities.tag_summary().as_str());
    push_str(&mut v, "\nPrimary role: ");
    push_str(&mut v, app.capabilities.primary_role());
    push_str(&mut v, "\nSize: ");
    push_str(&mut v, app.size.as_str());
    push_str(&mut v, "\nDesc: ");
    push_str(&mut v, app.desc.as_str());
    push_str(&mut v, "\n");
    let r = string_of(&v);
    proof {
        assert(r@ =~= copy_text(*app));
    }
    r
}

/// The directory opened for the program: its place when that is a directory
/// (`place_is_dir`), else the directory holding it, else its first
/// executable's directory, else `/`.
pub open spec fn open_target_text(app: AppItem, place_is_dir: bool) -> Seq<char> {
    if place_is_dir {
        app.representative_path@
    } else {
        match path_parent(app.representative_path@) {
            Some(p) => p,
            None => if app.binaries@.len() > 0 { app.binaries@[0].dir@ } else { "/"@ },
        }
    }
}

pub fn open_target(app: &AppItem, place_is_dir: bool) -> (r: String)
    ensures
        r@ == open_target_text(*app, place_is_dir),
{
    if place_is_dir {
        return app.representative_path.clone();
    }
    match parent(app.representative_path.as_str()) {
        Some(p) => p,
        None => {
            if app.binaries.len() > 0 {
                app.binaries[0].dir.clone()
            } else {
                string_of(&chars_of("/"))
            }
        },
    }
}

/// The heading of the program list, and what it says when nothing is shown.
pub fn list_heading(show_uninstalled: bool) -> (r: &'static str)
    ensures
        r@ == if show_uninstalled { "Uninstalled"@ } else { "Program List"@ },
{
    if show_uninstalled { "Uninstalled" } else { "Program List" }
}

pub fn empty_list_text(show_uninstalled: bool) -> (r: &'static str)
    ensures
        r@ == if show_uninstalled {
            "No unavailable or off-PATH programs detected."@
        } else {
            "No installed programs match the current filters."@
        },
{
    if show_uninstalled {
        "No unavailable or off-PATH programs detected."
    } else {
        "No installed programs match the current filters."
    }
}

} // verus!
