//! The texts the interface shows for programs, executables and relationship
//! graphs, which programs it strikes through as unavailable, and which the
//! filters let through.
use crate::dependency_graph::{DependencyGraph, DependencyGraphNodeKind};
use crate::models::{AppItem, BinaryInfo, InstallOrigin, InstallRole};
use crate::text::{chars_of, decimal, decimal_chars, ends_lit, ends_with, contains, contains_lit, is_lit, push_chars, push_str, string_of};
use vstd::prelude::*;

verus! {

/// ` (version)`, or nothing without a version.
pub open spec fn version_suffix_text(version: Seq<char>) -> Seq<char> {
    if version.len() == 0 { Seq::empty() } else { " ("@ + version + ")"@ }
}

pub fn version_suffix(version: &str) -> (r: String)
    ensures
        r@ == version_suffix_text(version@),
{
    let mut v: Vec<char> = Vec::new();
    let vc = chars_of(version);
    if vc.len() > 0 {
        push_str(&mut v, " (");
        push_chars(&mut v, &vc);
        push_str(&mut v, ")");
    }
    string_of(&v)
}

/// `[BADGE] name (version)` followed by `(suite)` for a suite, else by the
/// capability names.
pub open spec fn classified_text(app: AppItem, name: Seq<char>) -> Seq<char> {
    if app.suite() {
        "["@ + app.badge() + "] "@ + name + version_suffix_text(app.version@) + " (suite)"@
    } else {
        let s = app.suffix_text();
        "["@ + app.badge() + "] "@ + name + version_suffix_text(app.version@) + (if s.len() == 0 { Seq::empty() } else { " "@ + s })
    }
}

pub fn classified_display_text(app: &AppItem, name: &str) -> (r: String)
    ensures
        r@ == classified_text(*app, name@),
{
    let mut v: Vec<char> = Vec::new();
    push_str(&mut v, "[");
    push_str(&mut v, app.display_badge());
    push_str(&mut v, "] ");
    push_str(&mut v, name);
    let vs = version_suffix(app.version.as_str());
    push_str(&mut v, vs.as_str());
    if app.is_suite() {
        push_str(&mut v, " (suite)");
    } else {
        let s = app.capability_suffix();
        if !s.as_str().is_empty() {
            push_str(&mut v, " ");
            push_str(&mut v, s.as_str());
        }
    }
    string_of(&v)
}

pub fn app_display_text(app: &AppItem) -> (r: String)
    ensures
        r@ == classified_text(*app, app.name@),
{
    classified_display_text(app, app.name.as_str())
}

pub fn tree_classified_display_text(app: &AppItem, name: &str) -> (r: String)
    ensures
        r@ == classified_text(*app, name@),
{
    classified_display_text(app, name)
}

pub fn package_tree_title(app: &AppItem, name: &str) -> (r: String)
    ensures
        r@ == classified_text(*app, name@),
{
    tree_classified_display_text(app, name)
}

/// Where the program lives, or `path unavailable`.
pub open spec fn location_text(app: AppItem) -> Seq<char> {
    if app.representative_path@.len() == 0 { "path unavailable"@ } else { app.representative_path@ }
}

pub fn package_tree_location(app: &AppItem) -> (r: String)
    ensures
        r@ == location_text(*app),
{
    if app.representative_path.as_str().is_empty() {
        string_of(&chars_of("path unavailable"))
    } else {
        app.representative_path.clone()
    }
}

pub open spec fn package_tree_text(app: AppItem, name: Seq<char>) -> Seq<char> {
    classified_text(app, name) + " — "@ + location_text(app)
}

pub fn package_tree_display_text(app: &AppItem, name: &str) -> (r: String)
    ensures
        r@ == package_tree_text(*app, name@),
{
    let mut v: Vec<char> = Vec::new();
    push_str(&mut v, package_tree_title(app, name).as_str());
    push_str(&mut v, " — ");
    push_str(&mut v, package_tree_location(app).as_str());
    string_of(&v)
}

/// `⚡ [BADGE] executable (version)` followed by the capability names.
pub open spec fn executable_title_text(app: AppItem, binary: BinaryInfo) -> Seq<char> {
    let s = app.suffix_text();
    "⚡ ["@ + app.badge() + "] "@ + binary.name@ + version_suffix_text(binary.version@) + (if s.len() == 0 { Seq::empty() } else { " "@ + s })
}

pub fn executable_title(app: &AppItem, binary: &BinaryInfo) -> (r: String)
    ensures
        r@ == executable_title_text(*app, *binary),
{
    let mut v: Vec<char> = Vec::new();
    push_str(&mut v, "⚡ [");
    push_str(&mut v, app.display_badge());
    push_str(&mut v, "] ");
    push_str(&mut v, binary.name.as_str());
    push_str(&mut v, version_suffix(binary.version.as_str()).as_str());
    let s = app.capability_suffix();
    if !s.as_str().is_empty() {
        push_str(&mut v, " ");
        push_str(&mut v, s.as_str());
    }
    string_of(&v)
}

/// The executable's path, and for a link its target.
pub open spec fn executable_location_text(binary: BinaryInfo) -> Seq<char> {
    if binary.is_symlink && binary.target@.len() > 0 { binary.path@ + " -> "@ + binary.target@ } else { binary.path@ }
}

pub fn executable_location(binary: &BinaryInfo) -> (r: String)
    ensures
        r@ == executable_location_text(*binary),
{
    if binary.is_symlink && !binary.target.as_str().is_empty() {
        let mut v: Vec<char> = Vec::new();
        push_str(&mut v, binary.path.as_str());
        push_str(&mut v, " -> ");
        push_str(&mut v, binary.target.as_str());
        string_of(&v)
    } else {
        binary.path.clone()
    }
}

pub fn executable_display_text(app: &AppItem, binary: &BinaryInfo) -> (r: String)
    ensures
        r@ == executable_title_text(*app, *binary) + " — "@ + executable_location_text(*binary),
{
    let mut v: Vec<char> = Vec::new();
    push_str(&mut v, executable_title(app, binary).as_str());
    push_str(&mut v, " — ");
    push_str(&mut v, executable_location(binary).as_str());
    string_of(&v)
}

pub fn graph_executable_text(app: &AppItem, binary: &BinaryInfo) -> (r: (String, String))
    ensures
        r.0@ == executable_title_text(*app, *binary),
        r.1@ == executable_location_text(*binary),
{
    (executable_title(app, binary), executable_location(binary))
}

/// The title and location of a package in a graph: a single tool named like
/// its program is shown as that executable.
pub fn graph_package_text(app: &AppItem) -> (r: (String, String))
    ensures
        app.one_to_one() ==> r.0@ == executable_title_text(*app, app.binaries@[0]) && r.1@ == executable_location_text(app.binaries@[0]),
        !app.one_to_one() ==> r.0@ == classified_text(*app, app.name@) && r.1@ == location_text(*app),
{
    if app.is_one_to_one_tool() {
        graph_executable_text(app, &app.binaries[0])
    } else {
        (package_tree_title(app, app.name.as_str()), package_tree_location(app))
    }
}

/// The line for the selected program at the root of its dependency tree.
pub fn dependency_root_display_text(app: &AppItem) -> (r: String)
    ensures
        app.one_to_one() ==> r@ == executable_title_text(*app, app.binaries@[0]) + " — "@ + executable_location_text(app.binaries@[0]),
        !app.one_to_one() ==> r@ == "📦 "@ + package_tree_text(*app, app.name@),
{
    if app.is_one_to_one_tool() {
        executable_display_text(app, &app.binaries[0])
    } else {
        let mut v: Vec<char> = Vec::new();
        push_str(&mut v, "📦 ");
        push_str(&mut v, package_tree_display_text(app, app.name.as_str()).as_str());
        string_of(&v)
    }
}

/// A visible launcher with a command.
pub open spec fn has_desktop_launcher(app: AppItem) -> bool {
    exists|k: int| 0 <= k < app.desktop_entries@.len() && #[trigger] app.desktop_entries@[k].is_visible && app.desktop_entries@[k].exec_line@.len() > 0
}

pub fn app_has_desktop_launcher(app: &AppItem) -> (r: bool)
    ensures
        r == has_desktop_launcher(*app),
{
    let mut k: usize = 0;
    while k < app.desktop_entries.len()
        invariant
            k <= app.desktop_entries@.len(),
            forall|j: int| 0 <= j < k ==> !(#[trigger] app.desktop_entries@[j].is_visible && app.desktop_entries@[j].exec_line@.len() > 0),
        decreases app.desktop_entries@.len() - k,
    {
        if app.desktop_entries[k].is_visible && !app.desktop_entries[k].exec_line.as_str().is_empty() {
            return true;
        }
        k += 1;
    }
    false
}

pub fn is_source_checkout_artifact(app: &AppItem) -> (r: bool)
    ensures
        r == (app.state.dev || app.state.fork || app.state.cloned),
{
    app.state.dev || app.state.fork || app.state.cloned
}

/// An executable of the program's own, not a library file.
pub open spec fn unowned_executable(b: BinaryInfo) -> bool {
    !b._is_pacman_owned && !ends_with(b.path@, ".so"@) && !contains(b.path@, ".so."@)
}

/// A program is shown struck through when it cannot be used as installed:
/// broken; a checkout build neither on the search path nor launchable; own
/// executables off the path with no launcher or service; or a command-line
/// or graphical program reachable neither from the path nor a launcher.
/// `on_path` tells whether one of its executables lies on the search path.
pub open spec fn struck(app: AppItem, on_path: bool) -> bool {
    let launcher = has_desktop_launcher(app);
    let checkout = app.state.dev || app.state.fork || app.state.cloned;
    let unowned = exists|k: int| 0 <= k < app.binaries@.len() && unowned_executable(#[trigger] app.binaries@[k]);
    let cli_available = app.capabilities.has_cli && on_path;
    let gui_available = app.capabilities.has_gui && (launcher || on_path);
    ||| app.state.broken
    ||| (checkout && app.binaries@.len() > 0 && !on_path && !launcher)
    ||| (unowned && !on_path && !launcher && app.services@.len() == 0)
    ||| ((app.capabilities.has_cli || app.capabilities.has_gui) && !cli_available && !gui_available)
}

fn any_unowned_executable(app: &AppItem) -> (r: bool)
    ensures
        r == exists|k: int| 0 <= k < app.binaries@.len() && unowned_executable(#[trigger] app.binaries@[k]),
{
    let mut k: usize = 0;
    while k < app.binaries.len()
        invariant
            k <= app.binaries@.len(),
            forall|j: int| 0 <= j < k ==> !unowned_executable(#[trigger] app.binaries@[j]),
        decreases app.binaries@.len() - k,
    {
        let p = chars_of(app.binaries[k].path.as_str());
        if !app.binaries[k]._is_pacman_owned && !ends_lit(&p, ".so") && !contains_lit(&p, ".so.") {
            return true;
        }
        k += 1;
    }
    false
}

pub fn app_should_be_struck(app: &AppItem, on_path: bool) -> (r: bool)
    ensures
        r == struck(*app, on_path),
{
    if app.state.broken {
        return true;
    }
    let launcher = app_has_desktop_launcher(app);
    if is_source_checkout_artifact(app) && app.binaries.len() > 0 && !on_path && !launcher {
        return true;
    }
    if any_unowned_executable(app) && !on_path && !launcher && app.services.len() == 0 {
        return true;
    }
    let cli_available = app.capabilities.has_cli && on_path;
    let gui_available = app.capabilities.has_gui && (launcher || on_path);
    (app.capabilities.has_cli || app.capabilities.has_gui) && !cli_available && !gui_available
}

/// Whether a program shows in the current view: struck programs in the view
/// of uninstalled ones, the others in the main view. A selection is kept
/// (after a new scan, or when the view changes) only while its program shows.
pub fn shows_in_view(app: &AppItem, on_path: bool, show_uninstalled: bool) -> (r: bool)
    ensures
        r == (struck(*app, on_path) == show_uninstalled),
{
    app_should_be_struck(app, on_path) == show_uninstalled
}

/// An executable is struck through when its program is broken, or, unless a
/// graphical program has a launcher, when it is a checkout build or a
/// user-facing command that is not on the search path (`on_path`).
pub open spec fn binary_struck(app: AppItem, binary: BinaryInfo, on_path: bool) -> bool {
    if app.state.broken {
        true
    } else if app.capabilities.has_gui && has_desktop_launcher(app) {
        false
    } else if app.state.dev || app.state.fork || app.state.cloned {
        !on_path
    } else {
        let user_facing = app.capabilities.has_cli && (app.capabilities.cli_commands@.len() == 0
            || crate::capabilities::listed(app.capabilities.cli_commands@, binary.name@));
        user_facing && !on_path
    }
}

pub fn binary_should_be_struck(app: &AppItem, binary: &BinaryInfo, on_path: bool) -> (r: bool)
    ensures
        r == binary_struck(*app, *binary, on_path),
{
    if app.state.broken {
        return true;
    }
    if app.capabilities.has_gui && app_has_desktop_launcher(app) {
        return false;
    }
    if is_source_checkout_artifact(app) {
        return !on_path;
    }
    let user_facing = app.capabilities.has_cli && (app.capabilities.cli_commands.len() == 0
        || crate::capabilities::command_has_cli_evidence(binary.name.as_str(), &app.capabilities.cli_commands, &Vec::new(), &Vec::new()));
    proof {
        assert(crate::names::name_views(Seq::<String>::empty()) =~= Seq::<Seq<char>>::empty());
    }
    user_facing && !on_path
}

/// The heading of a column of the dependency graph: the provided tools
/// take column 1 when present, then direct dependencies, then transitive
/// levels counted from 1.
pub open spec fn dependency_column_text(level: nat, has_provided_tools: bool) -> Seq<char> {
    if has_provided_tools && level == 1 {
        "PROVIDED TOOLS"@
    } else {
        let shift: nat = if has_provided_tools { 1 } else { 0 };
        let dependency_level: nat = if level >= shift { (level - shift) as nat } else { 0 };
        if dependency_level == 1 {
            "DIRECT DEPENDENCIES"@
        } else {
            "TRANSITIVE DEPENDENCY LEVEL "@ + decimal(if dependency_level >= 1 { (dependency_level - 1) as nat } else { 0 })
        }
    }
}

fn text_of(lit: &str) -> (r: String)
    ensures
        r@ == lit@,
{
    string_of(&chars_of(lit))
}

fn text_with_number(lit: &str, n: usize) -> (r: String)
    ensures
        r@ == lit@ + decimal(n as nat),
{
    let mut v = chars_of(lit);
    let d = decimal_chars(n);
    push_chars(&mut v, &d);
    string_of(&v)
}

pub fn dependency_column_title(level: usize, has_provided_tools: bool) -> (r: String)
    ensures
        r@ == dependency_column_text(level as nat, has_provided_tools),
{
    if has_provided_tools && level == 1 {
        return text_of("PROVIDED TOOLS");
    }
    let shift: usize = if has_provided_tools { 1 } else { 0 };
    let dependency_level = level.saturating_sub(shift);
    if dependency_level == 1 {
        text_of("DIRECT DEPENDENCIES")
    } else {
        text_with_number("TRANSITIVE DEPENDENCY LEVEL ", dependency_level.saturating_sub(1))
    }
}

/// How many installed programs share a dependency.
pub open spec fn sharing_text(required_by_count: nat) -> Seq<char> {
    if required_by_count <= 1 { "Exclusive"@ } else { "Shared by "@ + decimal(required_by_count) + " apps"@ }
}

pub fn dependency_sharing_status(required_by_count: usize) -> (r: String)
    ensures
        r@ == sharing_text(required_by_count as nat),
{
    if required_by_count <= 1 {
        text_of("Exclusive")
    } else {
        let mut v = chars_of("Shared by ");
        push_chars(&mut v, &decimal_chars(required_by_count));
        push_str(&mut v, " apps");
        string_of(&v)
    }
}

/// The heading of a column of the dependents graph.
pub open spec fn dependent_column_text(level: nat) -> Seq<char> {
    if level == 1 { "DIRECT DEPENDENTS"@ } else { "TRANSITIVE DEPENDENT LEVEL "@ + decimal(if level >= 1 { (level - 1) as nat } else { 0 }) }
}

pub fn dependent_column_title(level: usize) -> (r: String)
    ensures
        r@ == dependent_column_text(level as nat),
{
    if level == 1 {
        text_of("DIRECT DEPENDENTS")
    } else {
        text_with_number("TRANSITIVE DEPENDENT LEVEL ", level.saturating_sub(1))
    }
}

/// What a package in the dependents graph is: an explicit root, an orphan, or
/// required by some number of installed packages.
pub open spec fn used_by_text(is_explicit: bool, required_by_count: nat) -> Seq<char> {
    if is_explicit {
        "Explicitly installed root"@
    } else if required_by_count == 0 {
        "Orphaned dependency"@
    } else {
        "Required by "@ + decimal(required_by_count) + " installed "@ + (if required_by_count == 1 { "package"@ } else { "packages"@ })
    }
}

pub fn used_by_package_status(is_explicit: bool, required_by_count: usize) -> (r: String)
    ensures
        r@ == used_by_text(is_explicit, required_by_count as nat),
{
    if is_explicit {
        text_of("Explicitly installed root")
    } else if required_by_count == 0 {
        text_of("Orphaned dependency")
    } else {
        let mut v = chars_of("Required by ");
        push_chars(&mut v, &decimal_chars(required_by_count));
        push_str(&mut v, " installed ");
        if required_by_count == 1 {
            push_str(&mut v, "package");
        } else {
            push_str(&mut v, "packages");
        }
        string_of(&v)
    }
}

/// Four spaces per level.
pub open spec fn indent_text(level: nat) -> Seq<char>
    decreases level,
{
    if level == 0 { Seq::empty() } else { indent_text((level - 1) as nat) + "    "@ }
}

pub fn dependency_tree_indent(level: usize) -> (r: String)
    ensures
        r@ == indent_text(level as nat),
{
    let mut v: Vec<char> = Vec::new();
    let mut i: usize = 0;
    while i < level
        invariant
            i <= level,
            v@ == indent_text(i as nat),
        decreases level - i,
    {
        push_str(&mut v, "    ");
        i += 1;
    }
    string_of(&v)
}

/// Which programs the list shows: one switch per kind of program, and
/// whether the programs that are no longer available are shown instead of
/// the available ones.
#[derive(Clone, Copy, Debug, PartialEq, Eq, Structural)]
pub struct FilterSettings {
    pub chk_pacman: bool,
    pub chk_paru: bool,
    pub chk_dev: bool,
    pub chk_forks: bool,
    pub chk_clo: bool,
    pub chk_unc: bool,
    pub chk_brk: bool,
    pub chk_bin: bool,
    pub chk_scr: bool,
    pub chk_npm: bool,
    pub chk_cargo: bool,
    pub chk_opt: bool,
    pub chk_deps: bool,
    pub show_uninstalled: bool,
}

/// A program passes the filters when it is in the view that is shown
/// (available or not, as `struck` says) and no switch that is off covers
/// it.
pub open spec fn passes(f: FilterSettings, app: AppItem, struck: bool) -> bool {
    &&& f.show_uninstalled == struck
    &&& !(app.install_role == InstallRole::Dependency && !f.chk_deps)
    &&& !(app.state.dev && !f.chk_dev)
    &&& !(app.state.fork && !f.chk_forks)
    &&& !(app.state.cloned && !f.chk_clo)
    &&& !((app.state.unclassified || app.badge() == "UNC"@) && !f.chk_unc)
    &&& !(app.state.broken && !f.chk_brk)
    &&& !((app.state.binary || app.origin == InstallOrigin::Uv) && !f.chk_bin)
    &&& !(app.state.script && !f.chk_scr)
    &&& !(app.origin == InstallOrigin::Npm && !f.chk_npm)
    &&& !(app.origin == InstallOrigin::Cargo && !f.chk_cargo)
    &&& !(app.state.opt && !f.chk_opt)
    &&& !(app.origin == InstallOrigin::Pacman && !f.chk_pacman)
    &&& !(app.origin == InstallOrigin::Aur && !f.chk_paru)
}

pub open spec fn all_on(f: FilterSettings) -> bool {
    f.chk_pacman && f.chk_paru && f.chk_dev && f.chk_forks && f.chk_clo && f.chk_unc && f.chk_brk
        && f.chk_bin && f.chk_scr && f.chk_npm && f.chk_cargo && f.chk_opt && f.chk_deps
}

pub open spec fn all_set(f: FilterSettings, v: bool) -> bool {
    f.chk_pacman == v && f.chk_paru == v && f.chk_dev == v && f.chk_forks == v && f.chk_clo == v
        && f.chk_unc == v && f.chk_brk == v && f.chk_bin == v && f.chk_scr == v && f.chk_npm == v
        && f.chk_cargo == v && f.chk_opt == v && f.chk_deps == v
}

impl FilterSettings {
    /// Every switch on, showing the available programs.
    pub fn new() -> (f: Self)
        ensures
            all_set(f, true),
            !f.show_uninstalled,
    {
        FilterSettings {
            chk_pacman: true,
            chk_paru: true,
            chk_dev: true,
            chk_forks: true,
            chk_clo: true,
            chk_unc: true,
            chk_brk: true,
            chk_bin: true,
            chk_scr: true,
            chk_npm: true,
            chk_cargo: true,
            chk_opt: true,
            chk_deps: true,
            show_uninstalled: false,
        }
    }

    /// Whether the list shows `app`; `on_path` says whether the program can
    /// be run from the command search path.
    pub fn filter_app(&self, app: &AppItem, on_path: bool) -> (r: bool)
        ensures
            r == passes(*self, *app, struck(*app, on_path)),
    {
        if self.show_uninstalled != app_should_be_struck(app, on_path) {
            return false;
        }
        if app.install_role == InstallRole::Dependency && !self.chk_deps {
            return false;
        }
        if app.state.dev && !self.chk_dev {
            return false;
        }
        if app.state.fork && !self.chk_forks {
            return false;
        }
        if app.state.cloned && !self.chk_clo {
            return false;
        }
        let badge = chars_of(app.display_badge());
        if (app.state.unclassified || is_lit(&badge, "UNC")) && !self.chk_unc {
            return false;
        }
        if app.state.broken && !self.chk_brk {
            return false;
        }
        if (app.state.binary || app.origin == InstallOrigin::Uv) && !self.chk_bin {
            return false;
        }
        if app.state.script && !self.chk_scr {
            return false;
        }
        if app.origin == InstallOrigin::Npm && !self.chk_npm {
            return false;
        }
        if app.origin == InstallOrigin::Cargo && !self.chk_cargo {
            return false;
        }
        if app.state.opt && !self.chk_opt {
            return false;
        }
        if app.origin == InstallOrigin::Pacman && !self.chk_pacman {
            return false;
        }
        if app.origin == InstallOrigin::Aur && !self.chk_paru {
            return false;
        }
        true
    }

    /// Whether every switch is on.
    pub fn are_all_filters_on(&self) -> (r: bool)
        ensures
            r == all_on(*self),
    {
        self.chk_pacman && self.chk_paru && self.chk_dev && self.chk_forks && self.chk_clo
            && self.chk_unc && self.chk_brk && self.chk_bin && self.chk_scr && self.chk_npm
            && self.chk_cargo && self.chk_opt && self.chk_deps
    }

    /// Turns every switch off when all are on, and on otherwise; the view of
    /// available or unavailable programs stays.
    pub fn toggle_all_filters(&mut self)
        ensures
            all_set(*final(self), !all_on(*old(self))),
            final(self).show_uninstalled == old(self).show_uninstalled,
    {
        let target = !self.are_all_filters_on();
        self.chk_pacman = target;
        self.chk_paru = target;
        self.chk_dev = target;
        self.chk_forks = target;
        self.chk_clo = target;
        self.chk_unc = target;
        self.chk_brk = target;
        self.chk_bin = target;
        self.chk_scr = target;
        self.chk_npm = target;
        self.chk_cargo = target;
        self.chk_opt = target;
        self.chk_deps = target;
    }
}

/// The graph's references into the programs are in range: the selected
/// program, every node's package, and every provided tool's owner and
/// executable.
pub open spec fn graph_refs_ok(apps: Seq<AppItem>, graph: DependencyGraph, root: int) -> bool {
    &&& 0 <= root < apps.len()
    &&& node_refs_ok(apps, graph)
}

/// Every node's package, and every provided tool's owner and executable, is
/// in range.
pub open spec fn node_refs_ok(apps: Seq<AppItem>, graph: DependencyGraph) -> bool {
    forall|n: int| 0 <= n < graph.nodes@.len() ==> {
        &&& (#[trigger] graph.nodes@[n]).package_index matches Some(p) ==> p < apps.len()
        &&& graph.nodes@[n].kind matches DependencyGraphNodeKind::ProvidedTool { owner_package_index, binary_index } ==> owner_package_index < apps.len()
            && binary_index < apps[owner_package_index as int].binaries@.len()
    }
}

pub open spec fn plural(n: nat, one: Seq<char>, many: Seq<char>) -> Seq<char> {
    if n == 1 { one } else { many }
}

/// The status line of a node of the dependencies graph.
pub open spec fn forward_status_text(apps: Seq<AppItem>, graph: DependencyGraph, node: int, root: int) -> Seq<char> {
    if node == 0 {
        let tools: nat = if apps[root].one_to_one() { 0 } else { apps[root].binaries@.len() };
        let direct = apps[root].depends_on@.len();
        if tools == 0 {
            "Selected package · "@ + decimal(direct) + " direct dependencies"@
        } else {
            "Selected package · "@ + decimal(tools) + " provided tools · "@ + decimal(direct) + " direct dependencies"@
        }
    } else {
        match graph.nodes@[node].package_index {
            Some(p) => sharing_text(apps[p as int].required_by@.len()),
            None => "Package metadata unavailable"@,
        }
    }
}

/// The status line of a node: the owner of a provided tool; in the
/// dependencies graph, what the selected package brings and how widely each
/// dependency is shared; in the dependents graph, who uses the selected
/// package and what each dependent is.
pub open spec fn node_status_text(apps: Seq<AppItem>, graph: DependencyGraph, node: int, root: int, forward: bool) -> Seq<char> {
    match graph.nodes@[node].kind {
        DependencyGraphNodeKind::ProvidedTool { owner_package_index, binary_index } => "Provided by "@ + apps[owner_package_index as int].name@,
        DependencyGraphNodeKind::Package => if forward {
            forward_status_text(apps, graph, node, root)
        } else if node == 0 {
            let users = apps[root].required_by@.len();
            if users == 0 {
                if graph.nodes@[node].is_explicit {
                    "Selected package · explicit root"@
                } else {
                    "Selected package · no installed users"@
                }
            } else {
                "Selected package · "@ + decimal(users) + " direct "@ + plural(users, "dependent"@, "dependents"@)
            }
        } else {
            match graph.nodes@[node].package_index {
                Some(p) => used_by_text(apps[p as int].install_role == InstallRole::Explicit, apps[p as int].required_by@.len()),
                None => "Package metadata unavailable"@,
            }
        },
    }
}

fn forward_graph_node_status(apps: &Vec<AppItem>, graph: &DependencyGraph, node_index: usize, root_index: usize) -> (r: String)
    requires
        node_index < graph.nodes@.len(),
        graph_refs_ok(apps@, *graph, root_index as int),
    ensures
        r@ == forward_status_text(apps@, *graph, node_index as int, root_index as int),
{
    let node = &graph.nodes[node_index];
    if node_index == 0 {
        let root = &apps[root_index];
        let tools: usize = if root.is_one_to_one_tool() { 0 } else { root.binaries.len() };
        let direct = root.depends_on.len();
        let mut v = chars_of("Selected package · ");
        if tools != 0 {
            push_chars(&mut v, &decimal_chars(tools));
            push_str(&mut v, " provided tools · ");
        }
        push_chars(&mut v, &decimal_chars(direct));
        push_str(&mut v, " direct dependencies");
        string_of(&v)
    } else {
        match node.package_index {
            Some(p) => {
                proof {
                    assert(graph.nodes@[node_index as int].package_index == Some(p));
                }
                dependency_sharing_status(apps[p].required_by.len())
            },
            None => text_of("Package metadata unavailable"),
        }
    }
}

/// The status line of a node of a relationship graph of the program
/// `root_index`: of the dependencies graph when `forward`, else of the
/// dependents graph.
pub fn graph_node_status(apps: &Vec<AppItem>, graph: &DependencyGraph, node_index: usize, root_index: usize, forward: bool) -> (r: String)
    requires
        node_index < graph.nodes@.len(),
        graph_refs_ok(apps@, *graph, root_index as int),
    ensures
        r@ == node_status_text(apps@, *graph, node_index as int, root_index as int, forward),
{
    let node = &graph.nodes[node_index];
    proof {
        assert(graph.nodes@[node_index as int] == *node);
    }
    match node.kind {
        DependencyGraphNodeKind::ProvidedTool { owner_package_index, .. } => {
            let mut v = chars_of("Provided by ");
            push_str(&mut v, apps[owner_package_index].name.as_str());
            return string_of(&v);
        },
        DependencyGraphNodeKind::Package => {},
    }
    if forward {
        return forward_graph_node_status(apps, graph, node_index, root_index);
    }
    if node_index == 0 {
        let users = apps[root_index].required_by.len();
        if users == 0 {
            if node.is_explicit {
                text_of("Selected package · explicit root")
            } else {
                text_of("Selected package · no installed users")
            }
        } else {
            let mut v = chars_of("Selected package · ");
            push_chars(&mut v, &decimal_chars(users));
            push_str(&mut v, " direct ");
            if users == 1 {
                push_str(&mut v, "dependent");
            } else {
                push_str(&mut v, "dependents");
            }
            string_of(&v)
        }
    } else {
        match node.package_index {
            Some(p) => {
                let package = &apps[p];
                used_by_package_status(package.install_role.is_explicit(), package.required_by.len())
            },
            None => text_of("Package metadata unavailable"),
        }
    }
}

/// The title and location of a node: a package as its program shows in a
/// graph (its name and no location without a program), a provided tool as
/// its executable.
pub fn graph_node_text(apps: &Vec<AppItem>, graph: &DependencyGraph, node_index: usize) -> (r: (String, String))
    requires
        node_index < graph.nodes@.len(),
        node_refs_ok(apps@, *graph),
    ensures
        match graph.nodes@[node_index as int].kind {
            DependencyGraphNodeKind::Package => match graph.nodes@[node_index as int].package_index {
                Some(p) => {
                    &&& apps@[p as int].one_to_one() ==> r.0@ == executable_title_text(apps@[p as int], apps@[p as int].binaries@[0])
                        && r.1@ == executable_location_text(apps@[p as int].binaries@[0])
                    &&& !apps@[p as int].one_to_one() ==> r.0@ == classified_text(apps@[p as int], apps@[p as int].name@)
                        && r.1@ == location_text(apps@[p as int])
                },
                None => r.0@ == graph.nodes@[node_index as int].name@ && r.1@ == "path unavailable"@,
            },
            DependencyGraphNodeKind::ProvidedTool { owner_package_index, binary_index } => {
                &&& r.0@ == executable_title_text(apps@[owner_package_index as int], apps@[owner_package_index as int].binaries@[binary_index as int])
                &&& r.1@ == executable_location_text(apps@[owner_package_index as int].binaries@[binary_index as int])
            },
        },
{
    let node = &graph.nodes[node_index];
    proof {
        assert(graph.nodes@[node_index as int] == *node);
    }
    match node.kind {
        DependencyGraphNodeKind::Package => match node.package_index {
            Some(p) => graph_package_text(&apps[p]),
            None => (node.name.clone(), text_of("path unavailable")),
        },
        DependencyGraphNodeKind::ProvidedTool { owner_package_index, binary_index } => {
            let owner = &apps[owner_package_index];
            graph_executable_text(owner, &owner.binaries[binary_index])
        },
    }
}

/// The heading of column `level` of a relationship graph, holding `layer`:
/// the selected package first; the last column, when every node in it ends
/// the graph, as terminal dependencies (in the dependencies graph), install
/// roots (when all are explicit) or endpoints, with their number; else the
/// column's level.
pub open spec fn column_title_text(graph: DependencyGraph, layer: Seq<usize>, level: nat, last: bool, forward: bool, tools: bool) -> Seq<char> {
    let terminal = last && forall|k: int| 0 <= k < layer.len() ==> #[trigger] graph.aligned(layer[k] as int);
    if level == 0 {
        "SELECTED PACKAGE"@
    } else if terminal && forward {
        "TERMINAL DEPENDENCIES · "@ + decimal(layer.len())
    } else if terminal && forall|k: int| 0 <= k < layer.len() ==> #[trigger] graph.nodes@[layer[k] as int].is_explicit {
        "TERMINAL INSTALL ROOTS · "@ + decimal(layer.len())
    } else if terminal {
        "TERMINAL ENDPOINTS · "@ + decimal(layer.len())
    } else if forward {
        dependency_column_text(level, tools)
    } else {
        dependent_column_text(level)
    }
}

pub fn graph_column_title(graph: &DependencyGraph, layer: &Vec<usize>, level: usize, column_count: usize, forward: bool, has_provided_tools: bool) -> (r: String)
    requires
        graph.well_formed(),
        forall|k: int| 0 <= k < layer@.len() ==> #[trigger] layer@[k] < graph.nodes@.len(),
    ensures
        r@ == column_title_text(*graph, layer@, level as nat, level + 1 == column_count, forward, has_provided_tools),
{
    if level == 0 {
        return text_of("SELECTED PACKAGE");
    }
    let last = level < column_count && level + 1 == column_count;
    let mut terminal = last;
    let mut explicit = true;
    let mut k: usize = 0;
    while k < layer.len()
        invariant
            graph.well_formed(),
            forall|q: int| 0 <= q < layer@.len() ==> #[trigger] layer@[q] < graph.nodes@.len(),
            k <= layer@.len(),
            terminal == (last && forall|q: int| 0 <= q < k ==> #[trigger] graph.aligned(layer@[q] as int)),
            explicit == forall|q: int| 0 <= q < k ==> #[trigger] graph.nodes@[layer@[q] as int].is_explicit,
        decreases layer@.len() - k,
    {
        if !graph.is_aligned_terminal(layer[k]) {
            terminal = false;
        }
        if !graph.nodes[layer[k]].is_explicit {
            explicit = false;
        }
        k += 1;
    }
    if terminal && forward {
        text_with_number("TERMINAL DEPENDENCIES · ", layer.len())
    } else if terminal && explicit {
        text_with_number("TERMINAL INSTALL ROOTS · ", layer.len())
    } else if terminal {
        text_with_number("TERMINAL ENDPOINTS · ", layer.len())
    } else if forward {
        dependency_column_title(level, has_provided_tools)
    } else {
        dependent_column_title(level)
    }
}

/// A node is drawn as shared: a provided tool always, a package other than
/// the selected one when more than one installed package requires it.
pub open spec fn node_shared(apps: Seq<AppItem>, graph: DependencyGraph, node: int) -> bool {
    match graph.nodes@[node].kind {
        DependencyGraphNodeKind::ProvidedTool { .. } => true,
        DependencyGraphNodeKind::Package => node != 0 && match graph.nodes@[node].package_index {
            Some(p) => apps[p as int].required_by@.len() > 1,
            None => false,
        },
    }
}

pub fn graph_node_shared(apps: &Vec<AppItem>, graph: &DependencyGraph, node_index: usize) -> (r: bool)
    requires
        node_index < graph.nodes@.len(),
        node_refs_ok(apps@, *graph),
    ensures
        r == node_shared(apps@, *graph, node_index as int),
{
    let node = &graph.nodes[node_index];
    proof {
        assert(graph.nodes@[node_index as int] == *node);
    }
    match node.kind {
        DependencyGraphNodeKind::ProvidedTool { .. } => true,
        DependencyGraphNodeKind::Package => node_index != 0 && match node.package_index {
            Some(p) => apps[p].required_by.len() > 1,
            None => false,
        },
    }
}

/// A node is struck through as unavailable: a package by its program's
/// state (`app_on_path`: whether one of its executables is on the search
/// path), a provided tool by its executable's (`binary_on_path`); a package
/// without a program never.
pub open spec fn node_struck(apps: Seq<AppItem>, graph: DependencyGraph, node: int, app_on_path: bool, binary_on_path: bool) -> bool {
    match graph.nodes@[node].kind {
        DependencyGraphNodeKind::Package => match graph.nodes@[node].package_index {
            Some(p) => struck(apps[p as int], app_on_path),
            None => false,
        },
        DependencyGraphNodeKind::ProvidedTool { owner_package_index, binary_index } =>
            binary_struck(apps[owner_package_index as int], apps[owner_package_index as int].binaries@[binary_index as int], binary_on_path),
    }
}

pub fn graph_node_struck(apps: &Vec<AppItem>, graph: &DependencyGraph, node_index: usize, app_on_path: bool, binary_on_path: bool) -> (r: bool)
    requires
        node_index < graph.nodes@.len(),
        node_refs_ok(apps@, *graph),
    ensures
        r == node_struck(apps@, *graph, node_index as int, app_on_path, binary_on_path),
{
    let node = &graph.nodes[node_index];
    proof {
        assert(graph.nodes@[node_index as int] == *node);
    }
    match node.kind {
        DependencyGraphNodeKind::Package => match node.package_index {
            Some(p) => app_should_be_struck(&apps[p], app_on_path),
            None => false,
        },
        DependencyGraphNodeKind::ProvidedTool { owner_package_index, binary_index } => {
            let owner = &apps[owner_package_index];
            binary_should_be_struck(owner, &owner.binaries[binary_index], binary_on_path)
        },
    }
}

/// The nodes lit up while `node` is hovered: itself and both ends of every
/// edge on a path through it.
pub open spec fn lit_node(graph: DependencyGraph, node: int, v: int) -> bool {
    v == node || exists|e: int| 0 <= e < graph.edges@.len() && #[trigger] graph.on_path(node, e)
        && (graph.edges@[e].0 == v || graph.edges@[e].1 == v)
}

pub fn lit_nodes(graph: &DependencyGraph, node_index: usize) -> (r: Vec<bool>)
    requires
        graph.well_formed(),
        node_index < graph.nodes@.len(),
    ensures
        r@.len() == graph.nodes@.len(),
        forall|v: int| 0 <= v < graph.nodes@.len() ==> #[trigger] r@[v] == lit_node(*graph, node_index as int, v),
{
    let n = graph.nodes.len();
    let through = graph.path_edges_through(node_index);
    let mut lit: Vec<bool> = Vec::new();
    let mut v: usize = 0;
    while v < n
        invariant
            n == graph.nodes@.len(),
            v <= n,
            lit@.len() == v,
            forall|w: int| 0 <= w < v ==> #[trigger] lit@[w] == (w == node_index),
        decreases n - v,
    {
        lit.push(v == node_index);
        v += 1;
    }
    let mut k: usize = 0;
    while k < through.len()
        invariant
            graph.well_formed(),
            n == graph.nodes@.len(),
            lit@.len() == n,
            k <= through@.len(),
            forall|i: int| 0 <= i < through@.len() ==> #[trigger] through@[i] < graph.edges@.len(),
            forall|e: int| 0 <= e < graph.edges@.len() ==> (through@.contains(e as usize) <==> #[trigger] graph.on_path(node_index as int, e)),
            forall|w: int| 0 <= w < n ==> #[trigger] lit@[w] == (w == node_index || exists|i: int| 0 <= i < k
                && (graph.edges@[through@[i] as int].0 == w || graph.edges@[through@[i] as int].1 == w)),
        decreases through@.len() - k,
    {
        let (source, target) = graph.edges[through[k]];
        let ghost before = lit@;
        proof {
            assert(crate::reach::edges_within(graph.edges@, n as int));
            assert(graph.edges@[through@[k as int] as int].0 < n && graph.edges@[through@[k as int] as int].1 < n);
        }
        lit.set(source, true);
        lit.set(target, true);
        proof {
            assert forall|w: int| 0 <= w < n implies #[trigger] lit@[w] == (w == node_index || exists|i: int| 0 <= i < k + 1
                && (graph.edges@[through@[i] as int].0 == w || graph.edges@[through@[i] as int].1 == w)) by {
                if w == source as int || w == target as int {
                    assert(graph.edges@[through@[k as int] as int].0 == source);
                } else {
                    assert(lit@[w] == before[w]);
                    if exists|i: int| 0 <= i < k + 1 && (graph.edges@[through@[i] as int].0 == w || graph.edges@[through@[i] as int].1 == w) {
                        let i = choose|i: int| 0 <= i < k + 1 && (graph.edges@[through@[i] as int].0 == w || graph.edges@[through@[i] as int].1 == w);
                        assert(i != k);
                    }
                }
            }
        }
        k += 1;
    }
    let edge_count = graph.edges.len();
    proof {
        assert forall|w: int| 0 <= w < n implies #[trigger] lit@[w] == lit_node(*graph, node_index as int, w) by {
            if w != node_index {
                if lit@[w] {
                    let i = choose|i: int| 0 <= i < through@.len() && (graph.edges@[through@[i] as int].0 == w || graph.edges@[through@[i] as int].1 == w);
                    let e = through@[i] as int;
                    assert(0 <= e < graph.edges@.len());
                    assert(e as usize == through@[i]);
                    assert(through@.contains(e as usize));
                    assert(graph.on_path(node_index as int, e));
                    assert(lit_node(*graph, node_index as int, w));
                }
                if lit_node(*graph, node_index as int, w) {
                    let e = choose|e: int| 0 <= e < graph.edges@.len() && #[trigger] graph.on_path(node_index as int, e)
                        && (graph.edges@[e].0 == w || graph.edges@[e].1 == w);
                    assert(e < edge_count);
                    assert(through@.contains(e as usize));
                    let i = choose|i: int| 0 <= i < through@.len() && through@[i] == e as usize;
                    assert(through@[i] as int == e);
                    assert(lit@[w]);
                }
            }
        }
    }
    lit
}

/// The notice under a graph that reached its node limit.
pub open spec fn truncation_text(forward: bool, limit: nat) -> Seq<char> {
    "Graph limited to "@ + decimal(limit) + " nodes; additional "@ + (if forward { "dependencies"@ } else { "users"@ })
        + " are hidden. Use the tree for a focused branch view."@
}

pub fn graph_truncation_notice(forward: bool, limit: usize) -> (r: String)
    ensures
        r@ == truncation_text(forward, limit as nat),
{
    let mut v = chars_of("Graph limited to ");
    push_chars(&mut v, &decimal_chars(limit));
    push_str(&mut v, " nodes; additional ");
    if forward {
        push_str(&mut v, "dependencies");
    } else {
        push_str(&mut v, "users");
    }
    push_str(&mut v, " are hidden. Use the tree for a focused branch view.");
    string_of(&v)
}

} // verus!
