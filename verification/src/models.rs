//! The records that the scanner produces and the interface displays, with the
//! labels, badges and summaries derived from them.
use crate::text::{lemma_join_injective, pieces_without, push_if, push_piece_if, chars_of, join, join_chars, push_chars, push_str, string_of, views};
use vstd::prelude::*;

verus! {

/// One executable file attributed to a program.
#[derive(Clone, Debug)]
pub struct BinaryInfo {
    pub name: String,
    pub dir: String,
    pub path: String,
    pub is_symlink: bool,
    pub target: String,
    pub version: String,
    pub _is_pacman_owned: bool,
    pub _owning_pkg: String,
}

/// One `.desktop` launcher.
#[derive(Clone, Debug)]
pub struct DesktopEntry {
    pub file_path: String,
    pub name: String,
    pub exec_line: String,
    pub icon: String,
    pub comment: String,
    pub is_visible: bool,
    pub runs_in_terminal: bool,
}

impl DesktopEntry {
    /// A copy of the launcher.
    pub fn duplicate(&self) -> (r: Self)
        ensures
            r == *self,
    {
        DesktopEntry {
            file_path: self.file_path.clone(),
            name: self.name.clone(),
            exec_line: self.exec_line.clone(),
            icon: self.icon.clone(),
            comment: self.comment.clone(),
            is_visible: self.is_visible,
            runs_in_terminal: self.runs_in_terminal,
        }
    }
}

#[derive(Clone, Copy, Debug, PartialEq, Eq, Structural)]
pub enum ServiceKind {
    Daemon,
    Job,
}

impl ServiceKind {
    pub open spec fn label_text(self) -> Seq<char> {
        match self {
            ServiceKind::Daemon => "Daemon"@,
            ServiceKind::Job => "One-shot job"@,
        }
    }

    pub fn label(self) -> (r: &'static str)
        ensures
            r@ == self.label_text(),
    {
        match self {
            ServiceKind::Daemon => "Daemon",
            ServiceKind::Job => "One-shot job",
        }
    }
}

/// One systemd unit or D-Bus service attached to a program.
#[derive(Clone, Debug)]
pub struct ServiceInfo {
    pub name: String,
    pub file_path: String,
    pub command: String,
    pub scope: String,
    pub kind: ServiceKind,
    pub activators: Vec<String>,
    pub enabled: bool,
    pub running: Option<bool>,
    pub broken: bool,
}

/// What a package offers: interfaces, services and the commands judged user-facing.
#[derive(Clone, Debug)]
pub struct PackageCapabilities {
    pub has_gui: bool,
    pub has_cli: bool,
    pub has_library: bool,
    pub has_service: bool,
    pub has_job: bool,
    pub has_plugin: bool,
    pub is_meta: bool,
    pub cli_commands: Vec<String>,
}

impl PackageCapabilities {
    /// No capability and no command.
    pub fn none() -> (r: Self)
        ensures
            !r.has_gui && !r.has_cli && !r.has_library && !r.has_service && !r.has_job
                && !r.has_plugin && !r.is_meta && r.cli_commands@.len() == 0,
    {
        PackageCapabilities {
            has_gui: false,
            has_cli: false,
            has_library: false,
            has_service: false,
            has_job: false,
            has_plugin: false,
            is_meta: false,
            cli_commands: Vec::new(),
        }
    }

    pub open spec fn role_text(&self) -> Seq<char> {
        if self.is_meta {
            "Meta-package"@
        } else if self.has_gui {
            "GUI application"@
        } else if self.has_service {
            "Service / daemon"@
        } else if self.has_job {
            "One-shot service job"@
        } else if self.has_cli {
            "Command-line tool"@
        } else if self.has_plugin {
            "Plugin / extension"@
        } else if self.has_library {
            "Library"@
        } else {
            "Data / support package"@
        }
    }

    /// The single role that best describes the package, by a fixed priority.
    pub fn primary_role(&self) -> (r: &'static str)
        ensures
            r@ == self.role_text(),
    {
        if self.is_meta {
            "Meta-package"
        } else if self.has_gui {
            "GUI application"
        } else if self.has_service {
            "Service / daemon"
        } else if self.has_job {
            "One-shot service job"
        } else if self.has_cli {
            "Command-line tool"
        } else if self.has_plugin {
            "Plugin / extension"
        } else if self.has_library {
            "Library"
        } else {
            "Data / support package"
        }
    }

    pub open spec fn tags(&self) -> Seq<Seq<char>> {
        let t = Seq::<Seq<char>>::empty();
        let t = push_if(t, self.is_meta, "META"@);
        let t = push_if(t, self.has_gui, "GUI"@);
        let t = push_if(t, self.has_cli, "CLI"@);
        let t = push_if(t, self.has_library, "LIB"@);
        let t = push_if(t, self.has_service, "SERVICE"@);
        let t = push_if(t, self.has_job, "JOB"@);
        let t = push_if(t, self.has_plugin, "PLUGIN"@);
        push_if(t, t.len() == 0, "DATA"@)
    }

    /// The capability tags joined by `" · "`; `"DATA"` when there is none.
    pub fn tag_summary(&self) -> (r: String)
        ensures
            r@ == join(self.tags(), " · "@),
    {
        let mut tags: Vec<Vec<char>> = Vec::new();
        assert(views(tags@) =~= Seq::<Seq<char>>::empty());
        push_piece_if(&mut tags, self.is_meta, "META");
        push_piece_if(&mut tags, self.has_gui, "GUI");
        push_piece_if(&mut tags, self.has_cli, "CLI");
        push_piece_if(&mut tags, self.has_library, "LIB");
        push_piece_if(&mut tags, self.has_service, "SERVICE");
        push_piece_if(&mut tags, self.has_job, "JOB");
        push_piece_if(&mut tags, self.has_plugin, "PLUGIN");
        let none = tags.len() == 0;
        push_piece_if(&mut tags, none, "DATA");
        let sep = chars_of(" · ");
        string_of(&join_chars(&tags, &sep))
    }
}

#[derive(Clone, Copy, Debug, PartialEq, Eq, Structural)]
pub enum InstallOrigin {
    Pacman,
    Aur,
    Uv,
    Npm,
    Cargo,
    Local,
}

#[derive(Clone, Copy, Debug, PartialEq, Eq, Structural)]
pub enum InstallRole {
    Explicit,
    Dependency,
    Standalone,
    ToolchainManaged,
}

impl InstallOrigin {
    pub open spec fn code_text(self) -> Seq<char> {
        match self {
            InstallOrigin::Pacman => "PAC"@,
            InstallOrigin::Aur => "AUR"@,
            InstallOrigin::Uv => "UVM"@,
            InstallOrigin::Npm => "NPM"@,
            InstallOrigin::Cargo => "CAM"@,
            InstallOrigin::Local => "LOC"@,
        }
    }

    pub fn code(self) -> (r: &'static str)
        ensures
            r@ == self.code_text(),
    {
        match self {
            InstallOrigin::Pacman => "PAC",
            InstallOrigin::Aur => "AUR",
            InstallOrigin::Uv => "UVM",
            InstallOrigin::Npm => "NPM",
            InstallOrigin::Cargo => "CAM",
            InstallOrigin::Local => "LOC",
        }
    }

    pub open spec fn label_text(self) -> Seq<char> {
        match self {
            InstallOrigin::Pacman => "Pacman"@,
            InstallOrigin::Aur => "AUR"@,
            InstallOrigin::Uv => "uv"@,
            InstallOrigin::Npm => "npm"@,
            InstallOrigin::Cargo => "Cargo"@,
            InstallOrigin::Local => "Local"@,
        }
    }

    pub fn label(self) -> (r: &'static str)
        ensures
            r@ == self.label_text(),
    {
        match self {
            InstallOrigin::Pacman => "Pacman",
            InstallOrigin::Aur => "AUR",
            InstallOrigin::Uv => "uv",
            InstallOrigin::Npm => "npm",
            InstallOrigin::Cargo => "Cargo",
            InstallOrigin::Local => "Local",
        }
    }

    pub open spec fn badge_text(self, role: InstallRole) -> Seq<char> {
        match self {
            InstallOrigin::Pacman => match role {
                InstallRole::Explicit => "PEM"@,
                InstallRole::Dependency => "PDM"@,
                _ => "PSM"@,
            },
            InstallOrigin::Aur => match role {
                InstallRole::Explicit => "AEM"@,
                InstallRole::Dependency => "ADM"@,
                _ => "ASM"@,
            },
            InstallOrigin::Uv => "UVM"@,
            InstallOrigin::Npm => "NPM"@,
            InstallOrigin::Cargo => "CAM"@,
            InstallOrigin::Local => "UNC"@,
        }
    }

    /// The three-letter badge of a package source combined with its install reason.
    pub fn badge_code(self, role: InstallRole) -> (r: &'static str)
        ensures
            r@ == self.badge_text(role),
    {
        match self {
            InstallOrigin::Pacman => match role {
                InstallRole::Explicit => "PEM",
                InstallRole::Dependency => "PDM",
                _ => "PSM",
            },
            InstallOrigin::Aur => match role {
                InstallRole::Explicit => "AEM",
                InstallRole::Dependency => "ADM",
                _ => "ASM",
            },
            InstallOrigin::Uv => "UVM",
            InstallOrigin::Npm => "NPM",
            InstallOrigin::Cargo => "CAM",
            InstallOrigin::Local => "UNC",
        }
    }
}

impl InstallRole {
    pub open spec fn label_text(self) -> Seq<char> {
        match self {
            InstallRole::Explicit => "Explicit"@,
            InstallRole::Dependency => "Dependency"@,
            InstallRole::Standalone => "Standalone"@,
            InstallRole::ToolchainManaged => "Toolchain-managed"@,
        }
    }

    pub fn label(self) -> (r: &'static str)
        ensures
            r@ == self.label_text(),
    {
        match self {
            InstallRole::Explicit => "Explicit",
            InstallRole::Dependency => "Dependency",
            InstallRole::Standalone => "Standalone",
            InstallRole::ToolchainManaged => "Toolchain-managed",
        }
    }

    pub fn is_explicit(self) -> (r: bool)
        ensures
            r == (self == InstallRole::Explicit),
    {
        self == InstallRole::Explicit
    }

    /// Whether the program was installed outside the system package manager.
    pub fn is_external(self) -> (r: bool)
        ensures
            r == (self == InstallRole::Standalone || self == InstallRole::ToolchainManaged),
    {
        match self {
            InstallRole::Standalone | InstallRole::ToolchainManaged => true,
            _ => false,
        }
    }
}

impl Default for PackageCapabilities {
    /// No capability and no command.
    fn default() -> (r: Self)
        ensures
            !r.has_gui && !r.has_cli && !r.has_library && !r.has_service && !r.has_job
                && !r.has_plugin && !r.is_meta && r.cli_commands@.len() == 0,
    {
        PackageCapabilities::none()
    }
}

/// How a program outside the package manager was found to live on the system.
#[derive(Clone, Copy, Debug, PartialEq, Eq, Structural)]
pub struct ProgramState {
    pub dev: bool,
    pub fork: bool,
    pub cloned: bool,
    pub unclassified: bool,
    pub broken: bool,
    pub binary: bool,
    pub script: bool,
    pub opt: bool,
    pub orphan: bool,
}

impl ProgramState {
    /// The state with no flag set.
    pub fn plain() -> (r: Self)
        ensures
            r == Self::clear(),
    {
        ProgramState {
            dev: false,
            fork: false,
            cloned: false,
            unclassified: false,
            broken: false,
            binary: false,
            script: false,
            opt: false,
            orphan: false,
        }
    }

    pub open spec fn clear() -> Self {
        ProgramState {
            dev: false,
            fork: false,
            cloned: false,
            unclassified: false,
            broken: false,
            binary: false,
            script: false,
            opt: false,
            orphan: false,
        }
    }

    pub open spec fn tags(&self) -> Seq<Seq<char>> {
        let t = Seq::<Seq<char>>::empty();
        let t = push_if(t, self.dev, "DEV"@);
        let t = push_if(t, self.fork, "FORK"@);
        let t = push_if(t, self.cloned, "CLONED"@);
        let t = push_if(t, self.unclassified, "UNC"@);
        let t = push_if(t, self.broken, "BROKEN"@);
        let t = push_if(t, self.orphan, "ORPHAN"@);
        let t = push_if(t, self.binary, "BIU"@);
        let t = push_if(t, self.script, "SCU"@);
        let t = push_if(t, self.opt, "OPM"@);
        t
    }

    /// The set state flags joined by `" · "`; empty when no flag is set.
    pub fn tag_summary(&self) -> (r: String)
        ensures
            r@ == join(self.tags(), " · "@),
    {
        let mut tags: Vec<Vec<char>> = Vec::new();
        assert(views(tags@) =~= Seq::<Seq<char>>::empty());
        push_piece_if(&mut tags, self.dev, "DEV");
        push_piece_if(&mut tags, self.fork, "FORK");
        push_piece_if(&mut tags, self.cloned, "CLONED");
        push_piece_if(&mut tags, self.unclassified, "UNC");
        push_piece_if(&mut tags, self.broken, "BROKEN");
        push_piece_if(&mut tags, self.orphan, "ORPHAN");
        push_piece_if(&mut tags, self.binary, "BIU");
        push_piece_if(&mut tags, self.script, "SCU");
        push_piece_if(&mut tags, self.opt, "OPM");
        let sep = chars_of(" · ");
        string_of(&join_chars(&tags, &sep))
    }
}

impl Default for ProgramState {
    /// The state with no flag set.
    fn default() -> (r: Self)
        ensures
            r == ProgramState::clear(),
    {
        ProgramState::plain()
    }
}

} // verus!

verus! {

/// One program: a package, or a tool found outside the package manager.
#[derive(Clone, Debug)]
pub struct AppItem {
    pub name: String,
    pub version: String,
    pub origin: InstallOrigin,
    pub install_role: InstallRole,
    pub state: ProgramState,
    pub size: String,
    pub install_date: String,
    pub desc: String,
    pub url: String,
    pub licenses: String,
    pub _owning_pkg: String,
    pub representative_path: String,
    pub binaries: Vec<BinaryInfo>,
    /// The installed packages that require this one, each named once.
    pub required_by: Vec<String>,
    pub depends_on: Vec<String>,
    pub desktop_entries: Vec<DesktopEntry>,
    pub services: Vec<ServiceInfo>,
    pub capabilities: PackageCapabilities,
}

impl AppItem {
    pub open spec fn one_to_one(&self) -> bool {
        self.binaries@.len() == 1 && self.binaries@[0].name@ == self.name@
    }

    /// A program with exactly one executable, named like the program.
    pub fn is_one_to_one_tool(&self) -> (r: bool)
        ensures
            r == self.one_to_one(),
    {
        self.binaries.len() == 1 && self.binaries[0].name == self.name
    }

    /// A program whose single executable carries its own name: the program and
    /// the tool are one thing, so relationship views show no separate tool.
    pub fn is_one_to_one_standalone_tool(&self) -> (r: bool)
        ensures
            r == self.one_to_one(),
    {
        self.is_one_to_one_tool()
    }

    pub open spec fn suite(&self) -> bool {
        self.binaries@.len() > 1 && self.capabilities.has_cli
    }

    /// A command-line package that ships several executables.
    pub fn is_suite(&self) -> (r: bool)
        ensures
            r == self.suite(),
    {
        self.binaries.len() > 1 && self.capabilities.has_cli
    }

    pub open spec fn badge(&self) -> Seq<char> {
        if self.state.orphan && (self.origin == InstallOrigin::Pacman || self.origin
            == InstallOrigin::Aur) {
            "POM"@
        } else if self.origin == InstallOrigin::Aur {
            self.origin.badge_text(self.install_role)
        } else if self.state.broken {
            "BRK"@
        } else if self.origin == InstallOrigin::Npm || self.origin == InstallOrigin::Uv
            || self.origin == InstallOrigin::Cargo {
            self.origin.badge_text(self.install_role)
        } else if self.state.dev {
            "DVM"@
        } else if self.state.fork {
            "FKM"@
        } else if self.state.cloned {
            "CLM"@
        } else if self.state.unclassified {
            "UNC"@
        } else if self.state.opt {
            "OPM"@
        } else if self.state.script {
            "SCU"@
        } else if self.state.binary {
            "BIU"@
        } else {
            self.origin.badge_text(self.install_role)
        }
    }

    /// The three-letter badge shown beside the program: special states first,
    /// then the package reason or the identifying source.
    pub fn display_badge(&self) -> (r: &'static str)
        ensures
            r@ == self.badge(),
    {
        if self.state.orphan && (self.origin == InstallOrigin::Pacman || self.origin
            == InstallOrigin::Aur) {
            "POM"
        } else if self.origin == InstallOrigin::Aur {
            self.origin.badge_code(self.install_role)
        } else if self.state.broken {
            "BRK"
        } else if self.origin == InstallOrigin::Npm || self.origin == InstallOrigin::Uv
            || self.origin == InstallOrigin::Cargo {
            self.origin.badge_code(self.install_role)
        } else if self.state.dev {
            "DVM"
        } else if self.state.fork {
            "FKM"
        } else if self.state.cloned {
            "CLM"
        } else if self.state.unclassified {
            "UNC"
        } else if self.state.opt {
            "OPM"
        } else if self.state.script {
            "SCU"
        } else if self.state.binary {
            "BIU"
        } else {
            self.origin.badge_code(self.install_role)
        }
    }

    pub open spec fn suffixes(&self) -> Seq<Seq<char>> {
        let c = self.capabilities;
        let t = Seq::<Seq<char>>::empty();
        let t = push_if(t, c.has_cli, "cli"@);
        let t = push_if(t, c.has_gui, "gui"@);
        let t = push_if(t, c.has_library, "lib"@);
        let t = push_if(t, c.has_service, "dmn"@);
        let t = push_if(t, c.has_job, "job"@);
        let t = push_if(t, c.has_plugin, "plugin"@);
        let t = push_if(t, c.is_meta, "meta"@);
        push_if(t, t.len() == 0, "data"@)
    }

    pub open spec fn suffix_text(&self) -> Seq<char> {
        "("@ + join(self.suffixes(), ", "@) + ")"@
    }

    /// The short capability names in parentheses, such as `(cli, lib)`.
    pub fn capability_suffix(&self) -> (r: String)
        ensures
            r@ == self.suffix_text(),
    {
        let mut parts: Vec<Vec<char>> = Vec::new();
        assert(views(parts@) =~= Seq::<Seq<char>>::empty());
        push_piece_if(&mut parts, self.capabilities.has_cli, "cli");
        push_piece_if(&mut parts, self.capabilities.has_gui, "gui");
        push_piece_if(&mut parts, self.capabilities.has_library, "lib");
        push_piece_if(&mut parts, self.capabilities.has_service, "dmn");
        push_piece_if(&mut parts, self.capabilities.has_job, "job");
        push_piece_if(&mut parts, self.capabilities.has_plugin, "plugin");
        push_piece_if(&mut parts, self.capabilities.is_meta, "meta");
        let none = parts.len() == 0;
        push_piece_if(&mut parts, none, "data");
        let sep = chars_of(", ");
        let joined = join_chars(&parts, &sep);
        let mut out = chars_of("(");
        push_chars(&mut out, &joined);
        push_str(&mut out, ")");
        string_of(&out)
    }

    pub open spec fn management_text(&self) -> Seq<char> {
        let s = self.state;
        match self.origin {
            InstallOrigin::Pacman | InstallOrigin::Aur => "Package-managed"@,
            InstallOrigin::Uv | InstallOrigin::Npm | InstallOrigin::Cargo => "Toolchain-managed"@,
            InstallOrigin::Local => if s.broken {
                "Broken"@
            } else if s.dev || s.fork || s.cloned {
                "Source-managed"@
            } else if s.unclassified {
                "Unclassified"@
            } else if s.opt {
                "Vendor-managed"@
            } else if !s.script && !s.binary {
                "Unclassified"@
            } else {
                "Unmanaged"@
            },
        }
    }

    fn installation_management_label(&self) -> (r: &'static str)
        ensures
            r@ == self.management_text(),
    {
        let s = self.state;
        match self.origin {
            InstallOrigin::Pacman | InstallOrigin::Aur => "Package-managed",
            InstallOrigin::Uv | InstallOrigin::Npm | InstallOrigin::Cargo => "Toolchain-managed",
            InstallOrigin::Local => if s.broken {
                "Broken"
            } else if s.dev || s.fork || s.cloned {
                "Source-managed"
            } else if s.unclassified {
                "Unclassified"
            } else if s.opt {
                "Vendor-managed"
            } else if !s.script && !s.binary && !s.dev && !s.fork && !s.cloned {
                "Unclassified"
            } else {
                "Unmanaged"
            },
        }
    }

    pub open spec fn source_text(&self) -> Seq<char> {
        let s = self.state;
        match self.origin {
            InstallOrigin::Pacman => "Pacman"@,
            InstallOrigin::Aur => "AUR"@,
            InstallOrigin::Uv => "uv"@,
            InstallOrigin::Npm => "npm"@,
            InstallOrigin::Cargo => "Cargo"@,
            InstallOrigin::Local => if s.broken {
                "BRK"@
            } else if s.dev {
                "DEV"@
            } else if s.fork {
                "Fork"@
            } else if s.cloned {
                "Git Clone"@
            } else if s.unclassified {
                "UNC"@
            } else if s.opt {
                "opt"@
            } else if s.script {
                "SCU"@
            } else if s.binary {
                "BIU"@
            } else {
                "UNC"@
            },
        }
    }

    fn installation_source_label(&self) -> (r: &'static str)
        ensures
            r@ == self.source_text(),
    {
        let s = self.state;
        match self.origin {
            InstallOrigin::Pacman => "Pacman",
            InstallOrigin::Aur => "AUR",
            InstallOrigin::Uv => "uv",
            InstallOrigin::Npm => "npm",
            InstallOrigin::Cargo => "Cargo",
            InstallOrigin::Local => if s.broken {
                "BRK"
            } else if s.dev {
                "DEV"
            } else if s.fork {
                "Fork"
            } else if s.cloned {
                "Git Clone"
            } else if s.unclassified {
                "UNC"
            } else if s.opt {
                "opt"
            } else if s.script {
                "SCU"
            } else if s.binary {
                "BIU"
            } else {
                "UNC"
            },
        }
    }

    pub open spec fn summary_text(&self) -> Seq<char> {
        let identity = match self.origin {
            InstallOrigin::Pacman | InstallOrigin::Aur => self.source_text() + " "@
                + self.install_role.label_text(),
            _ => self.source_text(),
        };
        identity + " ("@ + self.management_text() + ")"@
    }

    /// Where the program comes from and who manages it, such as
    /// `Pacman Explicit (Package-managed)` or `opt (Vendor-managed)`.
    pub fn installation_summary(&self) -> (r: String)
        ensures
            r@ == self.summary_text(),
    {
        let source = self.installation_source_label();
        let mut out = chars_of(source);
        match self.origin {
            InstallOrigin::Pacman | InstallOrigin::Aur => {
                push_str(&mut out, " ");
                push_str(&mut out, self.install_role.label());
            },
            _ => {},
        }
        push_str(&mut out, " (");
        push_str(&mut out, self.installation_management_label());
        push_str(&mut out, ")");
        string_of(&out)
    }
}

/// Everything one scan found: the programs, sorted by name, the map from
/// virtual package names to the packages that provide them, and counts
/// (explicit packages, dependencies, executables, symlinks, AUR packages).
pub struct ScanResult {
    pub apps: Vec<AppItem>,
    pub provides_map: Vec<(String, String)>,
    pub _stats: (usize, usize, usize, usize, usize),
}

/// Every badge code is three characters long, whatever the origin and role.
pub proof fn lemma_badge_codes_have_three_characters(origin: InstallOrigin, role: InstallRole)
    ensures
        origin.badge_text(role).len() == 3,
{
    reveal_strlit("PEM");
    reveal_strlit("PDM");
    reveal_strlit("PSM");
    reveal_strlit("AEM");
    reveal_strlit("ADM");
    reveal_strlit("ASM");
    reveal_strlit("UVM");
    reveal_strlit("NPM");
    reveal_strlit("CAM");
    reveal_strlit("UNC");
}

/// Every program's badge is three characters long.
pub proof fn lemma_program_badges_have_three_characters(app: AppItem)
    ensures
        app.badge().len() == 3,
{
    lemma_badge_codes_have_three_characters(app.origin, app.install_role);
    reveal_strlit("POM");
    reveal_strlit("BRK");
    reveal_strlit("DVM");
    reveal_strlit("FKM");
    reveal_strlit("CLM");
    reveal_strlit("UNC");
    reveal_strlit("OPM");
    reveal_strlit("SCU");
    reveal_strlit("BIU");
}

proof fn lemma_push_if_contains(t: Seq<Seq<char>>, c: bool, x: Seq<char>, y: Seq<char>)
    ensures
        push_if(t, c, x).contains(y) <==> (t.contains(y) || (c && x == y)),
        push_if(t, c, x).len() == t.len() + if c { 1int } else { 0int },
        pieces_without(t, ' ') && x.len() > 0 && !x.contains(' ') ==> pieces_without(push_if(t, c, x), ' '),
{
    if c {
        let u = t.push(x);
        if u.contains(y) && !t.contains(y) {
            let k = choose|k: int| 0 <= k < u.len() && u[k] == y;
            if k < t.len() {
                assert(t[k] == y);
            }
        }
        if t.contains(y) {
            let k = choose|k: int| 0 <= k < t.len() && t[k] == y;
            assert(u[k] == y);
        }
        if x == y {
            assert(u[t.len() as int] == y);
        }
        if pieces_without(t, ' ') && x.len() > 0 && !x.contains(' ') {
            assert forall|i: int| 0 <= i < u.len() implies (#[trigger] u[i]).len() > 0 && !u[i].contains(' ') by {
                if i < t.len() {
                    assert(u[i] == t[i]);
                }
            }
        }
    }
}

/// The state tags list exactly the set flags, each tag non-empty and
/// without spaces.
proof fn lemma_state_tags_list_the_flags(s: ProgramState)
    ensures
        s.tags().contains("DEV"@) == s.dev,
        s.tags().contains("FORK"@) == s.fork,
        s.tags().contains("CLONED"@) == s.cloned,
        s.tags().contains("UNC"@) == s.unclassified,
        s.tags().contains("BROKEN"@) == s.broken,
        s.tags().contains("ORPHAN"@) == s.orphan,
        s.tags().contains("BIU"@) == s.binary,
        s.tags().contains("SCU"@) == s.script,
        s.tags().contains("OPM"@) == s.opt,
        s.tags().len() == 0 <==> s == ProgramState::clear(),
        pieces_without(s.tags(), ' '),
{
    reveal_strlit("DEV");
    reveal_strlit("FORK");
    reveal_strlit("CLONED");
    reveal_strlit("UNC");
    reveal_strlit("BROKEN");
    reveal_strlit("ORPHAN");
    reveal_strlit("BIU");
    reveal_strlit("SCU");
    reveal_strlit("OPM");
    let t0 = Seq::<Seq<char>>::empty();
    let t1 = push_if(t0, s.dev, "DEV"@);
    let t2 = push_if(t1, s.fork, "FORK"@);
    let t3 = push_if(t2, s.cloned, "CLONED"@);
    let t4 = push_if(t3, s.unclassified, "UNC"@);
    let t5 = push_if(t4, s.broken, "BROKEN"@);
    let t6 = push_if(t5, s.orphan, "ORPHAN"@);
    let t7 = push_if(t6, s.binary, "BIU"@);
    let t8 = push_if(t7, s.script, "SCU"@);
    let t9 = push_if(t8, s.opt, "OPM"@);
    assert(s.tags() == t9);
    assert(pieces_without(t0, ' '));
    assert("DEV"@[0] == 'D' && "FORK"@[0] == 'F' && "CLONED"@[0] == 'C' && "UNC"@[0] == 'U' && "BROKEN"@[1] == 'R');
    assert("ORPHAN"@[0] == 'O' && "BIU"@[0] == 'B' && "SCU"@[0] == 'S' && "OPM"@[0] == 'O' && "OPM"@[1] == 'P');
    assert("ORPHAN"@[1] == 'R' && "BROKEN"@[0] == 'B' && "BIU"@[1] == 'I' && "CLONED"@.len() == 6);
    let names = seq!["DEV"@, "FORK"@, "CLONED"@, "UNC"@, "BROKEN"@, "ORPHAN"@, "BIU"@, "SCU"@, "OPM"@];
    assert forall|y: Seq<char>| true implies {
        &&& t1.contains(y) <==> (s.dev && y == "DEV"@)
        &&& t2.contains(y) <==> (t1.contains(y) || (s.fork && y == "FORK"@))
        &&& t3.contains(y) <==> (t2.contains(y) || (s.cloned && y == "CLONED"@))
        &&& t4.contains(y) <==> (t3.contains(y) || (s.unclassified && y == "UNC"@))
        &&& t5.contains(y) <==> (t4.contains(y) || (s.broken && y == "BROKEN"@))
        &&& t6.contains(y) <==> (t5.contains(y) || (s.orphan && y == "ORPHAN"@))
        &&& t7.contains(y) <==> (t6.contains(y) || (s.binary && y == "BIU"@))
        &&& t8.contains(y) <==> (t7.contains(y) || (s.script && y == "SCU"@))
        &&& t9.contains(y) <==> (t8.contains(y) || (s.opt && y == "OPM"@))
    } by {
        lemma_push_if_contains(t0, s.dev, "DEV"@, y);
        lemma_push_if_contains(t1, s.fork, "FORK"@, y);
        lemma_push_if_contains(t2, s.cloned, "CLONED"@, y);
        lemma_push_if_contains(t3, s.unclassified, "UNC"@, y);
        lemma_push_if_contains(t4, s.broken, "BROKEN"@, y);
        lemma_push_if_contains(t5, s.orphan, "ORPHAN"@, y);
        lemma_push_if_contains(t6, s.binary, "BIU"@, y);
        lemma_push_if_contains(t7, s.script, "SCU"@, y);
        lemma_push_if_contains(t8, s.opt, "OPM"@, y);
    }
    assert forall|k: int| 0 <= k < names.len() implies (#[trigger] names[k]).len() > 0 && !names[k].contains(' ') by {
        if names[k].contains(' ') {
            let j = choose|j: int| 0 <= j < names[k].len() && names[k][j] == ' ';
        }
    }
    assert(names[0] == "DEV"@ && names[1] == "FORK"@ && names[2] == "CLONED"@ && names[3] == "UNC"@ && names[4] == "BROKEN"@);
    assert(names[5] == "ORPHAN"@ && names[6] == "BIU"@ && names[7] == "SCU"@ && names[8] == "OPM"@);
    lemma_push_if_contains(t0, s.dev, "DEV"@, "DEV"@);
    lemma_push_if_contains(t1, s.fork, "FORK"@, "FORK"@);
    lemma_push_if_contains(t2, s.cloned, "CLONED"@, "CLONED"@);
    lemma_push_if_contains(t3, s.unclassified, "UNC"@, "UNC"@);
    lemma_push_if_contains(t4, s.broken, "BROKEN"@, "BROKEN"@);
    lemma_push_if_contains(t5, s.orphan, "ORPHAN"@, "ORPHAN"@);
    lemma_push_if_contains(t6, s.binary, "BIU"@, "BIU"@);
    lemma_push_if_contains(t7, s.script, "SCU"@, "SCU"@);
    lemma_push_if_contains(t8, s.opt, "OPM"@, "OPM"@);
}

impl ProgramState {
    /// Tag summaries determine the flags: two states give the same summary
    /// (as `tag_summary` returns it) exactly when they agree on all nine
    /// flags, and a state's summary is empty exactly when no flag is set.
    pub proof fn lemma_tag_summary_determines_flags(self, other: ProgramState)
        ensures
            (join(self.tags(), " · "@) == join(other.tags(), " · "@)) <==> (self.dev == other.dev && self.fork == other.fork
                && self.cloned == other.cloned && self.unclassified == other.unclassified && self.broken == other.broken
                && self.orphan == other.orphan && self.binary == other.binary && self.script == other.script
                && self.opt == other.opt),
            (join(self.tags(), " · "@).len() == 0) <==> !(self.dev || self.fork || self.cloned || self.unclassified
                || self.broken || self.orphan || self.binary || self.script || self.opt),
    {
        reveal_strlit(" · ");
        lemma_state_tags_list_the_flags(self);
        lemma_state_tags_list_the_flags(other);
        let sep = " · "@;
        assert(sep.last() == ' ');
        if join(self.tags(), sep) == join(other.tags(), sep) {
            lemma_join_injective(self.tags(), other.tags(), sep);
        }
        if self.tags().len() > 0 {
            assert(self.tags()[0].len() > 0);
            if self.tags().len() >= 2 {
                assert(join(self.tags(), sep).len() >= sep.len());
            }
        }
    }
}

/// The capability tags list exactly the set capabilities, or `DATA` alone
/// when none is set; each tag non-empty and without spaces.
proof fn lemma_capability_tags_list_the_flags(c: PackageCapabilities)
    ensures
        c.tags().contains("META"@) == c.is_meta,
        c.tags().contains("GUI"@) == c.has_gui,
        c.tags().contains("CLI"@) == c.has_cli,
        c.tags().contains("LIB"@) == c.has_library,
        c.tags().contains("SERVICE"@) == c.has_service,
        c.tags().contains("JOB"@) == c.has_job,
        c.tags().contains("PLUGIN"@) == c.has_plugin,
        (c.tags() == seq!["DATA"@]) <==> !(c.is_meta || c.has_gui || c.has_cli || c.has_library || c.has_service || c.has_job || c.has_plugin),
        pieces_without(c.tags(), ' '),
{
    reveal_strlit("META");
    reveal_strlit("GUI");
    reveal_strlit("CLI");
    reveal_strlit("LIB");
    reveal_strlit("SERVICE");
    reveal_strlit("JOB");
    reveal_strlit("PLUGIN");
    reveal_strlit("DATA");
    let t0 = Seq::<Seq<char>>::empty();
    let t1 = push_if(t0, c.is_meta, "META"@);
    let t2 = push_if(t1, c.has_gui, "GUI"@);
    let t3 = push_if(t2, c.has_cli, "CLI"@);
    let t4 = push_if(t3, c.has_library, "LIB"@);
    let t5 = push_if(t4, c.has_service, "SERVICE"@);
    let t6 = push_if(t5, c.has_job, "JOB"@);
    let t7 = push_if(t6, c.has_plugin, "PLUGIN"@);
    let t8 = push_if(t7, t7.len() == 0, "DATA"@);
    assert(c.tags() == t8);
    assert(pieces_without(t0, ' '));
    assert("META"@[0] == 'M' && "GUI"@[0] == 'G' && "CLI"@[0] == 'C' && "LIB"@[0] == 'L' && "SERVICE"@[0] == 'S');
    assert("JOB"@[0] == 'J' && "PLUGIN"@[0] == 'P' && "DATA"@[0] == 'D');
    assert forall|y: Seq<char>| true implies {
        &&& t1.contains(y) <==> (c.is_meta && y == "META"@)
        &&& t2.contains(y) <==> (t1.contains(y) || (c.has_gui && y == "GUI"@))
        &&& t3.contains(y) <==> (t2.contains(y) || (c.has_cli && y == "CLI"@))
        &&& t4.contains(y) <==> (t3.contains(y) || (c.has_library && y == "LIB"@))
        &&& t5.contains(y) <==> (t4.contains(y) || (c.has_service && y == "SERVICE"@))
        &&& t6.contains(y) <==> (t5.contains(y) || (c.has_job && y == "JOB"@))
        &&& t7.contains(y) <==> (t6.contains(y) || (c.has_plugin && y == "PLUGIN"@))
        &&& t8.contains(y) <==> (t7.contains(y) || (t7.len() == 0 && y == "DATA"@))
    } by {
        lemma_push_if_contains(t0, c.is_meta, "META"@, y);
        lemma_push_if_contains(t1, c.has_gui, "GUI"@, y);
        lemma_push_if_contains(t2, c.has_cli, "CLI"@, y);
        lemma_push_if_contains(t3, c.has_library, "LIB"@, y);
        lemma_push_if_contains(t4, c.has_service, "SERVICE"@, y);
        lemma_push_if_contains(t5, c.has_job, "JOB"@, y);
        lemma_push_if_contains(t6, c.has_plugin, "PLUGIN"@, y);
        lemma_push_if_contains(t7, t7.len() == 0, "DATA"@, y);
    }
    let names = seq!["META"@, "GUI"@, "CLI"@, "LIB"@, "SERVICE"@, "JOB"@, "PLUGIN"@, "DATA"@];
    assert forall|k: int| 0 <= k < names.len() implies (#[trigger] names[k]).len() > 0 && !names[k].contains(' ') by {
        if names[k].contains(' ') {
            let j = choose|j: int| 0 <= j < names[k].len() && names[k][j] == ' ';
        }
    }
    assert(names[0] == "META"@ && names[1] == "GUI"@ && names[2] == "CLI"@ && names[3] == "LIB"@);
    assert(names[4] == "SERVICE"@ && names[5] == "JOB"@ && names[6] == "PLUGIN"@ && names[7] == "DATA"@);
    lemma_push_if_contains(t0, c.is_meta, "META"@, "META"@);
    lemma_push_if_contains(t1, c.has_gui, "GUI"@, "GUI"@);
    lemma_push_if_contains(t2, c.has_cli, "CLI"@, "CLI"@);
    lemma_push_if_contains(t3, c.has_library, "LIB"@, "LIB"@);
    lemma_push_if_contains(t4, c.has_service, "SERVICE"@, "SERVICE"@);
    lemma_push_if_contains(t5, c.has_job, "JOB"@, "JOB"@);
    lemma_push_if_contains(t6, c.has_plugin, "PLUGIN"@, "PLUGIN"@);
    lemma_push_if_contains(t7, t7.len() == 0, "DATA"@, "DATA"@);
    if t7.len() == 0 {
        assert(t8 =~= seq!["DATA"@]);
    } else {
        assert(t8 == t7);
        assert(t7[0] != "DATA"@) by {
            assert(t7.contains(t7[0]));
        }
    }
}

impl PackageCapabilities {
    /// Capability summaries determine the capabilities: two summaries (as
    /// `tag_summary` returns them) are equal exactly when the seven capabilities
    /// agree, and a summary is `DATA` exactly when there is none.
    pub proof fn lemma_tag_summary_determines_flags(self, other: PackageCapabilities)
        ensures
            (join(self.tags(), " · "@) == join(other.tags(), " · "@)) <==> (self.is_meta == other.is_meta && self.has_gui == other.has_gui
                && self.has_cli == other.has_cli && self.has_library == other.has_library && self.has_service == other.has_service
                && self.has_job == other.has_job && self.has_plugin == other.has_plugin),
            (join(self.tags(), " · "@) == "DATA"@) <==> !(self.is_meta || self.has_gui || self.has_cli || self.has_library || self.has_service
                || self.has_job || self.has_plugin),
    {
        reveal_strlit(" · ");
        lemma_capability_tags_list_the_flags(self);
        lemma_capability_tags_list_the_flags(other);
        let sep = " · "@;
        assert(sep.last() == ' ');
        if join(self.tags(), sep) == join(other.tags(), sep) {
            lemma_join_injective(self.tags(), other.tags(), sep);
        }
        let same = self.is_meta == other.is_meta && self.has_gui == other.has_gui && self.has_cli == other.has_cli && self.has_library == other.has_library
            && self.has_service == other.has_service && self.has_job == other.has_job && self.has_plugin == other.has_plugin;
        if same {
            assert(self.tags() == other.tags());
        }
        let data = seq!["DATA"@];
        assert(join(data, sep) == "DATA"@);
        assert(pieces_without(data, ' ')) by {
            reveal_strlit("DATA");
            assert(data[0] == "DATA"@);
            if data[0].contains(' ') {
                let j = choose|j: int| 0 <= j < data[0].len() && data[0][j] == ' ';
            }
        }
        if join(self.tags(), sep) == "DATA"@ {
            lemma_join_injective(self.tags(), data, sep);
        }
    }
}

} // verus!
