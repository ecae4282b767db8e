use progs::models::{AppItem, BinaryInfo, DesktopEntry, InstallOrigin, InstallRole, PackageCapabilities, ProgramState, ServiceKind};

fn plain_state() -> ProgramState {
    ProgramState::default()
}

fn app(origin: InstallOrigin, role: InstallRole, state: ProgramState) -> AppItem {
    AppItem {
        name: "tool".to_string(),
        version: String::new(),
        origin,
        install_role: role,
        state,
        size: String::new(),
        install_date: String::new(),
        desc: String::new(),
        url: String::new(),
        licenses: String::new(),
        _owning_pkg: String::new(),
        representative_path: String::new(),
        binaries: Vec::new(),
        required_by: Vec::new(),
        depends_on: Vec::new(),
        desktop_entries: Vec::new(),
        services: Vec::new(),
        capabilities: PackageCapabilities::default(),
    }
}

fn binary(name: &str, dir: &str) -> BinaryInfo {
    BinaryInfo {
        name: name.to_string(),
        dir: dir.to_string(),
        path: format!("{dir}/{name}"),
        is_symlink: false,
        target: String::new(),
        version: String::new(),
        _is_pacman_owned: false,
        _owning_pkg: String::new(),
    }
}

#[test]
fn badge_codes_are_three_character_and_unambiguous() {
    assert_eq!(InstallOrigin::Pacman.badge_code(InstallRole::Explicit), "PEM");
    assert_eq!(InstallOrigin::Pacman.badge_code(InstallRole::Dependency), "PDM");
    assert_eq!(InstallOrigin::Aur.badge_code(InstallRole::Explicit), "AEM");
    assert_eq!(InstallOrigin::Aur.badge_code(InstallRole::Dependency), "ADM");
    assert_eq!(InstallOrigin::Uv.badge_code(InstallRole::Standalone), "UVM");
    assert_eq!(InstallOrigin::Npm.badge_code(InstallRole::Standalone), "NPM");
    assert_eq!(InstallOrigin::Cargo.badge_code(InstallRole::Standalone), "CAM");
    assert_eq!(InstallOrigin::Local.badge_code(InstallRole::Standalone), "UNC");
    for badge in ["PEM", "PDM", "AEM", "ADM", "POM", "UVM", "NPM", "CAM", "UNC"] {
        assert_eq!(badge.len(), 3);
    }
    assert_eq!(
        app(InstallOrigin::Pacman, InstallRole::Dependency, ProgramState { orphan: true, ..plain_state() }).display_badge(),
        "POM"
    );

    let state_badges = [
        (ProgramState { dev: true, ..plain_state() }, "DVM"),
        (ProgramState { fork: true, ..plain_state() }, "FKM"),
        (ProgramState { cloned: true, ..plain_state() }, "CLM"),
        (ProgramState { unclassified: true, ..plain_state() }, "UNC"),
        (ProgramState { broken: true, ..plain_state() }, "BRK"),
        (ProgramState { opt: true, ..plain_state() }, "OPM"),
        (ProgramState { script: true, ..plain_state() }, "SCU"),
        (ProgramState { binary: true, ..plain_state() }, "BIU"),
    ];
    for (state, expected) in state_badges {
        assert_eq!(app(InstallOrigin::Local, InstallRole::Standalone, state).display_badge(), expected);
        assert_eq!(expected.len(), 3);
    }
}

#[test]
fn toolchain_installations_have_a_distinct_role_label() {
    assert_eq!(InstallRole::ToolchainManaged.label(), "Toolchain-managed");
    assert!(InstallRole::ToolchainManaged.is_external());
    assert!(InstallRole::Standalone.is_external());
    assert!(!InstallRole::Explicit.is_external());
    assert!(!InstallRole::Dependency.is_external());
}

#[test]
fn installation_summary_exposes_management_category() {
    assert_eq!(
        app(InstallOrigin::Pacman, InstallRole::Explicit, plain_state()).installation_summary(),
        "Pacman Explicit (Package-managed)"
    );
    assert_eq!(
        app(InstallOrigin::Cargo, InstallRole::ToolchainManaged, plain_state()).installation_summary(),
        "Cargo (Toolchain-managed)"
    );
    assert_eq!(
        app(InstallOrigin::Local, InstallRole::Standalone, ProgramState { opt: true, ..plain_state() }).installation_summary(),
        "opt (Vendor-managed)"
    );
    assert_eq!(
        app(InstallOrigin::Local, InstallRole::Standalone, ProgramState { cloned: true, ..plain_state() }).installation_summary(),
        "Git Clone (Source-managed)"
    );
    assert_eq!(
        app(InstallOrigin::Local, InstallRole::Standalone, ProgramState { fork: true, ..plain_state() }).installation_summary(),
        "Fork (Source-managed)"
    );
    assert_eq!(
        app(InstallOrigin::Local, InstallRole::Standalone, plain_state()).installation_summary(),
        "UNC (Unclassified)"
    );
    assert_eq!(
        app(InstallOrigin::Local, InstallRole::Standalone, ProgramState { binary: true, ..plain_state() }).installation_summary(),
        "BIU (Unmanaged)"
    );
}

#[test]
fn state_tags_join_in_a_fixed_order() {
    let state = ProgramState { script: true, dev: true, orphan: true, ..plain_state() };
    assert_eq!(state.tag_summary(), "DEV · ORPHAN · SCU");
    assert_eq!(plain_state().tag_summary(), "");
}

#[test]
fn defaults_are_empty() {
    let state = ProgramState::default();
    assert_eq!(state, ProgramState::plain());
    let caps = PackageCapabilities::default();
    assert!(!caps.has_gui && !caps.has_cli && !caps.has_library && !caps.has_service);
    assert!(caps.cli_commands.is_empty());
}

#[test]
fn capability_labels_and_suffixes_follow_what_a_program_offers() {
    let mut tool = app(InstallOrigin::Pacman, InstallRole::Explicit, plain_state());
    assert_eq!(tool.capabilities.primary_role(), "Data / support package");
    assert_eq!(tool.capabilities.tag_summary(), "DATA");
    assert_eq!(tool.capability_suffix(), "(data)");
    tool.capabilities.has_cli = true;
    tool.capabilities.has_library = true;
    assert_eq!(tool.capabilities.primary_role(), "Command-line tool");
    assert_eq!(tool.capabilities.tag_summary(), "CLI · LIB");
    assert_eq!(tool.capability_suffix(), "(cli, lib)");
    tool.capabilities.is_meta = true;
    assert_eq!(tool.capabilities.primary_role(), "Meta-package");
    assert_eq!(ServiceKind::Job.label(), "One-shot job");
    assert_eq!(ServiceKind::Daemon.label(), "Daemon");
}

#[test]
fn one_to_one_tools_and_suites_are_told_apart() {
    let mut tool = app(InstallOrigin::Local, InstallRole::Standalone, plain_state());
    tool.binaries = vec![binary("tool", "/usr/bin")];
    assert!(tool.is_one_to_one_tool());
    assert!(tool.is_one_to_one_standalone_tool());
    assert!(!tool.is_suite());
    tool.binaries.push(binary("tool-helper", "/usr/bin"));
    tool.capabilities.has_cli = true;
    tool.capabilities.cli_commands = vec!["tool".to_string(), "tool-helper".to_string()];
    assert!(!tool.is_one_to_one_tool());
    assert!(tool.is_suite());
    let _ = DesktopEntry {
        file_path: String::new(),
        name: String::new(),
        exec_line: String::new(),
        icon: String::new(),
        comment: String::new(),
        is_visible: true,
        runs_in_terminal: false,
    };
}
