use progs::inspector::{
    capabilities_line, copy_info_text, description_line, desktop_entry_lines, desktop_tab_heading, desktop_tab_label,
    empty_list_text, executable_info_line, executables_heading, info_lines, list_heading, location_line, open_target,
    path_status, service_lines, services_tab_heading, services_tab_label, state_line, version_size_line,
};
use progs::models::{AppItem, BinaryInfo, DesktopEntry, InstallOrigin, InstallRole, ProgramState, ServiceInfo, ServiceKind};

fn tool() -> AppItem {
    let mut app = AppItem {
        name: "tool".to_string(),
        version: String::new(),
        origin: InstallOrigin::Pacman,
        install_role: InstallRole::Explicit,
        state: ProgramState::default(),
        size: "2 MiB".to_string(),
        install_date: "today".to_string(),
        desc: "A tool".to_string(),
        url: "https://example.org".to_string(),
        licenses: "MIT".to_string(),
        _owning_pkg: "tool".to_string(),
        representative_path: String::new(),
        binaries: Vec::new(),
        required_by: Vec::new(),
        depends_on: Vec::new(),
        desktop_entries: Vec::new(),
        services: Vec::new(),
        capabilities: Default::default(),
    };
    app.capabilities.has_cli = true;
    app
}

fn binary(path: &str, target: &str) -> BinaryInfo {
    let (dir, name) = path.rsplit_once('/').unwrap();
    BinaryInfo {
        name: name.to_string(),
        dir: dir.to_string(),
        path: path.to_string(),
        is_symlink: !target.is_empty(),
        target: target.to_string(),
        version: "1.0".to_string(),
        _is_pacman_owned: true,
        _owning_pkg: "tool".to_string(),
    }
}

#[test]
fn summary_lines_describe_the_selected_program() {
    let mut app = tool();
    assert_eq!(path_status(&app, true), "PATH: Available by command name");
    assert_eq!(path_status(&app, false), "PATH: User-facing command unavailable");
    assert_eq!(location_line(&app), "Location: Unavailable");
    assert_eq!(state_line(&app), None);
    assert_eq!(version_size_line(&app), "Size: 2 MiB");
    assert_eq!(capabilities_line(&app), "Capabilities: CLI  •  Primary role: Command-line tool");
    assert_eq!(description_line(&app), "Description: A tool");
    app.version = "1.0".to_string();
    app.representative_path = "/usr/bin/tool".to_string();
    app.state.orphan = true;
    app.capabilities.has_cli = false;
    assert_eq!(path_status(&app, true), "PATH: Not applicable (no user-facing CLI)");
    assert_eq!(location_line(&app), "Location: /usr/bin/tool");
    assert_eq!(state_line(&app), Some("State: ORPHAN".to_string()));
    assert_eq!(version_size_line(&app), "Version: 1.0  •  Size: 2 MiB");
}

#[test]
fn launchers_and_services_are_listed_line_by_line() {
    let mut app = tool();
    let entry = DesktopEntry {
        file_path: "/usr/share/applications/tool.desktop".to_string(),
        name: "Tool".to_string(),
        exec_line: "tool %F".to_string(),
        icon: String::new(),
        comment: "Does things".to_string(),
        is_visible: false,
        runs_in_terminal: false,
    };
    assert_eq!(
        desktop_entry_lines(&entry),
        vec![
            "🖥️ Tool (hidden/internal)  [/usr/share/applications/tool.desktop]".to_string(),
            "   ↳ Exec: tool %F".to_string(),
            "   ↳ Comment: Does things".to_string(),
        ]
    );
    app.desktop_entries.push(entry);
    assert_eq!(desktop_tab_label(&app), "🖥️ Desktop Entries (1)");
    assert_eq!(desktop_tab_heading(&app), "Desktop Launchers & Shortcuts for tool (1):");

    let service = ServiceInfo {
        name: "tool.service".to_string(),
        file_path: "/usr/lib/systemd/system/tool.service".to_string(),
        command: String::new(),
        scope: "System".to_string(),
        kind: ServiceKind::Daemon,
        activators: vec!["systemd timer: tool.timer".to_string(), "D-Bus: org.tool.service".to_string()],
        enabled: true,
        running: None,
        broken: false,
    };
    assert_eq!(
        service_lines(&service),
        vec![
            "⚙️ tool.service — Daemon · System · runtime state unavailable".to_string(),
            "   ↳ Enabled: yes".to_string(),
            "   ↳ Definition: /usr/lib/systemd/system/tool.service".to_string(),
            "   ↳ Activation: systemd timer: tool.timer, D-Bus: org.tool.service".to_string(),
        ]
    );
    app.services.push(service);
    assert_eq!(services_tab_label(&app), "⚙️ Services (1)");
    assert_eq!(services_tab_heading(&app), "Service definitions for tool (1):");
}

#[test]
fn the_full_record_lists_every_field() {
    let mut app = tool();
    app.capabilities.cli_commands = vec!["tool".to_string(), "toolctl".to_string()];
    app.binaries.push(binary("/usr/bin/tool", ""));
    app.binaries.push(binary("/usr/bin/t", "tool"));
    let lines = info_lines(&app);
    assert_eq!(lines[0], "• Name: tool");
    assert!(lines[1].starts_with("• Installation: "));
    assert_eq!(lines[2], "• Install Date: today");
    assert_eq!(lines.last().unwrap(), "• User-facing commands: tool, toolctl");
    assert_eq!(lines.len(), 9);
    assert_eq!(executables_heading(&app), "Executables & Symlinks (2):");
    assert_eq!(executable_info_line(&app.binaries[0]), "• tool (1.0) [/usr/bin/tool]");
    assert_eq!(executable_info_line(&app.binaries[1]), "• t (1.0) [/usr/bin/t -> tool]");
    let copied = copy_info_text(&app);
    assert!(copied.starts_with("Application: tool\nInstallation: "));
    assert!(copied.contains("\nState: \nLocation: Unavailable\n"));
    assert!(copied.ends_with("\nSize: 2 MiB\nDesc: A tool\n"));
}

#[test]
fn the_opened_place_falls_back_to_an_executable_directory() {
    let mut app = tool();
    app.representative_path = "/opt/tool".to_string();
    assert_eq!(open_target(&app, true), "/opt/tool");
    assert_eq!(open_target(&app, false), "/opt");
    app.representative_path = String::new();
    assert_eq!(open_target(&app, false), "/");
    app.binaries.push(binary("/usr/local/bin/tool", ""));
    assert_eq!(open_target(&app, false), "/usr/local/bin");
    assert_eq!(list_heading(true), "Uninstalled");
    assert_eq!(empty_list_text(false), "No installed programs match the current filters.");
}
