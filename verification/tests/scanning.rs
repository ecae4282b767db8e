use progs::capabilities::{
    classify_capabilities, command_has_cli_evidence, is_public_library, observe_appstream_metadata, observe_owned_path,
    service_file_kind, PackageEvidence, ServiceFileKind,
};
use progs::cargo::{parse_installs, CargoInstall};
use progs::desktop::{command_matches_binary, desktop_exec_command, desktop_id_matches_app, parse_entry};
use progs::executables::{
    classify_custom, embedded_version_candidates, manifest_version, should_skip,
    should_skip_workspace_support_executable, version_from_identity_context, Classification, CustomExecutable,
};
use progs::models::{AppItem, BinaryInfo, DesktopEntry, InstallOrigin, InstallRole, PackageCapabilities, ProgramState};
use progs::opt::{best_launcher, opt_name, version_from_text};
use progs::pacman::{parse_file_owners, parse_package_names, parse_package_versions, parse_query_info, PackageMetadata};
use progs::records::{best_owned_path, discovered_install_role, representative_path};
use progs::unit_file::{service_definition_is_persistent, dbus_service_is_activatable, values_for_key};
use std::collections::{HashMap, HashSet};

fn strings(items: &[&str]) -> Vec<String> {
    items.iter().map(|item| item.to_string()).collect()
}

#[test]
fn owned_paths_identify_public_library_plugin_and_cli_evidence() {
    let mut evidence = PackageEvidence::empty();
    for path in [
        "/usr/lib/libexample.so.1",
        "/usr/lib/qt6/plugins/example.so",
        "/usr/share/man/man1/example.1.gz",
        "/usr/share/man/man8/admin-tool.8.xz",
        "/usr/share/fish/vendor_completions.d/other.fish",
    ] {
        observe_owned_path(&mut evidence, path, None);
    }

    assert!(evidence.has_library);
    assert!(evidence.has_plugin);
    assert!(evidence.documented_commands.contains(&"example".to_string()));
    assert!(evidence.documented_commands.contains(&"admin-tool".to_string()));
    assert!(evidence.completed_commands.contains(&"other".to_string()));
}

#[test]
fn useful_cli_requires_documentation_completion_or_a_terminal_launcher() {
    let documented = strings(&["ffprobe"]);
    let completed = strings(&["ffplay"]);
    let terminal = strings(&["interactive-tool"]);

    assert!(command_has_cli_evidence("ffprobe", &documented, &completed, &terminal));
    assert!(command_has_cli_evidence("ffplay", &documented, &completed, &terminal));
    assert!(command_has_cli_evidence("interactive-tool", &documented, &completed, &terminal));
    assert!(!command_has_cli_evidence("internal-helper", &documented, &completed, &terminal));
}

#[test]
fn internal_modules_are_not_public_libraries() {
    assert!(is_public_library("/usr/lib/libavcodec.so.62"));
    assert!(is_public_library("/usr/lib32/libcompat.a"));
    assert!(!is_public_library("/usr/lib/alsa-topology/libalsatplg_module_nhlt.so"));
    assert!(!is_public_library("/usr/lib/python3.14/site-packages/native.so"));
}

#[test]
fn only_long_running_or_activatable_services_are_daemons() {
    let oneshot = "[Service]\nType=oneshot\nExecStart=/usr/bin/restore-state";
    let daemon = "[Service]\nType=notify\nExecStart=/usr/bin/exampled";
    let default_simple = "[Service]\nExecStart=/usr/bin/exampled --foreground";
    let dbus = "[D-BUS Service]\nName=org.example.Service\nExec=/usr/bin/exampled";

    assert!(!service_definition_is_persistent(oneshot));
    assert!(service_definition_is_persistent(daemon));
    assert!(service_definition_is_persistent(default_simple));
    assert!(dbus_service_is_activatable(dbus));
}

#[test]
fn service_files_are_read_for_persistent_services() {
    let mut evidence = PackageEvidence::empty();
    let unit = "/usr/lib/systemd/system/exampled.service";
    assert_eq!(service_file_kind(unit), ServiceFileKind::SystemdUnit);
    observe_owned_path(&mut evidence, unit, Some("[Service]\nType=oneshot\nExecStart=/bin/true"));
    assert!(!evidence.has_persistent_service);
    observe_owned_path(&mut evidence, unit, Some("[Service]\nExecStart=/usr/bin/exampled"));
    assert!(evidence.has_persistent_service);
    assert_eq!(service_file_kind("/usr/bin/exampled"), ServiceFileKind::NotAService);
    observe_appstream_metadata(&mut evidence, "<component type=\"desktop-application\">");
    assert!(evidence.appstream_gui);
    assert!(!evidence.appstream_cli);
}

fn standalone_app(name: &str, runs_in_terminal: bool) -> AppItem {
    AppItem {
        name: name.to_string(),
        version: String::new(),
        origin: InstallOrigin::Local,
        install_role: InstallRole::Standalone,
        state: ProgramState::default(),
        size: "Local File".to_string(),
        install_date: String::new(),
        desc: String::new(),
        url: String::new(),
        licenses: String::new(),
        _owning_pkg: String::new(),
        representative_path: String::new(),
        binaries: vec![BinaryInfo {
            name: name.to_string(),
            dir: "/tmp".to_string(),
            path: format!("/tmp/{name}"),
            is_symlink: false,
            target: String::new(),
            version: String::new(),
            _is_pacman_owned: false,
            _owning_pkg: String::new(),
        }],
        required_by: Vec::new(),
        depends_on: Vec::new(),
        desktop_entries: vec![DesktopEntry {
            file_path: format!("/tmp/{name}.desktop"),
            name: name.to_string(),
            exec_line: format!("/tmp/{name}"),
            icon: String::new(),
            comment: String::new(),
            is_visible: true,
            runs_in_terminal,
        }],
        services: Vec::new(),
        capabilities: PackageCapabilities::default(),
    }
}

#[test]
fn standalone_graphical_launchers_do_not_imply_a_cli() {
    let app = standalone_app("graphical-tool", false);
    let capabilities = classify_capabilities(&app, &PackageEvidence::empty(), false);
    assert!(capabilities.has_gui);
    assert!(!capabilities.has_cli);
}

#[test]
fn standalone_terminal_launchers_are_cli_tools_not_guis() {
    let app = standalone_app("terminal-tool", true);
    let capabilities = classify_capabilities(&app, &PackageEvidence::empty(), false);
    assert!(!capabilities.has_gui);
    assert!(capabilities.has_cli);
    assert_eq!(capabilities.cli_commands, ["terminal-tool"]);
}

#[test]
fn empty_packages_with_dependencies_are_meta_packages() {
    let mut app = standalone_app("desktop-meta", false);
    app.binaries.clear();
    app.desktop_entries.clear();
    app.install_role = InstallRole::Explicit;
    app.origin = InstallOrigin::Pacman;
    let capabilities = classify_capabilities(&app, &PackageEvidence::empty(), false);
    assert!(capabilities.is_meta);
    let mut plain = app.clone();
    plain.name = "plain".to_string();
    assert!(!classify_capabilities(&plain, &PackageEvidence::empty(), false).is_meta);
    plain.depends_on = strings(&["glibc"]);
    assert!(classify_capabilities(&plain, &PackageEvidence::empty(), true).is_meta);
}

#[test]
fn parses_single_and_multi_binary_cargo_installs() {
    let installs = parse_installs(
        "[v1]\n\"just 1.2.3 (registry+url)\" = [\"just\"]\n\"ripgrep_all 0.9.0 (registry+url)\" = [\n    \"rga\",\n    \"rga-preproc\",\n]\n",
    );
    assert_eq!(
        installs,
        vec![
            CargoInstall { package: "just".to_string(), version: "1.2.3".to_string(), binaries: vec!["just".to_string()] },
            CargoInstall {
                package: "ripgrep_all".to_string(),
                version: "0.9.0".to_string(),
                binaries: vec!["rga".to_string(), "rga-preproc".to_string()],
            },
        ]
    );
}

#[test]
fn parses_only_the_primary_desktop_entry_section() {
    let content = "[Desktop Entry]\nName=Program Manager\nExec=progs --show\nIcon=progs\nComment=Inspect installed programs\n\n[Desktop Action Other]\nName=Other\nExec=other\n";
    let entry = parse_entry("/tmp/progs.desktop", content).unwrap();

    assert_eq!(entry.name, "Program Manager");
    assert_eq!(entry.exec_line, "progs --show");
    assert_eq!(entry.icon, "progs");
    assert_eq!(entry.comment, "Inspect installed programs");
    assert_eq!(entry.file_path, "/tmp/progs.desktop");
    assert!(entry.is_visible);
    assert!(!entry.runs_in_terminal);
}

#[test]
fn ignores_entries_without_an_executable() {
    assert!(parse_entry("/tmp/invalid.desktop", "[Desktop Entry]\nName=Invalid").is_none());
}

#[test]
fn falls_back_to_the_desktop_filename_for_an_empty_name() {
    let entry = parse_entry("/tmp/program-manager.desktop", "[Desktop Entry]\nExec=progs").unwrap();
    assert_eq!(entry.name, "program-manager");
}

#[test]
fn marks_hidden_and_non_application_entries_as_not_visible() {
    let hidden = parse_entry(
        "/tmp/hidden.desktop",
        "[Desktop Entry]\nType=Application\nName=Hidden\nExec=hidden\nNoDisplay=true",
    )
    .unwrap();
    let service = parse_entry("/tmp/service.desktop", "[Desktop Entry]\nType=Service\nName=Service\nExec=service").unwrap();

    assert!(!hidden.is_visible);
    assert!(!service.is_visible);
}

#[test]
fn parses_terminal_launchers_and_extracts_env_wrapped_commands() {
    let entry = parse_entry(
        "/tmp/tool.desktop",
        "[Desktop Entry]\nType=Application\nName=Tool\nExec=env MODE=fast /usr/bin/tool %F\nTerminal=true",
    )
    .unwrap();

    assert!(entry.runs_in_terminal);
    assert_eq!(desktop_exec_command(&entry.exec_line), Some("/usr/bin/tool".to_string()));
    assert_eq!(desktop_exec_command("\"/opt/My Tool/tool\" --open %F"), Some("/opt/My Tool/tool".to_string()));
    assert_eq!(desktop_exec_command("env -u OLD_MODE MODE=fast tool"), Some("tool".to_string()));
}

#[test]
fn executable_and_desktop_id_matching_is_exact() {
    let binary = BinaryInfo {
        name: "tool".to_string(),
        dir: "/usr/bin".to_string(),
        path: "/usr/bin/tool".to_string(),
        is_symlink: false,
        target: String::new(),
        version: String::new(),
        _is_pacman_owned: true,
        _owning_pkg: "tool".to_string(),
    };
    assert!(command_matches_binary("/usr/bin/tool", "tool", &binary));
    assert!(command_matches_binary("tool", "tool", &binary));
    assert!(!command_matches_binary("/usr/local/bin/tool", "tool", &binary));
    assert!(!command_matches_binary("/usr/bin/toolbox", "toolbox", &binary));

    let entry = parse_entry("/tmp/org.example.toolbox.desktop", "[Desktop Entry]\nExec=/usr/bin/toolbox").unwrap();
    assert!(desktop_id_matches_app(&entry, "toolbox"));
    assert!(!desktop_id_matches_app(&entry, "tool"));
}

fn classification(path: &str, target: &str, is_symlink: bool, is_script: bool, is_broken: bool) -> Classification {
    classify_custom(&CustomExecutable { path, target, is_symlink, is_script, is_broken }, None)
}

#[test]
fn skips_non_executable_metadata_by_suffix() {
    assert!(should_skip("README.md"));
    assert!(should_skip("tool.desktop"));
    assert!(!should_skip("tool"));
}

#[test]
fn skips_standard_build_helpers_only_at_workspace_roots() {
    let project = "/home/test/repos/tool";
    assert!(should_skip_workspace_support_executable(project, "missing", "/home/test"));
    assert!(should_skip_workspace_support_executable(project, "configure", "/home/test"));
    assert!(!should_skip_workspace_support_executable(project, "tool", "/home/test"));
    assert!(!should_skip_workspace_support_executable("/home/test/repos/tool/bin", "missing", "/home/test"));
}

#[test]
fn reads_declared_project_versions_for_local_tools() {
    assert_eq!(
        manifest_version("[package]\nname = \"tool\"\nversion = \"0.2.6\"", "[package]"),
        Some("0.2.6".to_string())
    );
    assert_eq!(manifest_version("[project]\nversion = '1.4.0'", "[project]"), Some("1.4.0".to_string()));
}

#[test]
fn extracts_embedded_versions_near_the_binary_identity() {
    let strings = vec![
        "unrelated 1.2.3".to_string(),
        "0.0.0.0".to_string(),
        "3.38.1".to_string(),
        "Tixati/3.38-64".to_string(),
    ];
    assert_eq!(version_from_identity_context(&strings, "tixati"), Some("3.38.1".to_string()));
}

#[test]
fn rejects_ip_addresses_and_all_zero_embedded_versions() {
    assert!(embedded_version_candidates("0.0.0.0").is_empty());
    assert!(embedded_version_candidates("127.0.0.1").is_empty());
    assert!(embedded_version_candidates("version 0.0.0").is_empty());
}

#[test]
fn classification_preserves_priority_and_facets() {
    assert!(classification("/home/test/.local/bin/tool", "missing", true, false, true).state.broken);
    assert_eq!(
        classification("/home/test/.local/bin/tool", "/opt/node_modules/tool", true, false, false).origin,
        InstallOrigin::Npm
    );
    assert!(classification("/home/test/.local/bin/tool", "/home/test/Dev/tool/target/release/tool", true, false, false).state.dev);
    assert!(classification("/home/test/.local/bin/tool", "", false, true, false).state.script);
    assert!(classification("/home/test/.local/bin/tool", "", false, false, false).state.binary);
    assert!(classification("/home/test/.local/bin/tool", "elsewhere", true, false, false).state.unclassified);
}

#[test]
fn checkouts_take_the_state_their_repository_shows() {
    let fork = ProgramState { fork: true, ..ProgramState::default() };
    let executable = CustomExecutable {
        path: "/home/test/repos/tool/tool",
        target: "",
        is_symlink: false,
        is_script: false,
        is_broken: false,
    };
    assert_eq!(classify_custom(&executable, Some(fork)).state, fork);
    assert!(classify_custom(&executable, None).state.unclassified);
}

#[test]
fn chromium_vendor_directory_uses_the_product_launcher_name() {
    assert_eq!(opt_name("chromium.org", Some("/opt/chromium.org/thorium/thorium-browser")), "thorium");
    assert_eq!(opt_name("ghidra", Some("/opt/ghidra/ghidraRun")), "ghidra");
}

#[test]
fn extracts_plain_and_property_versions() {
    assert_eq!(version_from_text("application.version=11.3.2\n"), Some("11.3.2".into()));
    assert_eq!(version_from_text("2.5.0\n"), Some("2.5.0".into()));
}

#[test]
fn launchers_prefer_the_installation_name_and_shallow_paths() {
    let executables = strings(&[
        "/opt/ghidra/support/analyzeHeadless",
        "/opt/ghidra/uninstall",
        "/opt/ghidra/ghidraRun",
        "/opt/ghidra/lib/libtool.so",
    ]);
    assert_eq!(best_launcher("ghidra", &executables), Some("/opt/ghidra/ghidraRun".to_string()));
    let exact = strings(&["/opt/tool/bin/tool", "/opt/tool/tool", "/opt/tool/tool-server"]);
    assert_eq!(best_launcher("tool", &exact), Some("/opt/tool/tool".to_string()));
    assert_eq!(best_launcher("tool", &strings(&["/opt/tool/uninstall"])), None);
}

fn pairs(v: &[(String, String)]) -> HashMap<String, String> {
    v.iter().cloned().collect()
}

#[test]
fn parses_package_queries() {
    assert_eq!(
        pairs(&parse_package_versions("bash 5.2.037-1\ninvalid\ncoreutils 9.7-1")),
        HashMap::from([
            ("bash".to_string(), "5.2.037-1".to_string()),
            ("coreutils".to_string(), "9.7-1".to_string()),
        ])
    );
    assert_eq!(
        parse_package_names("foreign 1.0\ncustom 2.0").into_iter().collect::<HashSet<_>>(),
        HashSet::from(["foreign".to_string(), "custom".to_string()])
    );
}

#[test]
fn parses_package_metadata_providers_and_reverse_dependencies() {
    let output = "Name            : bash\nInstalled Size  : 7.84 MiB\nInstall Date    : Fri 01 Aug 2026\nDescription     : The GNU Bourne Again shell\nURL             : https://www.gnu.org/software/bash/\nLicenses        : GPL-3.0-or-later\nProvides        : sh=5.2 shell\nDepends On      : readline>=8 glibc\nRequired By     : pacman\n\nName            : glibc\nProvides        : None\nDepends On      : None\nRequired By     : None\n";
    let parsed = parse_query_info(output);
    let metadata: HashMap<String, PackageMetadata> = parsed.metadata.iter().cloned().collect();
    let provides = pairs(&parsed.provides);
    let reverse: HashMap<String, Vec<String>> = parsed.reverse_dependencies.iter().cloned().collect();

    assert_eq!(
        metadata["bash"],
        PackageMetadata {
            size: "7.84 MiB".to_string(),
            install_date: "Fri 01 Aug 2026".to_string(),
            description: "The GNU Bourne Again shell".to_string(),
            url: "https://www.gnu.org/software/bash/".to_string(),
            licenses: "GPL-3.0-or-later".to_string(),
            depends_on: vec!["readline".to_string(), "glibc".to_string()],
        }
    );
    assert_eq!(provides["sh"], "bash");
    assert_eq!(provides["shell"], "bash");
    assert_eq!(reverse["bash"], ["pacman"]);
    assert!(!reverse.contains_key("glibc"));
}

#[test]
fn parses_package_file_owners_and_normalizes_directory_paths() {
    assert_eq!(
        pairs(&parse_file_owners("bash /usr/bin/bash\nbash /usr/share/bash/")),
        HashMap::from([
            ("/usr/bin/bash".to_string(), "bash".to_string()),
            ("/usr/share/bash".to_string(), "bash".to_string()),
        ])
    );
}

#[test]
fn runtime_library_is_the_representative_path_for_library_packages() {
    let paths = [
        "/usr/share/licenses/glibc/COPYING",
        "/usr/lib/libBrokenLocale.so.1",
        "/usr/lib/libc.so",
        "/usr/lib/libc.so.6",
    ];
    assert_eq!(best_owned_path("glibc", &paths, &[false, false, false, false]), Some("/usr/lib/libc.so.6".to_string()));
}

#[test]
fn library_packages_are_represented_by_their_library() {
    let mut glibc = standalone_app("glibc", false);
    glibc.binaries.clear();
    glibc.desktop_entries.clear();
    glibc.capabilities.has_library = true;
    let paths = ["/usr/share/licenses/glibc/COPYING", "/usr/lib/libc.so.6", "/usr/lib/libc.so"];
    assert_eq!(
        representative_path(&glibc, &paths, &[false, false, false], &Vec::new(), &Vec::new()),
        Some("/usr/lib/libc.so.6".to_string())
    );
    let tool = standalone_app("tool", false);
    assert_eq!(
        representative_path(&tool, &[], &[], &Vec::new(), &Vec::new()),
        Some("/tmp/tool".to_string())
    );
}

#[test]
fn toolchain_origins_are_not_classified_as_standalone() {
    for origin in [InstallOrigin::Cargo, InstallOrigin::Uv, InstallOrigin::Npm] {
        assert_eq!(discovered_install_role(origin), InstallRole::ToolchainManaged);
    }
    assert_eq!(discovered_install_role(InstallOrigin::Local), InstallRole::Standalone);
}

#[test]
fn reads_unit_values_without_crossing_sections() {
    let unit = "[Unit]\nDescription=A worker\n[Service]\nType=oneshot\nExecStart=/bin/true\n";
    assert_eq!(values_for_key(unit, "Unit", "Description"), ["A worker"]);
    assert_eq!(values_for_key(unit, "Service", "Type"), ["oneshot"]);
}
