use progs::dependency_graph::build_reverse_dependency_graph;
use progs::dependency_graph::build_forward_dependency_graph;
use progs::models::{AppItem, BinaryInfo, DesktopEntry, InstallOrigin, InstallRole, PackageCapabilities, ProgramState, ServiceInfo, ServiceKind};
use progs::presentation::{
    app_display_text, app_should_be_struck, binary_should_be_struck, dependency_column_title,
    dependency_root_display_text, dependency_sharing_status, dependency_tree_indent, dependent_column_title,
    graph_node_status, graph_node_text, graph_package_text, used_by_package_status, FilterSettings,
};
use std::collections::HashSet;

fn binary_is_on_path(binary: &BinaryInfo, path_directories: &HashSet<String>) -> bool {
    std::path::Path::new(&binary.path)
        .parent()
        .map(|directory| path_directories.contains(&directory.to_string_lossy().to_string()))
        .unwrap_or(false)
}

fn app_is_on_path(app: &AppItem, path_directories: &HashSet<String>) -> bool {
    app.binaries.iter().any(|binary| binary_is_on_path(binary, path_directories))
}

fn chunk() -> AppItem {
    AppItem {
        name: "chunk".to_string(),
        version: String::new(),
        origin: InstallOrigin::Local,
        install_role: InstallRole::Standalone,
        state: ProgramState { script: true, ..ProgramState::default() },
        size: "Local File".to_string(),
        install_date: String::new(),
        desc: String::new(),
        url: String::new(),
        licenses: String::new(),
        _owning_pkg: String::new(),
        representative_path: "/home/lewis/.local/bin/chunk".to_string(),
        binaries: vec![BinaryInfo {
            name: "chunk".to_string(),
            dir: "/home/lewis/.local/bin".to_string(),
            path: "/home/lewis/.local/bin/chunk".to_string(),
            is_symlink: false,
            target: String::new(),
            version: String::new(),
            _is_pacman_owned: false,
            _owning_pkg: String::new(),
        }],
        required_by: Vec::new(),
        depends_on: Vec::new(),
        desktop_entries: Vec::new(),
        services: Vec::new(),
        capabilities: PackageCapabilities {
            has_cli: true,
            cli_commands: vec!["chunk".to_string()],
            ..PackageCapabilities::default()
        },
    }
}

fn struck(app: &AppItem, dirs: &HashSet<String>) -> bool {
    app_should_be_struck(app, app_is_on_path(app, dirs))
}

fn binary_struck(app: &AppItem, binary: &BinaryInfo, dirs: &HashSet<String>) -> bool {
    binary_should_be_struck(app, binary, binary_is_on_path(binary, dirs))
}

#[test]
fn dependency_tree_indent_uses_four_spaces_per_level() {
    assert_eq!(dependency_tree_indent(0), "");
    assert_eq!(dependency_tree_indent(1), "    ");
    assert_eq!(dependency_tree_indent(3), "            ");
}

#[test]
fn one_to_one_dependency_roots_use_one_executable_label() {
    let app = chunk();
    assert_eq!(dependency_root_display_text(&app), "⚡ [SCU] chunk (cli) — /home/lewis/.local/bin/chunk");

    let path_directories = HashSet::from(["/home/lewis/.local/bin".to_string()]);
    assert!(binary_is_on_path(&app.binaries[0], &path_directories));
    assert!(app_is_on_path(&app, &path_directories));

    let mut off_path = app.clone();
    off_path.binaries[0].dir = "/opt/chunk".to_string();
    off_path.binaries[0].path = "/opt/chunk/chunk".to_string();
    assert!(!binary_is_on_path(&off_path.binaries[0], &path_directories));
    assert!(!app_is_on_path(&off_path, &path_directories));
    assert!(struck(&off_path, &path_directories));
    assert!(binary_struck(&off_path, &off_path.binaries[0], &path_directories));

    let mut source_service = off_path.clone();
    source_service.state = ProgramState { cloned: true, ..ProgramState::default() };
    source_service.capabilities = PackageCapabilities { has_service: true, ..PackageCapabilities::default() };
    assert!(struck(&source_service, &path_directories));
    assert!(binary_struck(&source_service, &source_service.binaries[0], &path_directories));
    source_service.binaries[0].dir = "/home/lewis/.local/bin".to_string();
    source_service.binaries[0].path = "/home/lewis/.local/bin/chunk".to_string();
    assert!(!struck(&source_service, &path_directories));
    assert!(!binary_struck(&source_service, &source_service.binaries[0], &path_directories));

    let mut library = off_path.clone();
    library.capabilities = PackageCapabilities { has_library: true, ..PackageCapabilities::default() };
    library.binaries[0].dir = "/usr/lib".to_string();
    library.binaries[0].path = "/usr/lib/libchunk.so".to_string();
    assert!(!struck(&library, &path_directories));
    assert!(!binary_struck(&library, &library.binaries[0], &path_directories));

    let mut unclassified_binary = app.clone();
    unclassified_binary.capabilities = PackageCapabilities::default();
    unclassified_binary.binaries[0].dir = "/home/lewis/tasks".to_string();
    unclassified_binary.binaries[0].path = "/home/lewis/tasks/chunk".to_string();
    assert!(struck(&unclassified_binary, &path_directories));

    library.state.broken = true;
    assert!(struck(&library, &path_directories));
}

fn suite_binary(name: &str) -> BinaryInfo {
    BinaryInfo {
        name: name.to_string(),
        dir: "/usr/bin".to_string(),
        path: format!("/usr/bin/{name}"),
        is_symlink: false,
        target: String::new(),
        version: "v7.1-1".to_string(),
        _is_pacman_owned: true,
        _owning_pkg: "btrfs-progs".to_string(),
    }
}

fn btrfs_progs() -> AppItem {
    AppItem {
        name: "btrfs-progs".to_string(),
        version: "7.1-1".to_string(),
        origin: InstallOrigin::Pacman,
        install_role: InstallRole::Explicit,
        state: ProgramState::default(),
        size: String::new(),
        install_date: String::new(),
        desc: String::new(),
        url: String::new(),
        licenses: String::new(),
        _owning_pkg: "btrfs-progs".to_string(),
        representative_path: "/usr/bin".to_string(),
        binaries: vec![suite_binary("btrfs"), suite_binary("btrfsck")],
        required_by: Vec::new(),
        depends_on: Vec::new(),
        desktop_entries: Vec::new(),
        services: Vec::new(),
        capabilities: PackageCapabilities {
            has_cli: true,
            has_library: true,
            has_service: true,
            ..PackageCapabilities::default()
        },
    }
}

#[test]
fn multi_tool_cli_packages_use_a_suite_label_in_relationship_views() {
    let suite = btrfs_progs();
    assert!(suite.is_suite());
    assert_eq!(app_display_text(&suite), "[PEM] btrfs-progs (7.1-1) (suite)");
    assert_eq!(dependency_root_display_text(&suite), "📦 [PEM] btrfs-progs (7.1-1) (suite) — /usr/bin");
    assert_eq!(
        graph_package_text(&suite),
        ("[PEM] btrfs-progs (7.1-1) (suite)".to_string(), "/usr/bin".to_string())
    );
}

#[test]
fn dependency_columns_account_for_an_optional_provided_tools_layer() {
    assert_eq!(dependency_column_title(1, false), "DIRECT DEPENDENCIES");
    assert_eq!(dependency_column_title(2, false), "TRANSITIVE DEPENDENCY LEVEL 1");
    assert_eq!(dependency_column_title(1, true), "PROVIDED TOOLS");
    assert_eq!(dependency_column_title(2, true), "DIRECT DEPENDENCIES");
    assert_eq!(dependency_column_title(4, true), "TRANSITIVE DEPENDENCY LEVEL 2");
}

#[test]
fn dependency_nodes_summarize_sharing_without_package_names() {
    assert_eq!(dependency_sharing_status(1), "Exclusive");
    assert_eq!(dependency_sharing_status(22), "Shared by 22 apps");
}

#[test]
fn used_by_columns_use_direct_then_zero_based_transitive_labels() {
    assert_eq!(dependent_column_title(1), "DIRECT DEPENDENTS");
    assert_eq!(dependent_column_title(2), "TRANSITIVE DEPENDENT LEVEL 1");
    assert_eq!(dependent_column_title(4), "TRANSITIVE DEPENDENT LEVEL 3");
}

#[test]
fn used_by_nodes_summarize_reverse_dependency_state() {
    assert_eq!(used_by_package_status(true, 3), "Explicitly installed root");
    assert_eq!(used_by_package_status(false, 0), "Orphaned dependency");
    assert_eq!(used_by_package_status(false, 1), "Required by 1 installed package");
    assert_eq!(used_by_package_status(false, 22), "Required by 22 installed packages");
}

fn package(name: &str, role: InstallRole, required_by: &[&str], depends_on: &[&str]) -> AppItem {
    AppItem {
        name: name.to_string(),
        version: String::new(),
        origin: InstallOrigin::Pacman,
        install_role: role,
        state: ProgramState::default(),
        size: String::new(),
        install_date: String::new(),
        desc: String::new(),
        url: String::new(),
        licenses: String::new(),
        _owning_pkg: name.to_string(),
        representative_path: String::new(),
        binaries: Vec::new(),
        required_by: required_by.iter().map(|p| p.to_string()).collect(),
        depends_on: depends_on.iter().map(|p| p.to_string()).collect(),
        desktop_entries: Vec::new(),
        services: Vec::new(),
        capabilities: PackageCapabilities::default(),
    }
}

#[test]
fn graph_nodes_report_selection_sharing_and_users() {
    let apps = vec![
        package("library", InstallRole::Dependency, &["application", "helper"], &[]),
        package("application", InstallRole::Explicit, &[], &["library"]),
        package("helper", InstallRole::Dependency, &["application"], &["library"]),
    ];
    let reverse = build_reverse_dependency_graph(&apps, 0, 20);
    assert_eq!(graph_node_status(&apps, &reverse, 0, 0, false), "Selected package · 2 direct dependents");
    let application = reverse.nodes.iter().position(|n| n.name == "application").unwrap();
    let helper = reverse.nodes.iter().position(|n| n.name == "helper").unwrap();
    assert_eq!(graph_node_status(&apps, &reverse, application, 0, false), "Explicitly installed root");
    assert_eq!(graph_node_status(&apps, &reverse, helper, 0, false), "Required by 1 installed package");

    let forward = build_forward_dependency_graph(&apps, &Vec::new(), 1, 20);
    assert_eq!(graph_node_status(&apps, &forward, 0, 1, true), "Selected package · 1 direct dependencies");
    assert_eq!(graph_node_status(&apps, &forward, 1, 1, true), "Shared by 2 apps");

    let lonely = vec![package("lonely", InstallRole::Dependency, &[], &[])];
    let graph = build_reverse_dependency_graph(&lonely, 0, 20);
    assert_eq!(graph_node_status(&lonely, &graph, 0, 0, false), "Selected package · no installed users");
    let root = vec![package("root", InstallRole::Explicit, &[], &[])];
    let graph = build_reverse_dependency_graph(&root, 0, 20);
    assert_eq!(graph_node_status(&root, &graph, 0, 0, false), "Selected package · explicit root");
    assert_eq!(graph_node_text(&root, &graph, 0), ("[PEM] root (data)".to_string(), "path unavailable".to_string()));
}

#[test]
fn provided_tools_name_their_package() {
    let mut suite = btrfs_progs();
    suite.depends_on = vec!["glibc".to_string()];
    let apps = vec![suite, package("glibc", InstallRole::Dependency, &["btrfs-progs"], &[])];
    let graph = build_forward_dependency_graph(&apps, &Vec::new(), 0, 20);
    assert_eq!(graph_node_status(&apps, &graph, 0, 0, true), "Selected package · 2 provided tools · 1 direct dependencies");
    let tool = graph.nodes.iter().position(|n| n.name == "btrfs").unwrap();
    assert_eq!(graph_node_status(&apps, &graph, tool, 0, true), "Provided by btrfs-progs");
    assert_eq!(graph_node_text(&apps, &graph, tool).1, "/usr/bin/btrfs");
}

fn with_launcher(mut app: AppItem) -> AppItem {
    app.desktop_entries.push(DesktopEntry {
        file_path: "/usr/share/applications/tool.desktop".to_string(),
        name: "Tool".to_string(),
        exec_line: "tool".to_string(),
        icon: String::new(),
        comment: String::new(),
        is_visible: true,
        runs_in_terminal: false,
    });
    app
}

#[test]
fn filters_hide_switched_off_kinds_and_the_other_view() {
    let mut filters = FilterSettings::new();
    let package_app = package("coreutils", InstallRole::Dependency, &[], &[]);
    assert!(filters.filter_app(&package_app, true));
    filters.chk_deps = false;
    assert!(!filters.filter_app(&package_app, true));
    filters.chk_deps = true;
    filters.chk_pacman = false;
    assert!(!filters.filter_app(&package_app, true));
    assert!(!filters.are_all_filters_on());
    filters.toggle_all_filters();
    assert!(filters.are_all_filters_on());
    filters.toggle_all_filters();
    assert!(!filters.chk_pacman && !filters.chk_deps && !filters.chk_opt);
    filters.toggle_all_filters();

    let mut broken = chunk();
    broken.state = ProgramState { broken: true, ..ProgramState::default() };
    assert!(!filters.filter_app(&broken, true));
    filters.show_uninstalled = true;
    assert!(filters.filter_app(&broken, true));
    filters.chk_brk = false;
    assert!(!filters.filter_app(&broken, true));

    let gui = with_launcher(chunk());
    let mut shown = FilterSettings::new();
    assert!(shown.filter_app(&gui, true));
    shown.chk_scr = false;
    assert!(!shown.filter_app(&gui, true));
    let _ = ServiceInfo {
        name: String::new(),
        file_path: String::new(),
        command: String::new(),
        scope: String::new(),
        kind: ServiceKind::Daemon,
        activators: Vec::new(),
        enabled: false,
        running: None,
        broken: false,
    };
}
