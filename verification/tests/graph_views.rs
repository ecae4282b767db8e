use progs::dependency_graph::{build_forward_dependency_graph, build_reverse_dependency_graph};
use progs::models::{AppItem, BinaryInfo, InstallOrigin, InstallRole, PackageCapabilities, ProgramState};
use progs::presentation::{graph_column_title, graph_node_shared, graph_node_struck, graph_truncation_notice, lit_nodes};

fn package(name: &str, role: InstallRole, depends_on: &[&str], required_by: &[&str]) -> AppItem {
    AppItem {
        name: name.to_string(),
        version: String::new(),
        origin: InstallOrigin::Pacman,
        install_role: role,
        state: ProgramState::default(),
        size: String::new(),
        install_date: String::new(),
        desc: String::new(),
        url: String::new(),
        licenses: String::new(),
        _owning_pkg: name.to_string(),
        representative_path: String::new(),
        binaries: Vec::new(),
        required_by: required_by.iter().map(|name| name.to_string()).collect(),
        depends_on: depends_on.iter().map(|name| name.to_string()).collect(),
        desktop_entries: Vec::new(),
        services: Vec::new(),
        capabilities: PackageCapabilities::default(),
    }
}

fn tool(name: &str) -> BinaryInfo {
    BinaryInfo {
        name: name.to_string(),
        dir: "/usr/bin".to_string(),
        path: format!("/usr/bin/{name}"),
        is_symlink: false,
        target: String::new(),
        version: String::new(),
        _is_pacman_owned: true,
        _owning_pkg: String::new(),
    }
}

fn apps() -> Vec<AppItem> {
    let mut root = package("suite", InstallRole::Explicit, &["lib", "shared"], &[]);
    root.binaries = vec![tool("b-tool"), tool("a-tool")];
    root.capabilities.has_cli = true;
    vec![
        root,
        package("lib", InstallRole::Dependency, &["shared"], &["suite"]),
        package("shared", InstallRole::Dependency, &[], &["suite", "lib", "other"]),
    ]
}

#[test]
fn graph_columns_are_titled_by_their_place() {
    let apps = apps();
    let graph = build_forward_dependency_graph(&apps, &Vec::new(), 0, 50);
    let layers = graph.ordered_layers();
    assert_eq!(graph_column_title(&graph, &layers[0], 0, layers.len(), true, true), "SELECTED PACKAGE");
    assert_eq!(graph_column_title(&graph, &layers[1], 1, layers.len(), true, true), "PROVIDED TOOLS");
    let last = layers.len() - 1;
    let title = graph_column_title(&graph, &layers[last], last, layers.len(), true, true);
    assert_eq!(title, format!("TERMINAL DEPENDENCIES · {}", layers[last].len()));

    let reverse_apps = vec![
        package("lib", InstallRole::Dependency, &[], &["app"]),
        package("app", InstallRole::Explicit, &["lib"], &[]),
    ];
    let reverse = build_reverse_dependency_graph(&reverse_apps, 0, 50);
    let reverse_layers = reverse.ordered_layers();
    assert_eq!(reverse_layers.len(), 2);
    assert_eq!(graph_column_title(&reverse, &reverse_layers[1], 1, 2, false, false), "TERMINAL INSTALL ROOTS · 1");
    assert_eq!(graph_column_title(&reverse, &reverse_layers[1], 1, 3, false, false), "DIRECT DEPENDENTS");
}

#[test]
fn graph_nodes_share_strike_and_light_up() {
    let apps = apps();
    let graph = build_forward_dependency_graph(&apps, &Vec::new(), 0, 50);
    let index_of = |name: &str| graph.nodes.iter().position(|node| node.name == name).unwrap();
    assert!(!graph_node_shared(&apps, &graph, 0));
    assert!(graph_node_shared(&apps, &graph, index_of("a-tool")));
    assert!(graph_node_shared(&apps, &graph, index_of("shared")));
    assert!(!graph_node_shared(&apps, &graph, index_of("lib")));

    assert!(graph_node_struck(&apps, &graph, index_of("a-tool"), false, false));
    assert!(!graph_node_struck(&apps, &graph, index_of("a-tool"), false, true));
    assert!(!graph_node_struck(&apps, &graph, index_of("lib"), false, false));

    let lit = lit_nodes(&graph, index_of("lib"));
    assert!(lit[0]);
    assert!(lit[index_of("lib")]);
    assert!(lit[index_of("shared")]);
    assert!(!lit[index_of("a-tool")]);
}

#[test]
fn truncated_graphs_say_what_is_hidden() {
    assert_eq!(
        graph_truncation_notice(true, 2000),
        "Graph limited to 2000 nodes; additional dependencies are hidden. Use the tree for a focused branch view."
    );
    assert_eq!(
        graph_truncation_notice(false, 5),
        "Graph limited to 5 nodes; additional users are hidden. Use the tree for a focused branch view."
    );
}
