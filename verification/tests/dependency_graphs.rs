use progs::dependency_graph::{build_forward_dependency_graph, build_reverse_dependency_graph, DependencyGraphNodeKind};
use progs::models::{AppItem, BinaryInfo, InstallOrigin, InstallRole, PackageCapabilities, ProgramState};
use std::collections::{HashMap, HashSet};

fn package(name: &str, role: InstallRole, required_by: &[&str]) -> AppItem {
    AppItem {
        name: name.to_string(),
        version: String::new(),
        origin: InstallOrigin::Pacman,
        install_role: role,
        state: ProgramState::default(),
        size: String::new(),
        install_date: String::new(),
        desc: String::new(),
        url: String::new(),
        licenses: String::new(),
        _owning_pkg: name.to_string(),
        representative_path: String::new(),
        binaries: Vec::new(),
        required_by: required_by.iter().map(|package| (*package).to_string()).collect(),
        depends_on: Vec::new(),
        desktop_entries: Vec::new(),
        services: Vec::new(),
        capabilities: PackageCapabilities::default(),
    }
}

fn package_with_dependencies(name: &str, role: InstallRole, depends_on: &[&str]) -> AppItem {
    let mut app = package(name, role, &[]);
    app.depends_on = depends_on.iter().map(|dependency| (*dependency).to_string()).collect();
    app
}

fn add_tools(app: &mut AppItem, tools: &[&str]) {
    app.binaries = tools
        .iter()
        .map(|tool| BinaryInfo {
            name: (*tool).to_string(),
            dir: "/usr/bin".to_string(),
            path: format!("/usr/bin/{tool}"),
            is_symlink: false,
            target: String::new(),
            version: String::new(),
            _is_pacman_owned: true,
            _owning_pkg: app.name.clone(),
        })
        .collect();
}

#[test]
fn merges_shared_users_and_continues_through_explicit_packages() {
    let apps = vec![
        package("library", InstallRole::Dependency, &["left", "right"]),
        package("left", InstallRole::Dependency, &["application"]),
        package("right", InstallRole::Dependency, &["application"]),
        package("application", InstallRole::Explicit, &["meta-package"]),
        package("meta-package", InstallRole::Explicit, &[]),
    ];

    let graph = build_reverse_dependency_graph(&apps, 0, 20);
    let names: Vec<&str> = graph.nodes.iter().map(|node| node.name.as_str()).collect();

    assert_eq!(names, ["library", "left", "right", "application", "meta-package"]);
    assert_eq!(graph.nodes[3].dependency_level, 2);
    assert_eq!(graph.edges, [(0, 1), (0, 2), (1, 3), (2, 3), (3, 4)]);
    assert!(!graph.is_terminal_component(graph.component_by_node[3]));
    assert!(graph.is_terminal_component(graph.component_by_node[4]));
    assert!(!graph.truncated);
}

#[test]
fn retains_cycle_edges_without_repeating_nodes() {
    let apps = vec![
        package("first", InstallRole::Dependency, &["second"]),
        package("second", InstallRole::Dependency, &["first"]),
    ];

    let graph = build_reverse_dependency_graph(&apps, 0, 20);

    assert_eq!(graph.nodes.len(), 2);
    assert_eq!(graph.edges, [(0, 1), (1, 0)]);
    assert_eq!(graph.nodes[0].dependency_level, graph.nodes[1].dependency_level);
    assert_eq!(graph.component_by_node[0], graph.component_by_node[1]);
    assert!(graph.is_cycle_component(graph.component_by_node[0]));
}

#[test]
fn aligns_only_the_explicit_member_of_a_terminal_cycle_as_an_install_root() {
    let apps = vec![
        package("ffmpeg", InstallRole::Dependency, &["firefox-pure"]),
        package("firefox-pure", InstallRole::Explicit, &["cachyos-firefox-settings"]),
        package("cachyos-firefox-settings", InstallRole::Dependency, &["firefox-pure"]),
    ];

    let graph = build_reverse_dependency_graph(&apps, 0, 20);
    let firefox = graph.nodes.iter().position(|node| node.name == "firefox-pure").expect("firefox package is present");
    let settings = graph
        .nodes
        .iter()
        .position(|node| node.name == "cachyos-firefox-settings")
        .expect("settings package is present");
    let component = graph.component_by_node[firefox];
    let layers = graph.ordered_layers();

    assert_eq!(component, graph.component_by_node[settings]);
    assert!(graph.is_cycle_component(component));
    assert!(graph.is_terminal_component(component));
    assert!(graph.component_has_explicit_package(component));
    assert!(graph.is_aligned_terminal(firefox));
    assert!(!graph.is_aligned_terminal(settings));
    assert_eq!(graph.components[component], [firefox, settings]);
    assert_eq!(layers.last().expect("graph has a terminal layer"), &[firefox]);
    assert!(layers[1].contains(&settings));
    assert_eq!(layers.iter().map(Vec::len).sum::<usize>(), graph.nodes.len());
}

#[test]
fn caps_broad_graphs() {
    let apps = vec![
        package("library", InstallRole::Dependency, &["one", "two"]),
        package("one", InstallRole::Explicit, &[]),
        package("two", InstallRole::Explicit, &[]),
    ];

    let graph = build_reverse_dependency_graph(&apps, 0, 2);

    assert_eq!(graph.nodes.len(), 2);
    assert!(!graph.is_terminal_component(graph.component_by_node[0]));
    assert!(graph.nodes[0].has_hidden_successors);
    assert!(graph.truncated);
}

#[test]
fn forward_graph_merges_shared_dependencies_and_resolves_providers() {
    let apps = vec![
        package_with_dependencies("application", InstallRole::Explicit, &["left", "right", "virtual-codec"]),
        package_with_dependencies("left", InstallRole::Dependency, &["shared"]),
        package_with_dependencies("right", InstallRole::Dependency, &["shared"]),
        package_with_dependencies("shared", InstallRole::Dependency, &[]),
        package_with_dependencies("codec-provider", InstallRole::Dependency, &[]),
    ];
    let provides = vec![("virtual-codec".to_string(), "codec-provider".to_string())];

    let graph = build_forward_dependency_graph(&apps, &provides, 0, 20);
    let index_by_name: HashMap<&str, usize> =
        graph.nodes.iter().enumerate().map(|(index, node)| (node.name.as_str(), index)).collect();
    let layers = graph.ordered_layers();
    let terminal_names: HashSet<&str> = layers
        .last()
        .expect("graph has a terminal layer")
        .iter()
        .map(|&node| graph.nodes[node].name.as_str())
        .collect();

    assert_eq!(graph.nodes.len(), 5);
    assert!(!index_by_name.contains_key("virtual-codec"));
    assert!(index_by_name.contains_key("codec-provider"));
    assert!(graph.edges.contains(&(index_by_name["left"], index_by_name["shared"])));
    assert!(graph.edges.contains(&(index_by_name["right"], index_by_name["shared"])));
    assert_eq!(terminal_names, HashSet::from(["shared", "codec-provider"]));
}

#[test]
fn forward_graph_places_provided_tools_before_direct_dependencies() {
    let mut suite = package_with_dependencies("suite", InstallRole::Explicit, &["direct-dependency"]);
    add_tools(&mut suite, &["tool-z", "tool-a"]);
    let apps = vec![
        suite,
        package_with_dependencies("direct-dependency", InstallRole::Dependency, &["transitive-dependency"]),
        package_with_dependencies("transitive-dependency", InstallRole::Dependency, &[]),
    ];

    let graph = build_forward_dependency_graph(&apps, &Vec::new(), 0, 20);
    let layers = graph.ordered_layers();
    let names_in_layer =
        |level: usize| layers[level].iter().map(|&node| graph.nodes[node].name.as_str()).collect::<HashSet<_>>();

    assert_eq!(names_in_layer(0), HashSet::from(["suite"]));
    assert_eq!(names_in_layer(1), HashSet::from(["tool-a", "tool-z"]));
    assert_eq!(names_in_layer(2), HashSet::from(["direct-dependency"]));
    assert_eq!(names_in_layer(3), HashSet::from(["transitive-dependency"]));
    assert!(layers[1]
        .iter()
        .all(|&node| matches!(graph.nodes[node].kind, DependencyGraphNodeKind::ProvidedTool { .. })));
    assert!(layers[1].iter().all(|&tool| graph.edges.contains(&(0, tool))));
    assert!(graph
        .edges
        .iter()
        .all(|&(source, _)| !matches!(graph.nodes[source].kind, DependencyGraphNodeKind::ProvidedTool { .. })));
}

#[test]
fn forward_graph_flattens_a_one_to_one_standalone_tool() {
    let mut standalone = package_with_dependencies("chunk", InstallRole::Standalone, &["direct-dependency"]);
    add_tools(&mut standalone, &["chunk"]);
    let apps = vec![standalone, package_with_dependencies("direct-dependency", InstallRole::Dependency, &[])];

    assert!(apps[0].is_one_to_one_standalone_tool());
    let graph = build_forward_dependency_graph(&apps, &Vec::new(), 0, 20);
    let layers = graph.ordered_layers();

    assert_eq!(graph.nodes.len(), 2);
    assert_eq!(graph.nodes[1].name, "direct-dependency");
    assert_eq!(graph.nodes[1].dependency_level, 1);
    assert_eq!(layers.len(), 2);
    assert!(graph.nodes.iter().all(|node| node.kind == DependencyGraphNodeKind::Package));
}

#[test]
fn reverse_graph_remains_package_only() {
    let mut selected = package("selected", InstallRole::Dependency, &["user"]);
    add_tools(&mut selected, &["provided-tool"]);
    let apps = vec![selected, package("user", InstallRole::Explicit, &[])];

    let graph = build_reverse_dependency_graph(&apps, 0, 20);

    assert_eq!(graph.nodes.iter().map(|node| node.name.as_str()).collect::<Vec<_>>(), ["selected", "user"]);
    assert!(graph.nodes.iter().all(|node| node.kind == DependencyGraphNodeKind::Package));
}

#[test]
fn orders_layers_by_connected_branches_instead_of_alphabetically() {
    let apps = vec![
        package("selected", InstallRole::Dependency, &["left", "right"]),
        package("left", InstallRole::Dependency, &["zeta-root"]),
        package("right", InstallRole::Dependency, &["alpha-root"]),
        package("zeta-root", InstallRole::Explicit, &[]),
        package("alpha-root", InstallRole::Explicit, &[]),
    ];
    let graph = build_reverse_dependency_graph(&apps, 0, 20);
    let layers = graph.ordered_layers();
    let final_layer: Vec<&str> = layers[2].iter().map(|&node| graph.nodes[node].name.as_str()).collect();

    assert_eq!(final_layer, ["zeta-root", "alpha-root"]);
}

#[test]
fn traces_only_paths_that_pass_through_the_hovered_node() {
    let apps = vec![
        package("library", InstallRole::Dependency, &["left", "right"]),
        package("left", InstallRole::Dependency, &["application"]),
        package("right", InstallRole::Dependency, &["application"]),
        package("application", InstallRole::Explicit, &[]),
    ];
    let graph = build_reverse_dependency_graph(&apps, 0, 20);

    let through: HashSet<usize> = graph.path_edges_through(1).into_iter().collect();
    assert_eq!(through, HashSet::from([0, 2]));
}

#[test]
fn ranks_consumers_after_all_packages_they_require() {
    let apps = vec![
        package("selected", InstallRole::Dependency, &["foundation", "plasma-meta"]),
        package("foundation", InstallRole::Dependency, &["workspace"]),
        package("workspace", InstallRole::Dependency, &["plasma-meta"]),
        package("plasma-meta", InstallRole::Explicit, &[]),
    ];
    let graph = build_reverse_dependency_graph(&apps, 0, 20);
    let level_by_name: HashMap<&str, usize> =
        graph.nodes.iter().map(|node| (node.name.as_str(), node.dependency_level)).collect();

    assert_eq!(level_by_name["foundation"], 1);
    assert_eq!(level_by_name["workspace"], 2);
    assert_eq!(level_by_name["plasma-meta"], 3);
    assert!(graph
        .edges
        .iter()
        .all(|&(source, target)| graph.nodes[source].dependency_level < graph.nodes[target].dependency_level));
}

#[test]
fn aligns_shallow_and_deep_endpoints_in_one_final_layer() {
    let apps = vec![
        package("selected", InstallRole::Dependency, &["direct-root", "intermediate"]),
        package("direct-root", InstallRole::Explicit, &[]),
        package("intermediate", InstallRole::Dependency, &["deep-root"]),
        package("deep-root", InstallRole::Explicit, &[]),
    ];
    let graph = build_reverse_dependency_graph(&apps, 0, 20);
    let layers = graph.ordered_layers();
    let terminal_names: HashSet<&str> = layers
        .last()
        .expect("graph has a terminal layer")
        .iter()
        .map(|&node| graph.nodes[node].name.as_str())
        .collect();

    assert_eq!(layers.len(), 3);
    assert_eq!(terminal_names, HashSet::from(["direct-root", "deep-root"]));
    assert!(layers
        .last()
        .expect("graph has a terminal layer")
        .iter()
        .all(|&node| graph.is_terminal_component(graph.component_by_node[node])));
}

#[test]
fn every_layer_partitions_the_nodes_once() {
    let apps = vec![
        package("selected", InstallRole::Dependency, &["a", "b"]),
        package("a", InstallRole::Dependency, &["c"]),
        package("b", InstallRole::Dependency, &["c"]),
        package("c", InstallRole::Explicit, &[]),
    ];
    let graph = build_reverse_dependency_graph(&apps, 0, 20);
    let layers = graph.ordered_layers();
    let mut seen: Vec<usize> = layers.iter().flatten().copied().collect();
    seen.sort_unstable();
    assert_eq!(seen, (0..graph.nodes.len()).collect::<Vec<_>>());
    for (source, target) in &graph.edges {
        assert!(graph.nodes[*source].dependency_level < graph.nodes[*target].dependency_level);
    }
}
