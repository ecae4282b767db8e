use progs::models::{AppItem, InstallOrigin, InstallRole, ProgramState};
use progs::tree::{dependency_tree_node, find_app, reverse_root_note, reverse_root_text, reverse_tree_node, sorted_users};

fn strings(items: &[&str]) -> Vec<String> {
    items.iter().map(|item| item.to_string()).collect()
}

fn package(name: &str, role: InstallRole, depends_on: &[&str], required_by: &[&str]) -> AppItem {
    AppItem {
        name: name.to_string(),
        version: String::new(),
        origin: InstallOrigin::Pacman,
        install_role: role,
        state: ProgramState::default(),
        size: String::new(),
        install_date: String::new(),
        desc: String::new(),
        url: String::new(),
        licenses: String::new(),
        _owning_pkg: String::new(),
        representative_path: String::new(),
        binaries: Vec::new(),
        required_by: strings(required_by),
        depends_on: strings(depends_on),
        desktop_entries: Vec::new(),
        services: Vec::new(),
        capabilities: Default::default(),
    }
}

fn apps() -> Vec<AppItem> {
    vec![
        package("tool", InstallRole::Explicit, &["sh", "libfoo"], &[]),
        package("bash", InstallRole::Dependency, &["glibc"], &["tool", "zed", "alpha", "mid", "other"]),
        package("libfoo", InstallRole::Dependency, &["tool"], &["tool"]),
        package("glibc", InstallRole::Dependency, &[], &["bash"]),
    ]
}

#[test]
fn dependency_nodes_name_their_provider_and_sharing() {
    let apps = apps();
    let provides = vec![("sh".to_string(), "bash".to_string())];
    let path = strings(&["tool"]);
    let node = dependency_tree_node(&apps, &provides, &"sh".to_string(), &"tool".to_string(), 0, 3, &path).unwrap();
    assert_eq!(node.package_name, "bash");
    assert_eq!(node.package_index, Some(1));
    assert!(node.title.contains("sh [via bash]"));
    assert_eq!(node.location, "path unavailable");
    assert_eq!(node.status, "Shared by 5 apps (alpha, mid, other)");
    assert!(node.shared);
    assert_eq!(node.children, strings(&["glibc"]));

    let exclusive = dependency_tree_node(&apps, &provides, &"libfoo".to_string(), &"tool".to_string(), 0, 3, &path).unwrap();
    assert_eq!(exclusive.status, "Exclusive (Will be uninstalled with -Rns)");
    assert!(!exclusive.shared);
    assert_eq!(exclusive.children, strings(&["tool"]));
    let cycle = dependency_tree_node(&apps, &provides, &"tool".to_string(), &"libfoo".to_string(), 1, 3, &strings(&["tool", "libfoo"])).unwrap();
    assert!(cycle.children.is_empty(), "tool is already on the path");

    let missing = dependency_tree_node(&apps, &provides, &"gone".to_string(), &"tool".to_string(), 2, 3, &path).unwrap();
    assert_eq!(missing.package_index, None);
    assert_eq!(missing.title, "gone");
    assert_eq!(missing.location, "path unavailable");
    assert!(missing.children.is_empty());

    let last_level = dependency_tree_node(&apps, &provides, &"bash".to_string(), &"tool".to_string(), 2, 3, &path).unwrap();
    assert!(last_level.children.is_empty());
    assert!(dependency_tree_node(&apps, &provides, &"bash".to_string(), &"tool".to_string(), 3, 3, &path).is_none());
}

#[test]
fn reverse_nodes_report_roots_orphans_and_cycles() {
    let apps = apps();
    let root = reverse_tree_node(&apps, &"tool".to_string(), &strings(&["bash"]));
    assert_eq!(root.status, "Explicitly installed root");
    assert!(root.children.is_empty());

    let shared = reverse_tree_node(&apps, &"bash".to_string(), &strings(&["glibc"]));
    assert_eq!(shared.status, "Required by 5 installed packages");
    assert_eq!(shared.children, strings(&["alpha", "mid", "other", "tool", "zed"]));
    assert!(shared.shared);

    let cycle = reverse_tree_node(&apps, &"bash".to_string(), &strings(&["glibc", "bash"]));
    assert_eq!(cycle.status, "Cycle already shown on this path");
    assert!(cycle.children.is_empty());

    let unknown = reverse_tree_node(&apps, &"alpha".to_string(), &Vec::new());
    assert_eq!(unknown.status, "Installed package metadata unavailable");
    assert_eq!(unknown.location, "path unavailable");

    let mut orphan_apps = apps.clone();
    orphan_apps.push(package("orphan", InstallRole::Dependency, &[], &[]));
    let orphan = reverse_tree_node(&orphan_apps, &"orphan".to_string(), &Vec::new());
    assert_eq!(orphan.status, "Orphaned dependency");
}

#[test]
fn reverse_roots_mark_explicit_packages() {
    let apps = apps();
    assert!(reverse_root_text(&apps[0]).starts_with("📦 "));
    assert!(reverse_root_text(&apps[0]).ends_with("  •  EXPLICIT ROOT"));
    assert!(!reverse_root_text(&apps[1]).ends_with("EXPLICIT ROOT"));
    assert_eq!(reverse_root_note(&apps[0]), "This package is itself an explicitly installed root.");
    assert_eq!(reverse_root_note(&apps[3]), "No installed package requires this dependency; it is orphaned.");
    assert_eq!(sorted_users(&apps[1]), strings(&["alpha", "mid", "other", "tool", "zed"]));
    assert_eq!(find_app(&apps, &"glibc".to_string()), Some(3));
}
