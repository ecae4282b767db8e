use progs::models::{AppItem, BinaryInfo, InstallOrigin, InstallRole, ProgramState, ServiceKind};
use progs::packages::{finish_scan, is_sys_package, package_apps, parse_pacman_ql, snapshot_from_outputs, PacmanSnapshot};
use progs::pacman::PackageMetadata;
use progs::records::assign_representative_path;
use progs::repo::inspect_git_repo;
use progs::services::{
    activation_entry, add_systemd_activator, broken_unit_description, dbus_activator, dbus_service,
    is_enablement_directory, parse_runtime_units, push_service_once, scope_label, unit_running, unit_service,
};
use progs::table::{upsert, ProgramEntry, StandaloneRecord};

fn strings(items: &[&str]) -> Vec<String> {
    items.iter().map(|item| item.to_string()).collect()
}

fn pair(a: &str, b: &str) -> (String, String) {
    (a.to_string(), b.to_string())
}

fn find<'a>(apps: &'a [AppItem], name: &str) -> &'a AppItem {
    apps.iter().find(|app| app.name == name).unwrap()
}

#[test]
fn explicit_packages_retain_reverse_dependency_edges() {
    let snapshot = PacmanSnapshot {
        explicit: vec![pair("root-tool", "1.0")],
        dependencies: vec![pair("coreutils", "9.11"), pair("orphan-lib", "1.0")],
        orphan_packages: strings(&["orphan-lib"]),
        aur_packages: Vec::new(),
        metadata: Vec::new(),
        provides: Vec::new(),
        reverse_dependencies: vec![("root-tool".to_string(), strings(&["another-root"]))],
        file_owners: Vec::new(),
    };

    let apps = package_apps(&snapshot);
    assert_eq!(find(&apps, "root-tool").required_by, strings(&["another-root"]));
    assert_eq!(find(&apps, "root-tool").display_badge(), "PEM");
    assert_eq!(find(&apps, "root-tool").install_role, InstallRole::Explicit);
    assert_eq!(find(&apps, "coreutils").display_badge(), "PDM");
    assert_eq!(find(&apps, "coreutils").install_role, InstallRole::Dependency);
    assert_eq!(find(&apps, "orphan-lib").display_badge(), "POM");
    assert!(find(&apps, "orphan-lib").state.orphan);
}

#[test]
fn package_records_take_their_metadata_and_keep_one_record_per_name() {
    let snapshot = snapshot_from_outputs(
        "bash 5.2-1\nyay 12.0-1",
        "glibc 2.41-1\nbash 5.3-1",
        "",
        "yay 12.0-1",
        "Name : glibc\nInstalled Size : 48 MiB\nRequired By : bash bash yay\n\nName : yay\nDepends On : pacman>=6 git",
        "glibc /usr/lib/libc.so.6",
    );
    let apps = package_apps(&snapshot);
    assert_eq!(apps.len(), 3);
    let names: Vec<&str> = apps.iter().map(|app| app.name.as_str()).collect();
    assert_eq!(names, ["bash", "yay", "glibc"]);
    let bash = find(&apps, "bash");
    assert_eq!(bash.version, "5.3-1");
    assert_eq!(bash.install_role, InstallRole::Dependency);
    assert_eq!(bash.size, "N/A");
    let glibc = find(&apps, "glibc");
    assert_eq!(glibc.size, "48 MiB");
    assert_eq!(glibc.install_date, "N/A");
    assert_eq!(glibc.required_by, strings(&["bash", "yay"]));
    let yay = find(&apps, "yay");
    assert_eq!(yay.origin, InstallOrigin::Aur);
    assert_eq!(yay.depends_on, strings(&["pacman", "git"]));
    assert_eq!(snapshot.file_owners, vec![pair("/usr/lib/libc.so.6", "glibc")]);
}

#[test]
fn scan_results_are_sorted_and_counted() {
    let snapshot = snapshot_from_outputs("Zsh 5.9-1\nawk 1.0-1", "Bash 5.3-1", "", "awk 1.0-1", "", "");
    let apps = package_apps(&snapshot);
    let result = finish_scan(apps, vec![pair("sh", "bash")], 7, 2);
    let names: Vec<&str> = result.apps.iter().map(|app| app.name.as_str()).collect();
    assert_eq!(names, ["awk", "Bash", "Zsh"]);
    assert_eq!(result._stats, (2, 1, 7, 2, 1));
    assert_eq!(result.provides_map, vec![pair("sh", "bash")]);
    for window in result.apps.windows(2) {
        assert!(window[0].name.to_lowercase() <= window[1].name.to_lowercase());
    }
}

#[test]
fn system_packages_are_recognized_by_name_group_and_family() {
    assert!(is_sys_package("coreutils", "", ""));
    assert!(is_sys_package("anything", "Base-Devel other", ""));
    assert!(is_sys_package("Linux-Zen", "", ""));
    assert!(is_sys_package("mesa-utils", "", ""));
    assert!(!is_sys_package("firefox", "", "a browser"));
    assert!(!is_sys_package("Coreutils-extra", "", ""));
}

#[test]
fn file_listings_map_each_path_to_its_owner() {
    assert_eq!(
        parse_pacman_ql("bash /usr/bin/bash\nbash /usr/share/bash/\n/"),
        vec![pair("/usr/bin/bash", "bash"), pair("/usr/share/bash", "bash")]
    );
}

fn tool_app() -> AppItem {
    AppItem {
        name: "tool".to_string(),
        version: String::new(),
        origin: InstallOrigin::Local,
        install_role: InstallRole::Standalone,
        state: ProgramState::default(),
        size: String::new(),
        install_date: String::new(),
        desc: String::new(),
        url: String::new(),
        licenses: String::new(),
        _owning_pkg: String::new(),
        representative_path: String::new(),
        binaries: Vec::new(),
        required_by: Vec::new(),
        depends_on: Vec::new(),
        desktop_entries: Vec::new(),
        services: Vec::new(),
        capabilities: Default::default(),
    }
}

#[test]
fn units_become_services_once() {
    let unit = "[Unit]\nDescription=Worker\n[Service]\nType=oneshot\nExecStart=/usr/bin/worker --once\n";
    let service = unit_service("worker.service", "/etc/systemd/system/worker.service", unit, scope_label(false), Vec::new(), true, Some(false), false)
        .unwrap();
    assert_eq!(service.command, "/usr/bin/worker --once");
    assert_eq!(service.kind, ServiceKind::Job);
    assert_eq!(service.scope, "System");
    assert!(unit_service("x.service", "/x", "[Service]\nType=simple\n", "User", Vec::new(), false, None, false).is_none());

    let mut app = tool_app();
    push_service_once(&mut app, service.clone());
    push_service_once(&mut app, service);
    assert_eq!(app.services.len(), 1);

    let mut apps = vec![app];
    let activator = dbus_activator("org.example.Worker.service");
    assert_eq!(activator, "D-Bus: org.example.Worker.service");
    add_systemd_activator(&mut apps, &"worker.service".to_string(), &activator);
    add_systemd_activator(&mut apps, &"worker.service".to_string(), &activator);
    add_systemd_activator(&mut apps, &"other.service".to_string(), &"D-Bus: other".to_string());
    assert_eq!(apps[0].services[0].activators, [activator.clone()]);

    let bus = dbus_service("org.example.Worker.service", "/usr/share/dbus-1/services/org.example.Worker.service", "/usr/bin/worker", activator, false);
    assert_eq!(bus.scope, "D-Bus");
    assert!(bus.enabled);
    assert_eq!(broken_unit_description("/etc/x.service"), "Broken systemd unit link at /etc/x.service");
}

#[test]
fn timers_sockets_and_paths_activate_their_service() {
    assert_eq!(
        activation_entry("/usr/lib/systemd/system/backup.timer"),
        Some(("backup.service".to_string(), "systemd timer: backup.timer".to_string()))
    );
    assert_eq!(activation_entry("/usr/lib/systemd/system/backup.service"), None);
    assert!(is_enablement_directory("multi-user.target.wants"));
    assert!(!is_enablement_directory("system"));
}

#[test]
fn unit_listings_report_which_units_run() {
    let units = parse_runtime_units("a.service loaded active running A\nb.service loaded inactive dead B\nshort line\n");
    assert_eq!(units, vec![("a.service".to_string(), true), ("b.service".to_string(), false)]);
    assert_eq!(unit_running(&units, &"a.service".to_string()), Some(true));
    assert_eq!(unit_running(&units, &"c.service".to_string()), None);
}

fn binary(path: &str) -> BinaryInfo {
    let (dir, name) = path.rsplit_once('/').unwrap();
    BinaryInfo {
        name: name.to_string(),
        dir: dir.to_string(),
        path: path.to_string(),
        is_symlink: false,
        target: String::new(),
        version: String::new(),
        _is_pacman_owned: false,
        _owning_pkg: String::new(),
    }
}

fn record(name: &str, origin: InstallOrigin, state: ProgramState, path: Option<&str>) -> StandaloneRecord {
    StandaloneRecord {
        name: name.to_string(),
        version: String::new(),
        origin,
        state,
        description: "Local custom tool".to_string(),
        binary: path.map(binary),
    }
}

#[test]
fn records_merge_by_executable_or_file_under_their_key() {
    let mut table: Vec<ProgramEntry> = Vec::new();
    let binary_state = ProgramState { binary: true, ..ProgramState::default() };
    let key = upsert(&mut table, record("tool", InstallOrigin::Local, binary_state, Some("/home/u/.local/bin/tool")), Some("/home/u/.cargo/bin/tool".to_string()), true);
    assert_eq!(key, "LOC:BIU:tool");
    assert_eq!(table.len(), 1);
    assert_eq!(table[0].app.licenses, "N/A");
    assert_eq!(table[0].app.size, "Local installation");

    let mut cargo = record("tool", InstallOrigin::Cargo, ProgramState::default(), Some("/home/u/.cargo/bin/tool"));
    cargo.version = "1.0.0".to_string();
    cargo.description = "A tool".to_string();
    let merged = upsert(&mut table, cargo, Some("/home/u/.cargo/bin/tool".to_string()), true);
    assert_eq!(merged, "LOC:BIU:tool");
    assert_eq!(table.len(), 1);
    assert_eq!(table[0].app.origin, InstallOrigin::Cargo);
    assert_eq!(table[0].app.install_role, InstallRole::ToolchainManaged);
    assert_eq!(table[0].app.version, "1.0.0");
    assert_eq!(table[0].app.desc, "A tool");
    assert_eq!(table[0].app.binaries.len(), 1);

    let again = upsert(&mut table, record("tool", InstallOrigin::Local, binary_state, Some("/home/u/.cargo/bin/tool")), Some("/home/u/.cargo/bin/tool".to_string()), false);
    assert_eq!(again, "LOC:BIU:tool");
    assert_eq!(table.len(), 1);
    assert_eq!(table[0].app.binaries.len(), 1);

    let other = upsert(&mut table, record("other", InstallOrigin::Local, ProgramState::default(), None), None, true);
    assert_eq!(other, "LOC::other");
    assert_eq!(table.len(), 2);
    assert!(table[1].app.binaries.is_empty());
}

#[test]
fn representative_paths_fall_back_to_the_package_database_then_services() {
    let mut app = tool_app();
    assign_representative_path(&mut app, None, Some("/var/lib/pacman/local/tool-1.0".to_string()));
    assert_eq!(app.representative_path, "/var/lib/pacman/local/tool-1.0");
    assign_representative_path(&mut app, Some("/usr/bin/tool".to_string()), None);
    assert_eq!(app.representative_path, "/usr/bin/tool");
    let mut fresh = tool_app();
    assign_representative_path(&mut fresh, None, None);
    assert_eq!(fresh.representative_path, "");
}

#[test]
fn repositories_with_local_changes_are_forks() {
    let (code, detail) = inspect_git_repo(" M src/main.rs", "origin\thttps://example.org/tool.git (fetch)\norigin\thttps://example.org/tool.git (push)", "0");
    assert_eq!(code, "FRK");
    assert_eq!(detail, "Git Fork Repo (1 dirty files)");
    let (code, detail) = inspect_git_repo("", "origin\thttps://example.org/tool.git (fetch)", "0");
    assert_eq!(code, "CLO");
    assert_eq!(detail, "Cloned Upstream Repo (Clean, 1 remote)");
    let _ = PackageMetadata {
        size: String::new(),
        install_date: String::new(),
        description: String::new(),
        url: String::new(),
        licenses: String::new(),
        depends_on: Vec::new(),
    };
}
