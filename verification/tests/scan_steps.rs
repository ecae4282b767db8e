use progs::executables::{
    candidates_from_matches, executable_entry_step, version_probe_plan, EntryAction, EntryFacts, ExecutableFileKind, ScanCounts, VersionProbe,
};
use progs::models::{AppItem, InstallOrigin, InstallRole, PackageCapabilities, ProgramState};
use progs::paths::{extension, file_stem};
use progs::presentation::shows_in_view;
use progs::services::{dbus_file_action, first_visit, unit_file_action, DbusFileAction, UnitFileAction};

fn facts(is_symlink: bool, target_is_dir: bool, target_exists: bool, listed: bool, kind: Option<ExecutableFileKind>) -> EntryFacts {
    EntryFacts { is_symlink, target_is_dir, target_exists, broken_links_listed: listed, kind }
}

#[test]
fn unit_files_are_visited_once_per_scope() {
    let mut seen: Vec<(bool, String)> = Vec::new();
    let file = "/usr/lib/systemd/system/sshd.service".to_string();
    assert!(first_visit(&mut seen, false, &file));
    assert!(!first_visit(&mut seen, false, &file));
    assert!(first_visit(&mut seen, true, &file));
    assert_eq!(seen.len(), 2);
}

#[test]
fn unit_file_actions_follow_links_visits_and_commands() {
    let content = "[Unit]\nDescription=Demo\n[Service]\nExecStart=/usr/bin/demo --serve\nExecStart=/usr/bin/other\n";
    assert!(matches!(unit_file_action(true, false, None), UnitFileAction::RecordBroken));
    assert!(matches!(unit_file_action(false, false, Some(content)), UnitFileAction::Skip));
    assert!(matches!(unit_file_action(false, true, None), UnitFileAction::Skip));
    assert!(matches!(unit_file_action(false, true, Some("[Service]\nType=oneshot\n")), UnitFileAction::Skip));
    match unit_file_action(false, true, Some(content)) {
        UnitFileAction::Attach(command) => assert_eq!(command, "/usr/bin/demo --serve"),
        _ => panic!("a unit with a command is attached"),
    }
}

#[test]
fn dbus_files_prefer_the_systemd_unit_to_the_program() {
    let both = "[D-BUS Service]\nName=org.demo\nExec=/usr/bin/demo\nSystemdService=demo.service\n";
    match dbus_file_action(both) {
        DbusFileAction::SystemdService(unit) => assert_eq!(unit, "demo.service"),
        _ => panic!("the systemd unit comes first"),
    }
    match dbus_file_action("[D-BUS Service]\nName=org.demo\nExec=/usr/bin/demo --dbus\n") {
        DbusFileAction::Exec(exec) => assert_eq!(exec, "/usr/bin/demo --dbus"),
        _ => panic!("the program is started"),
    }
    assert!(matches!(dbus_file_action("[D-BUS Service]\nName=org.demo\n"), DbusFileAction::Nothing));
    assert!(matches!(dbus_file_action("[Other]\nExec=/usr/bin/demo\n"), DbusFileAction::Nothing));
}

#[test]
fn executable_entries_are_filed_and_counted() {
    let zero = ScanCounts { binaries: 0, symlinks: 0 };
    let (counts, action) = executable_entry_step(zero, facts(false, false, true, false, Some(ExecutableFileKind::Script)));
    assert_eq!(counts, ScanCounts { binaries: 1, symlinks: 0 });
    assert_eq!(action, EntryAction::File { broken: false, is_script: true });

    let (counts, action) = executable_entry_step(counts, facts(true, false, true, false, Some(ExecutableFileKind::NativeBinary)));
    assert_eq!(counts, ScanCounts { binaries: 2, symlinks: 1 });
    assert_eq!(action, EntryAction::File { broken: false, is_script: false });

    let (after, action) = executable_entry_step(counts, facts(true, true, true, true, None));
    assert_eq!((after, action), (counts, EntryAction::Skip));
    let (after, action) = executable_entry_step(counts, facts(false, false, true, false, None));
    assert_eq!((after, action), (counts, EntryAction::Skip));
    let (after, action) = executable_entry_step(counts, facts(true, false, false, false, None));
    assert_eq!((after, action), (counts, EntryAction::Skip));

    let (counts, action) = executable_entry_step(counts, facts(true, false, false, true, None));
    assert_eq!(counts, ScanCounts { binaries: 3, symlinks: 2 });
    assert_eq!(action, EntryAction::File { broken: true, is_script: false });
}

#[test]
fn version_probes_come_in_order_and_stop_when_found() {
    let own = |last, found| version_probe_plan(last, found, false, false, false, true);
    assert_eq!(own(VersionProbe::Start, false), VersionProbe::ProjectFiles);
    assert_eq!(own(VersionProbe::ProjectFiles, false), VersionProbe::EmbeddedStrings);
    assert_eq!(own(VersionProbe::EmbeddedStrings, false), VersionProbe::FullStrings);
    assert_eq!(own(VersionProbe::FullStrings, false), VersionProbe::Done);
    assert_eq!(own(VersionProbe::ProjectFiles, true), VersionProbe::Done);
    assert_eq!(version_probe_plan(VersionProbe::EmbeddedStrings, false, false, false, false, false), VersionProbe::Done);
    assert_eq!(version_probe_plan(VersionProbe::ProjectFiles, false, false, true, false, true), VersionProbe::Done);
    assert_eq!(version_probe_plan(VersionProbe::Start, false, false, true, false, true), VersionProbe::ProjectFiles);
    assert_eq!(version_probe_plan(VersionProbe::Start, false, false, false, true, true), VersionProbe::Done);
    assert_eq!(version_probe_plan(VersionProbe::Start, false, true, false, false, true), VersionProbe::Done);
}

#[test]
fn different_flags_give_different_tag_summaries() {
    let plain = ProgramState::default();
    let dev = ProgramState { dev: true, ..ProgramState::default() };
    let fork = ProgramState { fork: true, ..ProgramState::default() };
    let both = ProgramState { dev: true, fork: true, ..ProgramState::default() };
    let summaries = [plain.tag_summary(), dev.tag_summary(), fork.tag_summary(), both.tag_summary()];
    for i in 0..summaries.len() {
        for j in 0..summaries.len() {
            assert_eq!(summaries[i] == summaries[j], i == j);
        }
    }
    assert_eq!(plain.tag_summary(), "");

    let none = PackageCapabilities::default();
    let gui = PackageCapabilities { has_gui: true, ..PackageCapabilities::default() };
    let cli = PackageCapabilities { has_cli: true, ..PackageCapabilities::default() };
    assert_eq!(none.tag_summary(), "DATA");
    assert_ne!(gui.tag_summary(), cli.tag_summary());
    assert_ne!(gui.tag_summary(), "DATA");
}

#[test]
fn version_candidates_drop_addresses_zeros_and_the_leading_v() {
    let value = "v1.2 x 1.2.3.4 y 0.0 z 2.10.1";
    let matches = vec![
        (0, 4, "v1.2".to_string()),
        (7, 12, "1.2.3".to_string()),
        (17, 20, "0.0".to_string()),
        (23, 29, "2.10.1".to_string()),
    ];
    assert_eq!(candidates_from_matches(value, &matches), vec!["1.2".to_string(), "2.10.1".to_string()]);
    assert!(candidates_from_matches(value, &Vec::new()).is_empty());
}

fn plain_app(name: &str) -> AppItem {
    AppItem {
        name: name.to_string(),
        version: String::new(),
        origin: InstallOrigin::Pacman,
        install_role: InstallRole::Explicit,
        state: ProgramState::default(),
        size: String::new(),
        install_date: String::new(),
        desc: String::new(),
        url: String::new(),
        licenses: String::new(),
        _owning_pkg: name.to_string(),
        representative_path: String::new(),
        binaries: Vec::new(),
        required_by: Vec::new(),
        depends_on: Vec::new(),
        desktop_entries: Vec::new(),
        services: Vec::new(),
        capabilities: PackageCapabilities::default(),
    }
}

#[test]
fn a_selection_shows_only_in_its_own_view() {
    let plain = plain_app("plain");
    let mut broken = plain_app("broken");
    broken.state.broken = true;
    assert!(shows_in_view(&plain, false, false));
    assert!(!shows_in_view(&plain, false, true));
    assert!(shows_in_view(&broken, true, true));
    assert!(!shows_in_view(&broken, true, false));
}

#[test]
fn stems_and_extensions_split_at_the_last_dot() {
    assert_eq!(file_stem("/usr/share/demo.tar.gz").as_deref(), Some("demo.tar"));
    assert_eq!(extension("/usr/share/demo.tar.gz").as_deref(), Some("gz"));
    assert_eq!(file_stem("/home/me/.bashrc").as_deref(), Some(".bashrc"));
    assert_eq!(extension("/home/me/.bashrc"), None);
    assert_eq!(file_stem("/usr/bin/demo").as_deref(), Some("demo"));
    assert_eq!(extension("/usr/bin/demo"), None);
    assert_eq!(extension("/tmp/name.").as_deref(), Some(""));
    assert_eq!(file_stem("/"), None);
}
