use progs::executables::{binary_version, executable_file_kind, local_tool_description, skip_entry, ExecutableFileKind};
use progs::models::{AppItem, BinaryInfo, DesktopEntry, InstallOrigin, InstallRole, PackageCapabilities, ProgramState};
use progs::packages::normalize_cached_roles;
use progs::records::least_string;
use progs::search::{append_relationship_matches, match_class, relationship_key, search_fields, RelationshipIndex};
use progs::table::{
    attach_to_matching, cargo_description, launcher_description, launcher_program, mark_local_file, opt_description,
    same_named_package_exists, ProgramEntry,
};

fn app(name: &str, origin: InstallOrigin, role: InstallRole) -> AppItem {
    AppItem {
        name: name.to_string(),
        version: "1.0".to_string(),
        origin,
        install_role: role,
        state: ProgramState::default(),
        size: String::new(),
        install_date: String::new(),
        desc: "A tool".to_string(),
        url: String::new(),
        licenses: String::new(),
        _owning_pkg: name.to_string(),
        representative_path: String::new(),
        binaries: Vec::new(),
        required_by: Vec::new(),
        depends_on: Vec::new(),
        desktop_entries: Vec::new(),
        services: Vec::new(),
        capabilities: PackageCapabilities::default(),
    }
}

fn binary(path: &str, target: &str) -> BinaryInfo {
    let (dir, name) = path.rsplit_once('/').unwrap();
    BinaryInfo {
        name: name.to_string(),
        dir: dir.to_string(),
        path: path.to_string(),
        is_symlink: !target.is_empty(),
        target: target.to_string(),
        version: String::new(),
        _is_pacman_owned: true,
        _owning_pkg: String::new(),
    }
}

fn launcher(file_path: &str, exec: &str, comment: &str) -> DesktopEntry {
    DesktopEntry {
        file_path: file_path.to_string(),
        name: "Launcher".to_string(),
        exec_line: exec.to_string(),
        icon: String::new(),
        comment: comment.to_string(),
        is_visible: true,
        runs_in_terminal: false,
    }
}

#[test]
fn match_tiers_rank_names_over_commands_over_metadata() {
    assert_eq!(match_class("ffmpeg", "ffmpeg", 0), 9);
    assert_eq!(match_class("ffmpeg-tools", "ffmpeg", 0), 8);
    assert_eq!(match_class("lib-ffmpeg", "ffmpeg", 0), 6);
    assert_eq!(match_class("fmpeg", "ffmpeg", 0), 4);
    assert_eq!(match_class("ffmpeg", "ffmpeg", 1), 7);
    assert_eq!(match_class("ffmpegthumbnailer", "ffmpeg", 1), 5);
    assert_eq!(match_class("x-ffmpeg", "ffmpeg", 1), 3);
    assert_eq!(match_class("other", "ffmpeg", 1), 2);
    assert_eq!(match_class("ffmpeg", "ffmpeg", 3), 1);
}

#[test]
fn relationship_keys_fold_case_and_punctuation() {
    assert_eq!(relationship_key("  Provider.Package "), "provider package");
    assert_eq!(relationship_key("provider-package"), "provider package");
    assert_eq!(relationship_key("--"), "");
}

#[test]
fn exact_relationship_matches_follow_ranked_matches_once() {
    let mut consumer = app("consumer", InstallOrigin::Pacman, InstallRole::Explicit);
    consumer.depends_on = vec!["provider-package".to_string(), "Provider.Package".to_string()];
    let mut other = app("other", InstallOrigin::Pacman, InstallRole::Dependency);
    other.required_by = vec!["provider package".to_string()];
    let apps = vec![consumer, other, app("unrelated", InstallOrigin::Pacman, InstallRole::Explicit)];
    let index = RelationshipIndex::build(&apps);
    let related = index.lookup(&relationship_key("provider.package"));
    assert_eq!(related, vec![0, 0, 1]);
    assert!(index.lookup(&"missing".to_string()).is_empty());
    assert_eq!(append_relationship_matches(vec![2, 1], &related), vec![2, 1, 0]);
}

#[test]
fn search_fields_list_names_commands_launchers_and_metadata() {
    let mut tool = app("tool", InstallOrigin::Pacman, InstallRole::Explicit);
    tool.binaries = vec![binary("/usr/bin/tool", "/usr/lib/tool/tool-real")];
    tool.desktop_entries = vec![launcher("/usr/share/applications/tool.desktop", "tool %F", "Edit things")];
    let fields = search_fields(&tool);
    assert_eq!(fields[0], (0, "tool".to_string()));
    assert_eq!(fields[1], (1, "tool".to_string()));
    assert_eq!(fields[2], (1, "/usr/lib/tool/tool-real".to_string()));
    assert_eq!(fields[3], (1, "tool %F".to_string()));
    assert_eq!(fields[4], (2, "Launcher".to_string()));
    assert_eq!(fields[5], (3, "Edit things".to_string()));
    assert_eq!(fields[6], (3, "A tool".to_string()));
    assert_eq!(fields.len(), 15);
}

#[test]
fn executable_entries_and_file_headers_decide_what_is_a_program() {
    assert!(skip_entry("/usr/bin", "libfoo.so.1", "/home/u"));
    assert!(skip_entry("/usr/bin", "..", "/home/u"));
    assert!(skip_entry("/home/u/repos/tool", "configure", "/home/u"));
    assert!(!skip_entry("/usr/bin", "tool", "/home/u"));
    assert_eq!(executable_file_kind(true, 0o755, b"\x7fELFpayload"), Some(ExecutableFileKind::NativeBinary));
    assert_eq!(executable_file_kind(true, 0o755, b"#!/bin/sh\n"), Some(ExecutableFileKind::Script));
    assert_eq!(executable_file_kind(true, 0o644, b"#!/bin/sh\n"), None);
    assert_eq!(executable_file_kind(true, 0o755, b"MZpayload"), None);
    assert_eq!(executable_file_kind(false, 0o755, b"\x7fELF"), None);
    assert_eq!(executable_file_kind(true, 0o755, b"#"), None);
    assert_eq!(binary_version(false, true, Some("1.2-1"), Some("9")), "v1.2-1");
    assert_eq!(binary_version(false, false, Some("1.2-1"), Some("0.3.0")), "v0.3.0");
    assert_eq!(binary_version(true, false, None, Some("0.3.0")), "");
    assert_eq!(binary_version(false, true, None, None), "");
    assert_eq!(local_tool_description("/usr/local/bin/x"), "Local custom tool sitting at /usr/local/bin/x");
}

#[test]
fn launchers_attach_to_every_program_they_start() {
    let mut first = app("tool", InstallOrigin::Pacman, InstallRole::Explicit);
    first.binaries = vec![binary("/usr/bin/tool", "")];
    let second = app("editor", InstallOrigin::Pacman, InstallRole::Explicit);
    let mut table = vec![
        ProgramEntry { key: "tool".to_string(), app: first, identities: vec!["/usr/bin/tool".to_string()] },
        ProgramEntry { key: "editor".to_string(), app: second, identities: Vec::new() },
    ];
    let entry = launcher("/usr/share/applications/tool.desktop", "/usr/bin/tool %F", "");
    assert!(attach_to_matching(&mut table, &entry));
    assert!(attach_to_matching(&mut table, &entry));
    assert_eq!(table[0].app.desktop_entries.len(), 1);
    assert!(table[1].app.desktop_entries.is_empty());
    let stranger = launcher("/usr/share/applications/stranger.desktop", "/opt/stranger/run", "");
    assert!(!attach_to_matching(&mut table, &stranger));

    assert_eq!(launcher_program(&stranger, "/opt/stranger/run", false), "run");
    let broken = launcher("/usr/share/applications/org.example.Viewer.desktop", "viewer", "Views");
    assert_eq!(launcher_program(&broken, "/usr/bin/viewer", true), "Viewer");
    assert_eq!(launcher_description(&broken, true), "Broken desktop launcher: Views");
    assert_eq!(launcher_description(&broken, false), "Views");
    assert_eq!(
        launcher_description(&stranger, false),
        "Application discovered from /usr/share/applications/stranger.desktop"
    );
    assert_eq!(cargo_description("ripgrep"), "Cargo-installed Rust package ripgrep");

    mark_local_file(&mut table, 1, "Mon 01 Jan 2024".to_string());
    assert_eq!(table[1].app.size, "Local File");
    assert_eq!(table[1].app.install_date, "Mon 01 Jan 2024");
    mark_local_file(&mut table, 1, "later".to_string());
    assert_eq!(table[1].app.install_date, "Mon 01 Jan 2024");

    assert!(same_named_package_exists(&table, "TOOL"));
    assert!(!same_named_package_exists(&table, "stranger"));
    assert_eq!(opt_description("/opt/tool", true), "Possible leftover manual installation under /opt/tool; a same-named package is also installed");
    assert_eq!(opt_description("/opt/tool", false), "Unlinked manual installation under /opt/tool");
}

#[test]
fn cached_toolchain_programs_are_toolchain_managed() {
    let mut apps = vec![
        app("ripgrep", InstallOrigin::Cargo, InstallRole::Standalone),
        app("bash", InstallOrigin::Pacman, InstallRole::Explicit),
        app("prettier", InstallOrigin::Npm, InstallRole::Standalone),
    ];
    normalize_cached_roles(&mut apps);
    assert_eq!(apps[0].install_role, InstallRole::ToolchainManaged);
    assert_eq!(apps[1].install_role, InstallRole::Explicit);
    assert_eq!(apps[2].install_role, InstallRole::ToolchainManaged);
}

#[test]
fn least_strings_are_chosen_in_byte_order() {
    assert_eq!(least_string(&vec!["b".to_string(), "a".to_string(), "c".to_string()]), Some("a".to_string()));
    assert_eq!(least_string(&Vec::new()), None);
}
