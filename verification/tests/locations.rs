use progs::desktop::{launcher_directories, LauncherWalk};
use progs::executables::{
    embedded_read_limits, embedded_read_plan, executable_file_kind, full_probe_allowed, should_full_opt_probe,
    should_scan_embedded_version, ExecutableFileKind,
};
use progs::locations::{
    command_directories, dbus_service_directories, exec_program_location, executable_directory_candidates,
    expand_unit_specifiers, is_skipped_home_root, keep_first_of_each_identity, program_search_directories,
    program_token_location, unit_directories, unusual_install_roots, workspace_output_candidates, workspace_roots,
};
use progs::models::{AppItem, BinaryInfo, InstallOrigin, InstallRole, ProgramState};
use progs::opt::{finish_opt_program, is_matlab_root, opt_program, version_files, OptWalk, WalkEntry};
use progs::pacman::desc_package_name;
use progs::table::{
    attach_package_binary, executable_under, find_key, key_for_command, lookup_service_program, ProgramEntry, ProgramLookup,
};
use std::collections::HashSet;

fn strings(items: &[&str]) -> Vec<String> {
    items.iter().map(|item| item.to_string()).collect()
}

fn app(name: &str) -> AppItem {
    AppItem {
        name: name.to_string(),
        version: String::new(),
        origin: InstallOrigin::Local,
        install_role: InstallRole::Standalone,
        state: ProgramState::default(),
        size: String::new(),
        install_date: String::new(),
        desc: String::new(),
        url: String::new(),
        licenses: String::new(),
        _owning_pkg: String::new(),
        representative_path: String::new(),
        binaries: Vec::new(),
        required_by: Vec::new(),
        depends_on: Vec::new(),
        desktop_entries: Vec::new(),
        services: Vec::new(),
        capabilities: Default::default(),
    }
}

fn binary(path: &str) -> BinaryInfo {
    let (dir, name) = path.rsplit_once('/').unwrap();
    BinaryInfo {
        name: name.to_string(),
        dir: dir.to_string(),
        path: path.to_string(),
        is_symlink: false,
        target: String::new(),
        version: String::new(),
        _is_pacman_owned: false,
        _owning_pkg: String::new(),
    }
}

fn entry(key: &str, binary_path: Option<&str>) -> ProgramEntry {
    let mut app = app(key);
    let mut identities = Vec::new();
    if let Some(path) = binary_path {
        app.binaries.push(binary(path));
        identities.push(path.to_string());
    }
    ProgramEntry { key: key.to_string(), app, identities }
}

#[test]
fn interpreter_units_are_attributed_to_the_script() {
    assert_eq!(
        exec_program_location("/usr/bin/node %h/Dev/tool/server.js", true, "/home/lewis", "lewis", "1000"),
        Some(("/home/lewis/Dev/tool/server.js".to_string(), false))
    );
    assert_eq!(
        exec_program_location("/usr/bin/python3 /opt/tool/worker.py --watch", true, "/home/lewis", "lewis", "1000"),
        Some(("/opt/tool/worker.py".to_string(), false))
    );
}

#[test]
fn accepts_only_linux_binaries_and_shebang_scripts() {
    let cases: [(&str, &[u8], Option<ExecutableFileKind>); 6] = [
        ("native", b"\x7fELFpayload", Some(ExecutableFileKind::NativeBinary)),
        ("script", b"#!/bin/sh\nexit 0\n", Some(ExecutableFileKind::Script)),
        ("LICENSE", b"MIT License\n", None),
        ("mimeapps.list", b"[Default Applications]\n", None),
        ("image.png", b"\x89PNG\r\n\x1a\n", None),
        ("library.dll", b"MZpayload", None),
    ];
    for (name, contents, expected) in cases {
        let header = &contents[..contents.len().min(4)];
        assert_eq!(executable_file_kind(true, 0o100755, header), expected, "{name}");
    }
    assert_eq!(executable_file_kind(true, 0o100644, b"#!/b"), None);
    assert_eq!(executable_file_kind(false, 0o40755, b""), None);
}

#[test]
fn unit_specifiers_expand_in_order() {
    assert_eq!(expand_unit_specifiers("%h/bin/run --user %u --id %U %%h", "/home/a", "a", "1000"), "/home/a/bin/run --user a --id 1000 %/home/a");
    assert_eq!(expand_unit_specifiers("plain", "/home/a", "a", "1000"), "plain");
}

#[test]
fn program_tokens_resolve_home_paths_and_leave_bare_names_to_the_search() {
    assert_eq!(program_token_location("~/bin/tool", "/home/a"), ("/home/a/bin/tool".to_string(), false));
    assert_eq!(program_token_location("tool", "/home/a"), ("tool".to_string(), true));
    assert_eq!(program_token_location("bin/tool", "/home/a"), ("bin/tool".to_string(), false));
    assert_eq!(program_token_location("/usr/bin/tool", "/home/a"), ("/usr/bin/tool".to_string(), false));
    assert_eq!(exec_program_location("env FOO=1 tool --flag", false, "/home/a", "a", "1"), Some(("tool".to_string(), true)));
    assert_eq!(exec_program_location("", false, "/home/a", "a", "1"), None);
}

#[test]
fn search_and_command_directories_follow_the_search_path() {
    let path = strings(&["/usr/bin", "/opt/x/bin"]);
    assert_eq!(
        program_search_directories(&path, "/home/a"),
        strings(&["/usr/bin", "/opt/x/bin", "/home/a/.local/bin", "/home/a/.cargo/bin", "/usr/local/bin", "/usr/bin"])
    );
    let commands = command_directories(&path, "/home/a");
    assert_eq!(commands.len(), 15);
    assert_eq!(&commands[..3], &strings(&["/usr/bin", "/opt/x/bin", "/home/a/.local/bin"])[..]);
    assert_eq!(commands[14], "/usr/games");
    assert!(commands.contains(&"/home/a/.local/libexec".to_string()));
}

#[test]
fn executable_directories_include_path_and_deduplicate_aliases() {
    let roots = unusual_install_roots("/home/test");
    let candidates = executable_directory_candidates(&strings(&["/usr/bin", "/bin"]), "/home/test", &Vec::new(), &roots);
    let identities: Vec<String> = candidates.iter().map(|directory| if directory == "/bin" { "/usr/bin".to_string() } else { directory.clone() }).collect();
    let directories = keep_first_of_each_identity(&candidates, &identities);
    for wanted in ["/home/test/.local/bin", "/home/test", "/home/test/.cargo/bin", "/home/test/.local/libexec", "/usr/local/bin", "/usr/bin", "/usr/libexec"] {
        assert!(directories.contains(&wanted.to_string()), "{wanted}");
    }
    assert!(!directories.contains(&"/bin".to_string()));
    let kept: HashSet<String> = directories
        .iter()
        .map(|directory| if directory == "/bin" { "/usr/bin".to_string() } else { directory.clone() })
        .collect();
    assert_eq!(kept.len(), directories.len());
    assert_eq!(directories[0], "/usr/bin");
}

#[test]
fn keeping_the_first_directory_of_each_place() {
    let dirs = strings(&["a", "b", "c", "d"]);
    let ids = strings(&["x", "y", "x", "z"]);
    assert_eq!(keep_first_of_each_identity(&dirs, &ids), strings(&["a", "b", "d"]));
}

#[test]
fn workspace_and_unit_locations() {
    assert_eq!(workspace_roots("/home/a"), strings(&["/home/a/Dev", "/home/a/repos"]));
    let outputs = workspace_output_candidates("/home/a/Dev/tool");
    assert_eq!(outputs.len(), 10);
    assert_eq!(outputs[0], "/home/a/Dev/tool");
    assert_eq!(outputs[9], "/home/a/Dev/tool/target/release");
    assert!(is_skipped_home_root(".cache"));
    assert!(is_skipped_home_root("node_modules"));
    assert!(!is_skipped_home_root("tasks"));
    let units = unit_directories("/home/a");
    assert_eq!(units[0], (true, "/home/a/.config/systemd/user".to_string()));
    assert_eq!(units[3], (false, "/etc/systemd/system".to_string()));
    assert_eq!(units.len(), 6);
    assert_eq!(dbus_service_directories("/home/a")[2], "/home/a/.local/share/dbus-1/services");
}

#[test]
fn package_database_records_name_their_package() {
    assert_eq!(desc_package_name("%FILENAME%\nbash.pkg\n\n%NAME%\nbash\n\n%VERSION%\n5.3-1\n"), Some("bash".to_string()));
    assert_eq!(desc_package_name("%VERSION%\n1.0\n%NAME%"), None);
    assert_eq!(desc_package_name(""), None);
}

#[test]
fn commands_find_their_program_by_identity_then_by_name() {
    let table = vec![entry("tool", Some("/usr/bin/tool")), entry("other", Some("/opt/other/run"))];
    assert_eq!(key_for_command(&table, &"/opt/other/run".to_string(), &Some("run".to_string()), true), Some("other".to_string()));
    assert_eq!(key_for_command(&table, &"/elsewhere/tool".to_string(), &Some("tool".to_string()), false), Some("tool".to_string()));
    assert_eq!(key_for_command(&table, &"/elsewhere/tool".to_string(), &Some("tool".to_string()), true), None);
    assert!(matches!(lookup_service_program(&table, &Some("other".to_string()), &None), ProgramLookup::Found(key) if key == "other"));
    assert!(matches!(lookup_service_program(&table, &Some("missing".to_string()), &None), ProgramLookup::Missing));
    let command = Some(("/new/prog".to_string(), Some("prog".to_string()), true));
    assert!(matches!(lookup_service_program(&table, &Some("missing".to_string()), &command), ProgramLookup::Add));
    assert_eq!(find_key(&table, &"other".to_string()), Some(1));
    assert!(executable_under(&table, "/opt/other"));
    assert!(!executable_under(&table, "/opt/oth"));
}

#[test]
fn package_executables_join_their_package() {
    let mut table = vec![entry("bash", None)];
    attach_package_binary(&mut table, &"bash".to_string(), binary("/usr/bin/bash"), "/usr/bin/bash".to_string());
    attach_package_binary(&mut table, &"zsh".to_string(), binary("/usr/bin/zsh"), "/usr/bin/zsh".to_string());
    assert_eq!(table.len(), 1);
    assert_eq!(table[0].app.binaries.len(), 1);
    assert_eq!(table[0].identities, strings(&["/usr/bin/bash"]));
}

#[test]
fn opt_installations_are_named_and_completed() {
    assert!(is_matlab_root("matlab"));
    assert!(!is_matlab_root("matlab2"));
    assert_eq!(opt_program("MATLAB", &strings(&["/opt/MATLAB/bin/matlab"]), true), (None, "MATLAB Runtime".to_string()));
    let (launcher, name) = opt_program("chromium.org", &strings(&["/opt/chromium.org/chromium-browser"]), false);
    assert_eq!(launcher, Some("/opt/chromium.org/chromium-browser".to_string()));
    assert_eq!(name, "chromium");
    assert_eq!(version_files()[0], "VERSION");

    let mut runtime = app("MATLAB Runtime");
    finish_opt_program(&mut runtime, "/opt/MATLAB", true, false);
    assert_eq!(runtime.representative_path, "/opt/MATLAB/MATLAB_Runtime");
    assert!(runtime.capabilities.has_library);
    let mut ghidra = app("ghidra");
    ghidra.representative_path = "/opt/ghidra/ghidraRun".to_string();
    finish_opt_program(&mut ghidra, "/opt/ghidra", false, true);
    assert_eq!(ghidra.representative_path, "/opt/ghidra/ghidraRun");
    assert!(ghidra.capabilities.has_gui);
    assert!(!ghidra.capabilities.has_library);
}

fn walk_entry(path: &str, is_dir: bool, executable: bool) -> WalkEntry {
    WalkEntry { path: path.to_string(), is_dir, is_symlink: false, is_file: !is_dir, executable }
}

#[test]
fn opt_walks_go_breadth_first_within_their_limits() {
    let mut walk = OptWalk::new("/opt/tool");
    assert_eq!(walk.next_directory(), Some(("/opt/tool".to_string(), 0)));
    walk.observe(0, walk_entry("/opt/tool/bin", true, false));
    walk.observe(0, walk_entry("/opt/tool/README", false, false));
    walk.observe(0, walk_entry("/opt/tool/run", false, true));
    assert_eq!(walk.next_directory(), Some(("/opt/tool/bin".to_string(), 1)));
    walk.observe(4, walk_entry("/opt/tool/deep", true, false));
    assert_eq!(walk.next_directory(), None);
    assert!(walk.has_files);
    assert_eq!(walk.executables, strings(&["/opt/tool/run"]));

    let mut busy = OptWalk::new("/opt/many");
    busy.next_directory();
    for index in 0..1501 {
        busy.observe(0, walk_entry(&format!("/opt/many/f{index}"), false, true));
    }
    assert!(busy.stopped);
    assert_eq!(busy.executables.len(), 1500);
    assert_eq!(busy.next_directory(), None);
}

#[test]
fn embedded_text_is_read_within_limits() {
    assert_eq!(embedded_read_limits("/opt/tool/bin/tool"), (16 * 1024 * 1024, 4 * 1024 * 1024));
    assert_eq!(embedded_read_limits("/usr/bin/tool"), (8 * 1024 * 1024, 1024 * 1024));
    assert_eq!(embedded_read_plan(100, 64, 16), (64, 16));
    assert_eq!(embedded_read_plan(70, 64, 16), (64, 6));
    assert_eq!(embedded_read_plan(10, 64, 16), (10, 0));
    assert!(should_scan_embedded_version("/opt/tool/bin/tool", None));
    assert!(!should_scan_embedded_version("/opt/cuda/bin/nvcc", Some(1)));
    assert!(!should_scan_embedded_version("/home/a/.codex/bin/x", Some(1)));
    assert!(should_scan_embedded_version("/usr/bin/tool", Some(32 * 1024 * 1024)));
    assert!(!should_scan_embedded_version("/usr/bin/tool", Some(32 * 1024 * 1024 + 1)));
    assert!(!should_scan_embedded_version("/usr/bin/tool", None));
    assert!(should_full_opt_probe("/opt/Tool/bin/tool", "TOOL", Some(16 * 1024 * 1024 + 1)));
    assert!(!should_full_opt_probe("/opt/Tool/bin/tool", "TOOL", Some(16 * 1024 * 1024)));
    assert!(!should_full_opt_probe("/usr/bin/tool", "tool", Some(u64::MAX)));
    assert!(full_probe_allowed(128 * 1024 * 1024));
    assert!(!full_probe_allowed(128 * 1024 * 1024 + 1));
}

#[test]
fn launcher_searches_go_depth_first_within_their_limits() {
    let directories = launcher_directories("/home/a");
    assert_eq!(directories[0], ("/home/a/.local/share/applications".to_string(), 0));
    assert_eq!(directories[3], ("/opt".to_string(), 4));

    let mut walk = LauncherWalk::new("/opt", 1);
    assert_eq!(walk.next_directory(), Some(("/opt".to_string(), 0)));
    assert!(!walk.observe(0, "/opt/a".to_string(), true));
    assert!(!walk.observe(0, "/opt/b".to_string(), true));
    assert!(walk.observe(0, "/opt/tool.desktop".to_string(), false));
    assert!(!walk.observe(0, "/opt/readme.txt".to_string(), false));
    assert_eq!(walk.next_directory(), Some(("/opt/b".to_string(), 1)));
    assert!(!walk.observe(1, "/opt/b/deeper".to_string(), true));
    assert_eq!(walk.next_directory(), Some(("/opt/a".to_string(), 1)));
    assert_eq!(walk.next_directory(), None);

    let mut busy = LauncherWalk::new("/usr/share/applications", 0);
    busy.next_directory();
    for index in 0..2000 {
        assert!(busy.observe(0, format!("/usr/share/applications/{index}.desktop"), false));
    }
    assert!(!busy.observe(0, "/usr/share/applications/last.desktop".to_string(), false));
    assert!(busy.stopped);
}
