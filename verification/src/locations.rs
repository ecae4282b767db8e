//! Where programs are looked for: the directories that hold commands and
//! executables, the place a command line's program resolves to, and which of
//! several directories that lead to one place is kept.
use crate::executables::{join_path, path_joined};
use crate::names::{append_strings, name_views};
use crate::records::{exec_program_token, program_token};
use crate::text::{chars_of, has_char, has_prefix, replace_chars, replaced, starts_with, string_of, strip_prefix, strip_prefix_chars};
use vstd::prelude::*;

verus! {

/// The command line with the unit specifiers `%h`, `%u` and `%U` replaced,
/// in that order, by the home directory, the user's name and the user's id.
pub open spec fn specifiers_expanded(exec: Seq<char>, home: Seq<char>, user: Seq<char>, uid: Seq<char>) -> Seq<char> {
    replaced(replaced(replaced(exec, seq!['%', 'h'], home), seq!['%', 'u'], user), seq!['%', 'U'], uid)
}

pub fn expand_unit_specifiers(exec: &str, home: &str, user: &str, uid: &str) -> (r: String)
    ensures
        r@ == specifiers_expanded(exec@, home@, user@, uid@),
{
    let e = chars_of(exec);
    let h = chars_of(home);
    let u = chars_of(user);
    let i = chars_of(uid);
    let home_mark: [char; 2] = ['%', 'h'];
    let user_mark: [char; 2] = ['%', 'u'];
    let uid_mark: [char; 2] = ['%', 'U'];
    proof {
        assert(home_mark@ =~= seq!['%', 'h']);
        assert(user_mark@ =~= seq!['%', 'u']);
        assert(uid_mark@ =~= seq!['%', 'U']);
    }
    let a = replace_chars(&e, &home_mark, &h);
    let b = replace_chars(&a, &user_mark, &u);
    let c = replace_chars(&b, &uid_mark, &i);
    string_of(&c)
}

/// Where a program token points: a token that starts with `~/` is taken
/// inside the home directory; the place is final when it is absolute or the
/// token holds a `/`, else (`true`) the token is a bare name to look up in
/// the search directories, the place standing when none holds it.
pub open spec fn token_location(token: Seq<char>, home: Seq<char>) -> (Seq<char>, bool) {
    let expanded = match strip_prefix(token, seq!['~', '/']) {
        Some(rest) => path_joined(home, rest),
        None => token,
    };
    (expanded, !(starts_with(expanded, seq!['/']) || token.contains('/')))
}

pub fn program_token_location(token: &str, home: &str) -> (r: (String, bool))
    ensures
        (r.0@, r.1) == token_location(token@, home@),
{
    let t = chars_of(token);
    let tilde: [char; 2] = ['~', '/'];
    let slash: [char; 1] = ['/'];
    proof {
        assert(tilde@ =~= seq!['~', '/']);
        assert(slash@ =~= seq!['/']);
    }
    let expanded = match strip_prefix_chars(&t, &tilde) {
        Some(rest) => {
            let rest_text = string_of(&rest);
            join_path(home, rest_text.as_str())
        },
        None => string_of(&t),
    };
    let ec = chars_of(expanded.as_str());
    let absolute = has_prefix(&ec, &slash);
    let bare = !(absolute || has_char(&t, '/'));
    (expanded, bare)
}

/// The place of the program that a unit's (`systemd_specifiers`) or a
/// launcher's command line runs, and whether it is a bare name to look up.
pub open spec fn command_program(exec: Seq<char>, systemd_specifiers: bool, home: Seq<char>, user: Seq<char>, uid: Seq<char>) -> Option<(Seq<char>, bool)> {
    let expanded = if systemd_specifiers { specifiers_expanded(exec, home, user, uid) } else { exec };
    match program_token(expanded) {
        Some(token) => Some(token_location(token, home)),
        None => None,
    }
}

pub fn exec_program_location(exec: &str, systemd_specifiers: bool, home: &str, user: &str, uid: &str) -> (r: Option<(String, bool)>)
    ensures
        match r {
            Some((p, bare)) => command_program(exec@, systemd_specifiers, home@, user@, uid@) == Some((p@, bare)),
            None => command_program(exec@, systemd_specifiers, home@, user@, uid@) is None,
        },
{
    let expanded = if systemd_specifiers { expand_unit_specifiers(exec, home, user, uid) } else { exec.to_string() };
    match exec_program_token(expanded.as_str()) {
        Some(token) => Some(program_token_location(token.as_str(), home)),
        None => None,
    }
}

/// A list of strings made of literal paths and paths inside `home`.
fn push_literal(out: &mut Vec<String>, path: &str)
    ensures
        name_views(final(out)@) == name_views(old(out)@).push(path@),
{
    let ghost before = out@;
    out.push(path.to_string());
    proof {
        assert(name_views(out@) =~= name_views(before).push(path@));
    }
}

fn push_joined(out: &mut Vec<String>, home: &str, rel: &str)
    ensures
        name_views(final(out)@) == name_views(old(out)@).push(path_joined(home@, rel@)),
{
    let ghost before = out@;
    out.push(join_path(home, rel));
    proof {
        assert(name_views(out@) =~= name_views(before).push(path_joined(home@, rel@)));
    }
}

/// The directories, after those of the search path, where a bare program
/// name is looked up.
pub open spec fn program_search_extra(home: Seq<char>) -> Seq<Seq<char>> {
    seq![path_joined(home, ".local/bin"@), path_joined(home, ".cargo/bin"@), "/usr/local/bin"@, "/usr/bin"@]
}

/// The directories where a bare program name is looked up, in order.
pub fn program_search_directories(path_entries: &Vec<String>, home: &str) -> (r: Vec<String>)
    ensures
        name_views(r@) == name_views(path_entries@) + program_search_extra(home@),
{
    let mut out: Vec<String> = Vec::new();
    append_strings(&mut out, path_entries);
    push_joined(&mut out, home, ".local/bin");
    push_joined(&mut out, home, ".cargo/bin");
    push_literal(&mut out, "/usr/local/bin");
    push_literal(&mut out, "/usr/bin");
    proof {
        assert(name_views(out@) =~= name_views(path_entries@) + program_search_extra(home@));
    }
    out
}

/// The directories, after those of the search path, whose programs count as
/// commands.
pub open spec fn command_directory_extra(home: Seq<char>) -> Seq<Seq<char>> {
    seq![
        path_joined(home, ".local/bin"@),
        path_joined(home, "bin"@),
        path_joined(home, "sbin"@),
        path_joined(home, ".cargo/bin"@),
        path_joined(home, ".npm-global/bin"@),
        path_joined(home, ".local/libexec"@),
        "/usr/bin"@,
        "/usr/sbin"@,
        "/usr/local/bin"@,
        "/usr/local/sbin"@,
        "/usr/libexec"@,
        "/usr/local/libexec"@,
        "/usr/games"@,
    ]
}

/// The directories whose programs count as commands.
pub fn command_directories(path_entries: &Vec<String>, home: &str) -> (r: Vec<String>)
    ensures
        name_views(r@) == name_views(path_entries@) + command_directory_extra(home@),
{
    let mut out: Vec<String> = Vec::new();
    append_strings(&mut out, path_entries);
    push_joined(&mut out, home, ".local/bin");
    push_joined(&mut out, home, "bin");
    push_joined(&mut out, home, "sbin");
    push_joined(&mut out, home, ".cargo/bin");
    push_joined(&mut out, home, ".npm-global/bin");
    push_joined(&mut out, home, ".local/libexec");
    push_literal(&mut out, "/usr/bin");
    push_literal(&mut out, "/usr/sbin");
    push_literal(&mut out, "/usr/local/bin");
    push_literal(&mut out, "/usr/local/sbin");
    push_literal(&mut out, "/usr/libexec");
    push_literal(&mut out, "/usr/local/libexec");
    push_literal(&mut out, "/usr/games");
    proof {
        assert(name_views(out@) =~= name_views(path_entries@) + command_directory_extra(home@));
    }
    out
}

/// The fixed directories outside the search path where programs are
/// sometimes installed.
pub open spec fn unusual_directory_roots(home: Seq<char>) -> Seq<Seq<char>> {
    seq![
        home,
        path_joined(home, "bin"@),
        path_joined(home, "sbin"@),
        path_joined(home, ".cargo/bin"@),
        path_joined(home, ".npm-global/bin"@),
        path_joined(home, ".local/libexec"@),
        "/usr"@,
        "/usr/sbin"@,
        "/usr/local"@,
        "/usr/local/lib"@,
        "/usr/local/sbin"@,
        "/usr/libexec"@,
        "/usr/local/libexec"@,
        "/usr/games"@,
    ]
}

pub fn unusual_install_roots(home: &str) -> (r: Vec<String>)
    ensures
        name_views(r@) == unusual_directory_roots(home@),
{
    let mut out: Vec<String> = Vec::new();
    push_literal(&mut out, home);
    push_joined(&mut out, home, "bin");
    push_joined(&mut out, home, "sbin");
    push_joined(&mut out, home, ".cargo/bin");
    push_joined(&mut out, home, ".npm-global/bin");
    push_joined(&mut out, home, ".local/libexec");
    push_literal(&mut out, "/usr");
    push_literal(&mut out, "/usr/sbin");
    push_literal(&mut out, "/usr/local");
    push_literal(&mut out, "/usr/local/lib");
    push_literal(&mut out, "/usr/local/sbin");
    push_literal(&mut out, "/usr/libexec");
    push_literal(&mut out, "/usr/local/libexec");
    push_literal(&mut out, "/usr/games");
    proof {
        assert(name_views(out@) =~= unusual_directory_roots(home@));
    }
    out
}

/// The directories, after those of the search path, scanned for executables
/// before the workspaces and the unusual places.
pub open spec fn executable_directory_extra(home: Seq<char>) -> Seq<Seq<char>> {
    seq![path_joined(home, ".local/bin"@), "/usr/local/bin"@, "/usr/bin"@]
}

/// The directories scanned for executables, in order, before those that
/// lead to a place already listed are dropped.
pub fn executable_directory_candidates(path_entries: &Vec<String>, home: &str, workspaces: &Vec<String>, unusual: &Vec<String>) -> (r: Vec<String>)
    ensures
        name_views(r@) == name_views(path_entries@) + executable_directory_extra(home@) + name_views(workspaces@) + name_views(unusual@),
{
    let mut out: Vec<String> = Vec::new();
    append_strings(&mut out, path_entries);
    push_joined(&mut out, home, ".local/bin");
    push_literal(&mut out, "/usr/local/bin");
    push_literal(&mut out, "/usr/bin");
    append_strings(&mut out, workspaces);
    append_strings(&mut out, unusual);
    proof {
        assert(name_views(out@) =~= name_views(path_entries@) + executable_directory_extra(home@) + name_views(workspaces@) + name_views(unusual@));
    }
    out
}

/// The directories in the home directory that hold projects.
pub open spec fn workspace_root_list(home: Seq<char>) -> Seq<Seq<char>> {
    seq![path_joined(home, "Dev"@), path_joined(home, "repos"@)]
}

pub fn workspace_roots(home: &str) -> (r: Vec<String>)
    ensures
        name_views(r@) == workspace_root_list(home@),
{
    let mut out: Vec<String> = Vec::new();
    push_joined(&mut out, home, "Dev");
    push_joined(&mut out, home, "repos");
    proof {
        assert(name_views(out@) =~= workspace_root_list(home@));
    }
    out
}

/// A project directory and the places inside it where builds leave
/// programs.
pub open spec fn workspace_output_list(project: Seq<char>) -> Seq<Seq<char>> {
    seq![
        project,
        path_joined(project, "bin"@),
        path_joined(project, "sbin"@),
        path_joined(project, "install/bin"@),
        path_joined(project, "build"@),
        path_joined(project, "build/bin"@),
        path_joined(project, "dist"@),
        path_joined(project, "out"@),
        path_joined(project, "target/debug"@),
        path_joined(project, "target/release"@),
    ]
}

pub fn workspace_output_candidates(project: &str) -> (r: Vec<String>)
    ensures
        name_views(r@) == workspace_output_list(project@),
{
    let mut out: Vec<String> = Vec::new();
    push_literal(&mut out, project);
    push_joined(&mut out, project, "bin");
    push_joined(&mut out, project, "sbin");
    push_joined(&mut out, project, "install/bin");
    push_joined(&mut out, project, "build");
    push_joined(&mut out, project, "build/bin");
    push_joined(&mut out, project, "dist");
    push_joined(&mut out, project, "out");
    push_joined(&mut out, project, "target/debug");
    push_joined(&mut out, project, "target/release");
    proof {
        assert(name_views(out@) =~= workspace_output_list(project@));
    }
    out
}

/// The home directory's children that are not entered when looking one level
/// deeper: caches and package stores.
pub open spec fn skipped_home_root(name: Seq<char>) -> bool {
    name == ".cache"@ || name == ".npm"@ || name == ".rustup"@ || name == "node_modules"@
}

pub fn is_skipped_home_root(name: &str) -> (r: bool)
    ensures
        r == skipped_home_root(name@),
{
    let n = chars_of(name);
    crate::text::is_lit(&n, ".cache") || crate::text::is_lit(&n, ".npm") || crate::text::is_lit(&n, ".rustup")
        || crate::text::is_lit(&n, "node_modules")
}

/// The directories that hold systemd units, each with whether it is the
/// user's (`true`) or the system's.
pub open spec fn unit_directory_list(home: Seq<char>) -> Seq<(bool, Seq<char>)> {
    seq![
        (true, path_joined(home, ".config/systemd/user"@)),
        (true, path_joined(home, ".local/share/systemd/user"@)),
        (true, "/etc/systemd/user"@),
        (false, "/etc/systemd/system"@),
        (true, "/usr/lib/systemd/user"@),
        (false, "/usr/lib/systemd/system"@),
    ]
}

pub open spec fn scoped_views(v: Seq<(bool, String)>) -> Seq<(bool, Seq<char>)> {
    v.map_values(|p: (bool, String)| (p.0, p.1@))
}

pub fn unit_directories(home: &str) -> (r: Vec<(bool, String)>)
    ensures
        scoped_views(r@) == unit_directory_list(home@),
{
    let mut out: Vec<(bool, String)> = Vec::new();
    out.push((true, join_path(home, ".config/systemd/user")));
    out.push((true, join_path(home, ".local/share/systemd/user")));
    out.push((true, "/etc/systemd/user".to_string()));
    out.push((false, "/etc/systemd/system".to_string()));
    out.push((true, "/usr/lib/systemd/user".to_string()));
    out.push((false, "/usr/lib/systemd/system".to_string()));
    proof {
        assert(scoped_views(out@) =~= unit_directory_list(home@));
    }
    out
}

/// The directories that hold D-Bus service files.
pub open spec fn dbus_directory_list(home: Seq<char>) -> Seq<Seq<char>> {
    seq!["/usr/share/dbus-1/services"@, "/usr/share/dbus-1/system-services"@, path_joined(home, ".local/share/dbus-1/services"@)]
}

pub fn dbus_service_directories(home: &str) -> (r: Vec<String>)
    ensures
        name_views(r@) == dbus_directory_list(home@),
{
    let mut out: Vec<String> = Vec::new();
    push_literal(&mut out, "/usr/share/dbus-1/services");
    push_literal(&mut out, "/usr/share/dbus-1/system-services");
    push_joined(&mut out, home, ".local/share/dbus-1/services");
    proof {
        assert(name_views(out@) =~= dbus_directory_list(home@));
    }
    out
}

/// The positions of `ids` whose identity has not come before, in order.
pub open spec fn first_indices(ids: Seq<Seq<char>>) -> Seq<int>
    decreases ids.len(),
{
    if ids.len() == 0 {
        Seq::empty()
    } else {
        let k = ids.len() - 1;
        let before = first_indices(ids.subrange(0, k));
        if ids.subrange(0, k).contains(ids[k]) { before } else { before.push(k) }
    }
}

/// The directories of `dirs` whose identity (`ids`, position by position)
/// has not come before, in order.
pub fn keep_first_of_each_identity(dirs: &Vec<String>, ids: &Vec<String>) -> (r: Vec<String>)
    requires
        dirs@.len() == ids@.len(),
    ensures
        name_views(r@) == first_indices(name_views(ids@)).map_values(|i: int| dirs@[i]@),
{
    let ghost iv = name_views(ids@);
    let mut out: Vec<String> = Vec::new();
    let mut seen: Vec<String> = Vec::new();
    let mut k: usize = 0;
    while k < dirs.len()
        invariant
            dirs@.len() == ids@.len(),
            iv == name_views(ids@),
            k <= dirs@.len(),
            name_views(seen@) == iv.subrange(0, k as int),
            name_views(out@) == first_indices(iv.subrange(0, k as int)).map_values(|i: int| dirs@[i]@),
        decreases dirs@.len() - k,
    {
        let mut found = false;
        let mut j: usize = 0;
        while j < seen.len()
            invariant
                j <= seen@.len(),
                found == exists|m: int| 0 <= m < j && #[trigger] seen@[m]@ == ids@[k as int]@,
                k < ids@.len(),
            decreases seen@.len() - j,
        {
            if seen[j] == ids[k] {
                found = true;
            }
            j += 1;
        }
        let ghost prefix = iv.subrange(0, k as int);
        let ghost next = iv.subrange(0, k + 1);
        proof {
            assert(next.subrange(0, k as int) =~= prefix);
            assert(next[k as int] == iv[k as int]);
            assert(iv[k as int] == ids@[k as int]@);
            if found {
                let m = choose|m: int| 0 <= m < seen@.len() && #[trigger] seen@[m]@ == ids@[k as int]@;
                assert(name_views(seen@)[m] == prefix[m]);
                assert(prefix.contains(iv[k as int]));
            } else {
                assert forall|m: int| 0 <= m < prefix.len() implies prefix[m] != iv[k as int] by {
                    assert(name_views(seen@)[m] == seen@[m]@);
                }
            }
        }
        let ghost out_before = out@;
        if !found {
            out.push(dirs[k].clone());
            proof {
                assert(name_views(out@) =~= name_views(out_before).push(dirs@[k as int]@));
                assert(first_indices(next) == first_indices(prefix).push(k as int));
                assert(first_indices(next).map_values(|i: int| dirs@[i]@) =~= first_indices(prefix).map_values(|i: int| dirs@[i]@).push(dirs@[k as int]@));
            }
        }
        let ghost seen_before = seen@;
        seen.push(ids[k].clone());
        proof {
            assert(name_views(seen@) =~= name_views(seen_before).push(ids@[k as int]@));
            assert(name_views(seen@) =~= next);
        }
        k += 1;
    }
    proof {
        assert(iv.subrange(0, dirs@.len() as int) =~= iv);
    }
    out
}

/// Every position that `first_indices` keeps lies in the list, and holds an
/// identity that has not come before.
proof fn lemma_first_indices_first(ids: Seq<Seq<char>>)
    ensures
        forall|a: int| 0 <= a < first_indices(ids).len() ==> 0 <= #[trigger] first_indices(ids)[a] < ids.len()
            && !ids.subrange(0, first_indices(ids)[a]).contains(ids[first_indices(ids)[a]]),
        forall|a: int, b: int| 0 <= a < b < first_indices(ids).len() ==> #[trigger] first_indices(ids)[a] < #[trigger] first_indices(ids)[b],
        forall|x: Seq<char>| ids.contains(x) ==> exists|a: int| 0 <= a < first_indices(ids).len() && ids[#[trigger] first_indices(ids)[a]] == x,
    decreases ids.len(),
{
    if ids.len() > 0 {
        let k = ids.len() - 1;
        let p = ids.subrange(0, k);
        lemma_first_indices_first(p);
        let fp = first_indices(p);
        assert forall|a: int| 0 <= a < fp.len() implies ids.subrange(0, fp[a]) =~= p.subrange(0, fp[a]) && ids[fp[a]] == p[fp[a]] by {}
        assert forall|x: Seq<char>| ids.contains(x) implies exists|a: int| 0 <= a < first_indices(ids).len() && ids[#[trigger] first_indices(ids)[a]] == x by {
            let i = choose|i: int| 0 <= i < ids.len() && ids[i] == x;
            if i < k {
                assert(p[i] == x);
                assert(p.contains(x));
                let a = choose|a: int| 0 <= a < fp.len() && p[#[trigger] fp[a]] == x;
                assert(first_indices(ids)[a] == fp[a]);
            } else if p.contains(x) {
                let a = choose|a: int| 0 <= a < fp.len() && p[#[trigger] fp[a]] == x;
                assert(first_indices(ids)[a] == fp[a]);
            } else {
                assert(first_indices(ids) == fp.push(k));
                assert(first_indices(ids)[fp.len() as int] == k);
            }
        }
    }
}

/// Of the directories kept, no two lead to one place, and every place that
/// some directory leads to is led to by a kept one.
pub proof fn lemma_kept_identities_distinct(ids: Seq<Seq<char>>)
    ensures
        forall|a: int, b: int| 0 <= a < b < first_indices(ids).len() ==> ids[#[trigger] first_indices(ids)[a]] != ids[#[trigger] first_indices(ids)[b]],
        forall|x: Seq<char>| ids.contains(x) ==> exists|a: int| 0 <= a < first_indices(ids).len() && ids[#[trigger] first_indices(ids)[a]] == x,
{
    lemma_first_indices_first(ids);
    let f = first_indices(ids);
    assert forall|a: int, b: int| 0 <= a < b < f.len() implies ids[#[trigger] f[a]] != ids[#[trigger] f[b]] by {
        assert(f[a] < f[b]);
        assert(ids.subrange(0, f[b])[f[a]] == ids[f[a]]);
    }
}

} // verus!
