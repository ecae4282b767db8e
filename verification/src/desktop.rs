//! Desktop launchers: reading `.desktop` files, splitting their `Exec=`
//! lines into words, finding the program a launcher starts, and matching
//! launchers with programs.
use crate::models::{BinaryInfo, DesktopEntry};
use crate::paths::{eq_ignore_ascii_case, eq_ignore_case, file_name, file_stem, is_ascii_alphanumeric, opt_string_view, path_file_name, path_file_stem};
use crate::text::{chars_eq, chars_of, contains, ends_lit, ends_with, find_char, is_lit, lines, lines_of, rsplit_once, rsplit_once_chars, slice_vec, split_once, split_once_chars, starts_lit, starts_with, string_of, strip_lit, strip_prefix, trim, trim_chars, views};
use vstd::prelude::*;

verus! {

/// `char::is_ascii_whitespace`.
pub open spec fn is_ascii_ws(c: char) -> bool {
    c == ' ' || c == '\t' || c == '\n' || c == '\x0C' || c == '\r'
}

/// The words found so far, the word being read, the open quote and whether
/// the previous character was a backslash.
pub type TokenState = (Seq<Seq<char>>, Seq<char>, Option<char>, bool);

/// Reading one more character of a command line.
pub open spec fn token_step(st: TokenState, c: char) -> TokenState {
    let (tokens, token, quote, escaped) = st;
    if escaped {
        (tokens, token.push(c), quote, false)
    } else if c == '\\' {
        (tokens, token, quote, true)
    } else if quote == Some(c) {
        (tokens, token, None, false)
    } else if quote is None && (c == '\'' || c == '"') {
        (tokens, token, Some(c), false)
    } else if quote is None && is_ascii_ws(c) {
        if token.len() > 0 { (tokens.push(token), Seq::empty(), quote, false) } else { st }
    } else {
        (tokens, token.push(c), quote, false)
    }
}

pub open spec fn token_scan(s: Seq<char>) -> TokenState
    decreases s.len(),
{
    if s.len() == 0 {
        (Seq::empty(), Seq::empty(), None, false)
    } else {
        token_step(token_scan(s.drop_last()), s.last())
    }
}

/// The words of a command line: split at unquoted ASCII whitespace, quotes
/// removed, a backslash taking the next character literally.
pub open spec fn exec_words(s: Seq<char>) -> Seq<Seq<char>> {
    let (tokens, token, _quote, escaped) = token_scan(s);
    let last = if escaped { token.push('\\') } else { token };
    if last.len() > 0 { tokens.push(last) } else { tokens }
}

fn is_ascii_ws_char(c: char) -> (r: bool)
    ensures
        r == is_ascii_ws(c),
{
    c == ' ' || c == '\t' || c == '\n' || c == '\x0C' || c == '\r'
}

fn chars_to_strings(v: &Vec<Vec<char>>) -> (r: Vec<String>)
    ensures
        crate::names::name_views(r@) == views(v@),
{
    crate::pacman::strings_of(v)
}

fn exec_words_of(s: &[char]) -> (out: Vec<Vec<char>>)
    ensures
        views(out@) == exec_words(s@),
{
    let mut tokens: Vec<Vec<char>> = Vec::new();
    let mut token: Vec<char> = Vec::new();
    let mut quote: Option<char> = None;
    let mut escaped = false;
    let mut i: usize = 0;
    while i < s.len()
        invariant
            i <= s@.len(),
            (views(tokens@), token@, quote, escaped) == token_scan(s@.subrange(0, i as int)),
        decreases s@.len() - i,
    {
        let c = s[i];
        proof {
            assert(s@.subrange(0, i + 1).drop_last() =~= s@.subrange(0, i as int));
            assert(s@.subrange(0, i + 1).last() == c);
        }
        if escaped {
            token.push(c);
            escaped = false;
        } else if c == '\\' {
            escaped = true;
        } else if quote == Some(c) {
            quote = None;
        } else if quote.is_none() && (c == '\'' || c == '"') {
            quote = Some(c);
        } else if quote.is_none() && is_ascii_ws_char(c) {
            if token.len() > 0 {
                let ghost before = views(tokens@);
                let t = token;
                token = Vec::new();
                tokens.push(t);
                proof {
                    assert(views(tokens@) =~= before.push(t@));
                }
            }
        } else {
            token.push(c);
        }
        i += 1;
    }
    proof {
        assert(s@.subrange(0, s@.len() as int) =~= s@);
    }
    if escaped {
        token.push('\\');
    }
    if token.len() > 0 {
        let ghost before = views(tokens@);
        tokens.push(token);
        proof {
            assert(views(tokens@) =~= before.push(tokens@.last()@));
        }
    }
    tokens
}

/// The words of a launcher's command line.
pub fn exec_tokens(exec: &str) -> (r: Vec<String>)
    ensures
        crate::names::name_views(r@) == exec_words(exec@),
{
    let cs = chars_of(exec);
    let w = exec_words_of(&cs);
    chars_to_strings(&w)
}

pub open spec fn is_name_start(c: char) -> bool {
    c == '_' || ('a' <= c <= 'z') || ('A' <= c <= 'Z')
}

/// `NAME=value` with a name of letters, digits and `_`, not starting with a digit.
pub open spec fn env_assignment(token: Seq<char>) -> bool {
    match split_once(token, '=') {
        Some(nv) => nv.0.len() > 0 && is_name_start(nv.0[0]) && forall|i: int| 0 <= i < nv.0.len() ==> (nv.0[i] == '_' || is_ascii_alphanumeric(#[trigger] nv.0[i])),
        None => false,
    }
}

/// Whether a word of a command line sets an environment variable.
pub fn is_environment_assignment(token: &str) -> (r: bool)
    ensures
        r == env_assignment(token@),
{
    let t = chars_of(token);
    match split_once_chars(&t, '=') {
        Some((name, _)) => {
            if name.len() == 0 {
                return false;
            }
            let c0 = name[0];
            if !(c0 == '_' || ('a' <= c0 && c0 <= 'z') || ('A' <= c0 && c0 <= 'Z')) {
                return false;
            }
            let mut i: usize = 0;
            while i < name.len()
                invariant
                    t@ == token@,
                    split_once(token@, '=') matches Some(x) && x.0 == name@,
                    name@.len() > 0 && is_name_start(name@[0]),
                    i <= name@.len(),
                    forall|j: int| 0 <= j < i ==> (name@[j] == '_' || is_ascii_alphanumeric(#[trigger] name@[j])),
                decreases name@.len() - i,
            {
                let c = name[i];
                if !(c == '_' || ('0' <= c && c <= '9') || ('a' <= c && c <= 'z') || ('A' <= c && c <= 'Z')) {
                    return false;
                }
                i += 1;
            }
            true
        },
        None => false,
    }
}

/// `env` options that take the next word as their argument.
pub open spec fn takes_argument(t: Seq<char>) -> bool {
    t == "-u"@ || t == "--unset"@ || t == "-C"@ || t == "--chdir"@
}

/// The program that `env` runs, reading its arguments from word `i` on.
pub open spec fn env_program(t: Seq<Seq<char>>, i: int) -> Option<Seq<char>>
    decreases t.len() - i,
{
    if i < 0 || i >= t.len() {
        None
    } else {
        let tok = t[i];
        if env_assignment(tok) || starts_with(tok, "%"@) {
            env_program(t, i + 1)
        } else if takes_argument(tok) {
            if i + 2 > t.len() { None } else { env_program(t, i + 2) }
        } else if tok == "--"@ {
            if i + 1 < t.len() { Some(t[i + 1]) } else { None }
        } else if starts_with(tok, "-"@) {
            env_program(t, i + 1)
        } else {
            Some(tok)
        }
    }
}

/// The program a command line starts: its first word, or what `env` runs;
/// none for a field code such as `%F`.
pub open spec fn exec_program(exec: Seq<char>) -> Option<Seq<char>> {
    let t = exec_words(exec);
    if t.len() == 0 {
        None
    } else if t[0] != "env"@ && !ends_with(t[0], "/env"@) {
        if starts_with(t[0], "%"@) { None } else { Some(t[0]) }
    } else {
        env_program(t, 1)
    }
}

/// The program that a launcher's command line starts.
pub fn desktop_exec_command(exec: &str) -> (r: Option<String>)
    ensures
        opt_string_view(r) == exec_program(exec@),
{
    let tokens = exec_tokens(exec);
    if tokens.len() == 0 {
        return None;
    }
    let first = chars_of(tokens[0].as_str());
    if !is_lit(&first, "env") && !ends_lit(&first, "/env") {
        if starts_lit(&first, "%") {
            return None;
        }
        return Some(tokens[0].clone());
    }
    proof {
        assert(exec_words(exec@)[0] == first@);
    }
    let mut i: usize = 1;
    while i < tokens.len()
        invariant
            1 <= i,
            crate::names::name_views(tokens@) == exec_words(exec@),
            tokens@.len() > 0,
            chars_of_view(tokens@[0]) == exec_words(exec@)[0],
            env_program(exec_words(exec@), i as int) == env_program(exec_words(exec@), 1),
            exec_program(exec@) == env_program(exec_words(exec@), 1),
        decreases tokens@.len() - i,
    {
        let ghost t = exec_words(exec@);
        proof {
            assert(t[i as int] == tokens@[i as int]@);
        }
        let tok = chars_of(tokens[i].as_str());
        proof {
            assert(tok@ == t[i as int]);
        }
        if is_environment_assignment(tokens[i].as_str()) || starts_lit(&tok, "%") {
            i += 1;
        } else if is_lit(&tok, "-u") || is_lit(&tok, "--unset") || is_lit(&tok, "-C") || is_lit(&tok, "--chdir") {
            if tokens.len() - i < 2 {
                proof {
                    assert(takes_argument(t[i as int]));
                    assert(env_program(t, i as int) is None);
                }
                return None;
            }
            i += 2;
        } else if is_lit(&tok, "--") {
            if i + 1 < tokens.len() {
                proof {
                    assert(t[i + 1] == tokens@[i + 1]@);
                }
                return Some(tokens[i + 1].clone());
            }
            return None;
        } else if starts_lit(&tok, "-") {
            i += 1;
        } else {
            proof {
                assert(!takes_argument(t[i as int]));
                assert(env_program(t, i as int) == Some(t[i as int]));
            }
            return Some(tokens[i].clone());
        }
    }
    None
}

pub open spec fn chars_of_view(s: String) -> Seq<char> {
    s@
}

/// What a launcher file has said so far: whether the `[Desktop Entry]`
/// section is open, the name, command, icon, comment and type found, and the
/// `NoDisplay`, `Hidden` and `Terminal` flags.
pub struct EntryState {
    pub in_entry: bool,
    pub name: Seq<char>,
    pub command: Seq<char>,
    pub icon: Seq<char>,
    pub comment: Seq<char>,
    pub entry_type: Seq<char>,
    pub no_display: bool,
    pub hidden: bool,
    pub terminal: bool,
}

pub open spec fn is_true(v: Seq<char>) -> bool {
    eq_ignore_ascii_case(trim(v), "true"@)
}

/// Reading one more (trimmed) line of a launcher file: the first non-empty
/// name, command, icon, comment and type of the section are kept; the flags
/// take their last value.
pub open spec fn entry_step(st: EntryState, line: Seq<char>) -> EntryState {
    if line.len() > 0 && line[0] == '[' && line.last() == ']' {
        EntryState { in_entry: line == "[Desktop Entry]"@, ..st }
    } else if !st.in_entry {
        st
    } else if st.name.len() == 0 && strip_prefix(line, "Name="@) is Some {
        EntryState { name: trim(strip_prefix(line, "Name="@).unwrap()), ..st }
    } else if st.command.len() == 0 && strip_prefix(line, "Exec="@) is Some {
        EntryState { command: trim(strip_prefix(line, "Exec="@).unwrap()), ..st }
    } else if st.icon.len() == 0 && strip_prefix(line, "Icon="@) is Some {
        EntryState { icon: trim(strip_prefix(line, "Icon="@).unwrap()), ..st }
    } else if st.comment.len() == 0 && strip_prefix(line, "Comment="@) is Some {
        EntryState { comment: trim(strip_prefix(line, "Comment="@).unwrap()), ..st }
    } else if st.entry_type.len() == 0 && strip_prefix(line, "Type="@) is Some {
        EntryState { entry_type: trim(strip_prefix(line, "Type="@).unwrap()), ..st }
    } else if strip_prefix(line, "NoDisplay="@) is Some {
        EntryState { no_display: is_true(strip_prefix(line, "NoDisplay="@).unwrap()), ..st }
    } else if strip_prefix(line, "Hidden="@) is Some {
        EntryState { hidden: is_true(strip_prefix(line, "Hidden="@).unwrap()), ..st }
    } else if strip_prefix(line, "Terminal="@) is Some {
        EntryState { terminal: is_true(strip_prefix(line, "Terminal="@).unwrap()), ..st }
    } else {
        st
    }
}

pub open spec fn entry_scan(ls: Seq<Seq<char>>) -> EntryState
    decreases ls.len(),
{
    if ls.len() == 0 {
        EntryState {
            in_entry: false,
            name: Seq::empty(),
            command: Seq::empty(),
            icon: Seq::empty(),
            comment: Seq::empty(),
            entry_type: Seq::empty(),
            no_display: false,
            hidden: false,
            terminal: false,
        }
    } else {
        entry_step(entry_scan(ls.drop_last()), trim(ls.last()))
    }
}

/// `e` is the launcher that the file at `path` with `content` describes:
/// named after the file when it gives no name, visible when it is an
/// application (or untyped) that is neither hidden nor kept off menus.
pub open spec fn entry_matches(e: DesktopEntry, path: Seq<char>, content: Seq<char>) -> bool {
    let st = entry_scan(lines_of(content));
    &&& e.file_path@ == path
    &&& e.name@ == (if st.name.len() == 0 {
        match path_file_stem(path) {
            Some(stem) => stem,
            None => Seq::empty(),
        }
    } else {
        st.name
    })
    &&& e.exec_line@ == st.command
    &&& e.icon@ == st.icon
    &&& e.comment@ == st.comment
    &&& e.is_visible == ((st.entry_type.len() == 0 || st.entry_type == "Application"@) && !st.no_display && !st.hidden)
    &&& e.runs_in_terminal == st.terminal
}

fn value_is_true(v: &[char]) -> (r: bool)
    ensures
        r == is_true(v@),
{
    let t = trim_chars(v);
    eq_ignore_case(&t, &chars_of("true"))
}

/// The launcher described by a `.desktop` file, when its main section names
/// a command.
pub fn parse_entry(path: &str, content: &str) -> (r: Option<DesktopEntry>)
    ensures
        r matches Some(e) ==> entry_matches(e, path@, content@),
        r is None <==> entry_scan(lines_of(content@)).command.len() == 0,
{
    let text = chars_of(content);
    let ls = lines(&text);
    let ghost lv = views(ls@);
    let mut in_entry = false;
    let mut name: Vec<char> = Vec::new();
    let mut exec: Vec<char> = Vec::new();
    let mut icon: Vec<char> = Vec::new();
    let mut comment: Vec<char> = Vec::new();
    let mut entry_type: Vec<char> = Vec::new();
    let mut no_display = false;
    let mut hidden = false;
    let mut terminal = false;
    let mut i: usize = 0;
    while i < ls.len()
        invariant
            lv == views(ls@),
            lv == lines_of(content@),
            i <= ls@.len(),
            (EntryState {
                in_entry,
                name: name@,
                command: exec@,
                icon: icon@,
                comment: comment@,
                entry_type: entry_type@,
                no_display,
                hidden,
                terminal,
            }) == entry_scan(lv.subrange(0, i as int)),
        decreases ls@.len() - i,
    {
        proof {
            assert(lv.subrange(0, i + 1).drop_last() =~= lv.subrange(0, i as int));
            assert(lv.subrange(0, i + 1).last() == ls@[i as int]@);
        }
        let line = trim_chars(&ls[i]);
        let n = line.len();
        if n > 0 && line[0] == '[' && line[n - 1] == ']' {
            in_entry = is_lit(&line, "[Desktop Entry]");
        } else if !in_entry {
        } else {
            let vname = strip_lit(&line, "Name=");
            let vexec = strip_lit(&line, "Exec=");
            let vicon = strip_lit(&line, "Icon=");
            let vcomment = strip_lit(&line, "Comment=");
            let vtype = strip_lit(&line, "Type=");
            if name.len() == 0 && vname.is_some() {
                name = trim_chars(&vname.unwrap());
            } else if exec.len() == 0 && vexec.is_some() {
                exec = trim_chars(&vexec.unwrap());
            } else if icon.len() == 0 && vicon.is_some() {
                icon = trim_chars(&vicon.unwrap());
            } else if comment.len() == 0 && vcomment.is_some() {
                comment = trim_chars(&vcomment.unwrap());
            } else if entry_type.len() == 0 && vtype.is_some() {
                entry_type = trim_chars(&vtype.unwrap());
            } else {
                match strip_lit(&line, "NoDisplay=") {
                    Some(v) => {
                        no_display = value_is_true(&v);
                    },
                    None => match strip_lit(&line, "Hidden=") {
                        Some(v) => {
                            hidden = value_is_true(&v);
                        },
                        None => match strip_lit(&line, "Terminal=") {
                            Some(v) => {
                                terminal = value_is_true(&v);
                            },
                            None => {},
                        },
                    },
                }
            }
        }
        i += 1;
    }
    proof {
        assert(lv.subrange(0, ls@.len() as int) =~= lv);
    }
    if exec.len() == 0 {
        return None;
    }
    let name_text = if name.len() == 0 {
        match file_stem(path) {
            Some(stem) => stem,
            None => string_of(&name),
        }
    } else {
        string_of(&name)
    };
    let type_is_application = is_lit(&entry_type, "Application");
    let ghost st = entry_scan(lines_of(content@));
    proof {
        assert(st.command == exec@);
        assert(st.name == name@);
        assert(st.entry_type == entry_type@);
    }
    let e = DesktopEntry {
        file_path: string_of(&chars_of(path)),
        name: name_text,
        exec_line: string_of(&exec),
        icon: string_of(&icon),
        comment: string_of(&comment),
        is_visible: (entry_type.len() == 0 || type_is_application) && !no_display && !hidden,
        runs_in_terminal: terminal,
    };
    proof {
        assert(e.file_path@ == path@);
        assert(e.exec_line@ == st.command);
        assert(e.icon@ == st.icon);
        assert(e.is_visible == ((st.entry_type.len() == 0 || st.entry_type == "Application"@) && !st.no_display && !st.hidden));
        assert(e.runs_in_terminal == st.terminal);
        assert(e.comment@ == st.comment);
        assert(e.name@ == (if st.name.len() == 0 {
            match path_file_stem(path@) {
                Some(stem) => stem,
                None => Seq::empty(),
            }
        } else {
            st.name
        }));
        assert(entry_matches(e, path@, content@));
    }
    Some(e)
}

/// Adds `entry` unless a launcher from the same file is already listed.
pub fn push_entry_once(entries: &mut Vec<DesktopEntry>, entry: DesktopEntry)
    ensures
        (exists|k: int| 0 <= k < old(entries)@.len() && #[trigger] old(entries)@[k].file_path@ == entry.file_path@) ==> final(entries)@ == old(entries)@,
        !(exists|k: int| 0 <= k < old(entries)@.len() && #[trigger] old(entries)@[k].file_path@ == entry.file_path@) ==> final(entries)@ == old(entries)@.push(entry),
{
    let mut k: usize = 0;
    while k < entries.len()
        invariant
            entries@ == old(entries)@,
            k <= entries@.len(),
            forall|j: int| 0 <= j < k ==> #[trigger] entries@[j].file_path@ != entry.file_path@,
        decreases entries@.len() - k,
    {
        if entries[k].file_path == entry.file_path {
            return;
        }
        k += 1;
    }
    entries.push(entry);
}

/// A launcher's command names this executable: its path, its link target,
/// or, for a bare command name, its name or its target's name.
pub open spec fn command_names_binary(command: Seq<char>, command_name: Seq<char>, binary: BinaryInfo) -> bool {
    ||| command == binary.path@
    ||| (binary.is_symlink && command == binary.target@)
    ||| (!command.contains('/') && (command_name == binary.name@ || (binary.is_symlink && path_file_name(binary.target@) == Some(command_name))))
}

/// Whether a launcher's command (and its file name) names `binary`.
pub fn command_matches_binary(command: &str, command_name: &str, binary: &BinaryInfo) -> (r: bool)
    ensures
        r == command_names_binary(command@, command_name@, *binary),
{
    let c = chars_of(command);
    let cn = chars_of(command_name);
    let path = chars_of(binary.path.as_str());
    if chars_eq(&c, &path) {
        return true;
    }
    let target = chars_of(binary.target.as_str());
    if binary.is_symlink && chars_eq(&c, &target) {
        return true;
    }
    if crate::text::has_char(&c, '/') {
        return false;
    }
    let bname = chars_of(binary.name.as_str());
    if chars_eq(&cn, &bname) {
        return true;
    }
    if !binary.is_symlink {
        return false;
    }
    match file_name(binary.target.as_str()) {
        Some(tn) => {
            let t = chars_of(tn.as_str());
            chars_eq(&cn, &t)
        },
        None => false,
    }
}

/// The launcher's file name (without `.desktop`) is the program's name, or
/// ends with `.<name>`, ignoring ASCII case.
pub open spec fn desktop_id_matches(file_path: Seq<char>, app_name: Seq<char>) -> bool {
    match path_file_stem(file_path) {
        Some(id) => eq_ignore_ascii_case(id, app_name) || match rsplit_once(id, '.') {
            Some(parts) => eq_ignore_ascii_case(parts.1, app_name),
            None => false,
        },
        None => false,
    }
}

pub fn desktop_id_matches_app(entry: &DesktopEntry, app_name: &str) -> (r: bool)
    ensures
        r == desktop_id_matches(entry.file_path@, app_name@),
{
    let a = chars_of(app_name);
    match file_stem(entry.file_path.as_str()) {
        Some(id) => {
            let idc = chars_of(id.as_str());
            if eq_ignore_case(&idc, &a) {
                return true;
            }
            match rsplit_once_chars(&idc, '.') {
                Some((_, suffix)) => eq_ignore_case(&suffix, &a),
                None => false,
            }
        },
        None => false,
    }
}

/// A launcher belongs to a program: its command names one of the program's
/// executables, or its file is named after the program.
pub open spec fn entry_names_app(entry: DesktopEntry, app: crate::models::AppItem) -> bool {
    match exec_program(entry.exec_line@) {
        Some(command) => {
            (exists|k: int| 0 <= k < app.binaries@.len() && #[trigger] command_names_binary(command, command_file_name(command), app.binaries@[k]))
                || desktop_id_matches(entry.file_path@, app.name@)
        },
        None => false,
    }
}

/// The file name of a command, or the command itself when it has none.
pub open spec fn command_file_name(command: Seq<char>) -> Seq<char> {
    match path_file_name(command) {
        Some(n) => n,
        None => command,
    }
}

pub fn entry_matches_app(entry: &DesktopEntry, app: &crate::models::AppItem) -> (r: bool)
    ensures
        r == entry_names_app(*entry, *app),
{
    let command = match desktop_exec_command(entry.exec_line.as_str()) {
        Some(c) => c,
        None => return false,
    };
    let command_name = match file_name(command.as_str()) {
        Some(n) => n,
        None => command.clone(),
    };
    proof {
        assert(exec_program(entry.exec_line@) == Some(command@));
        assert(command_name@ == command_file_name(command@));
    }
    let mut k: usize = 0;
    while k < app.binaries.len()
        invariant
            exec_program(entry.exec_line@) == Some(command@),
            command_name@ == command_file_name(command@),
            k <= app.binaries@.len(),
            forall|j: int| 0 <= j < k ==> !#[trigger] command_names_binary(command@, command_name@, app.binaries@[j]),
        decreases app.binaries@.len() - k,
    {
        if command_matches_binary(command.as_str(), command_name.as_str(), &app.binaries[k]) {
            proof {
                assert(command_names_binary(command@, command_file_name(command@), app.binaries@[k as int]));
                assert(exists|j: int| 0 <= j < app.binaries@.len() && #[trigger] command_names_binary(command@, command_file_name(command@), app.binaries@[j]));
                assert(exec_program(entry.exec_line@) == Some(command@));
                let cmd = exec_program(entry.exec_line@).unwrap();
                assert(cmd == command@);
                assert(command_names_binary(cmd, command_file_name(cmd), app.binaries@[k as int]));
                assert(entry_names_app(*entry, *app));
            }
            return true;
        }
        k += 1;
    }
    desktop_id_matches_app(entry, app.name.as_str())
}

/// The directories searched for launchers, with how deep below each the
/// search goes.
pub open spec fn launcher_directory_list(home: Seq<char>) -> Seq<(Seq<char>, usize)> {
    seq![
        (crate::executables::path_joined(home, ".local/share/applications"@), 0usize),
        ("/usr/share/applications"@, 0usize),
        ("/usr/local/share/applications"@, 0usize),
        ("/opt"@, 4usize),
    ]
}

pub open spec fn depth_views(v: Seq<(String, usize)>) -> Seq<(Seq<char>, usize)> {
    v.map_values(|p: (String, usize)| (p.0@, p.1))
}

pub fn launcher_directories(home: &str) -> (r: Vec<(String, usize)>)
    ensures
        depth_views(r@) == launcher_directory_list(home@),
{
    let mut r: Vec<(String, usize)> = Vec::new();
    r.push((crate::executables::join_path(home, ".local/share/applications"), 0));
    r.push(("/usr/share/applications".to_string(), 0));
    r.push(("/usr/local/share/applications".to_string(), 0));
    r.push(("/opt".to_string(), 4));
    proof {
        assert(depth_views(r@) =~= launcher_directory_list(home@));
    }
    r
}

/// The most entries the search below one directory looks at.
pub open spec fn launcher_entry_limit() -> int {
    2000
}

/// A search for launchers below one directory, depth first: the directories
/// still to list with their depth, the deepest level to enter, how many
/// entries have been seen, and whether the search stopped at its limit.
pub struct LauncherWalk {
    pub pending: Vec<(String, usize)>,
    pub max_depth: usize,
    pub seen: usize,
    pub stopped: bool,
}

impl LauncherWalk {
    pub open spec fn well_formed(&self) -> bool {
        &&& self.seen <= launcher_entry_limit() + 1
        &&& (self.seen > launcher_entry_limit() ==> self.stopped)
        &&& forall|k: int| 0 <= k < self.pending@.len() ==> (#[trigger] self.pending@[k]).1 <= self.max_depth
    }

    pub fn new(root: &str, max_depth: usize) -> (w: Self)
        ensures
            w.well_formed(),
            depth_views(w.pending@) == seq![(root@, 0usize)],
            w.max_depth == max_depth,
            w.seen == 0,
            !w.stopped,
    {
        let mut pending: Vec<(String, usize)> = Vec::new();
        pending.push((root.to_string(), 0));
        let w = LauncherWalk { pending, max_depth, seen: 0, stopped: false };
        proof {
            assert(depth_views(w.pending@) =~= seq![(root@, 0usize)]);
        }
        w
    }

    /// The directory listed next, the one found last, unless the search
    /// stopped or nothing is left.
    pub fn next_directory(&mut self) -> (r: Option<(String, usize)>)
        requires
            old(self).well_formed(),
        ensures
            final(self).well_formed(),
            old(self).stopped || old(self).pending@.len() == 0 ==> r is None && *final(self) == *old(self),
            !(old(self).stopped || old(self).pending@.len() == 0) ==> {
                &&& r == Some(old(self).pending@.last())
                &&& final(self).pending@ == old(self).pending@.drop_last()
                &&& final(self).seen == old(self).seen
                &&& final(self).max_depth == old(self).max_depth
                &&& final(self).stopped == old(self).stopped
            },
    {
        if self.stopped || self.pending.len() == 0 {
            return None;
        }
        let next = self.pending.pop();
        proof {
            if next.is_some() {
                assert forall|k: int| 0 <= k < self.pending@.len() implies (#[trigger] self.pending@[k]).1 <= self.max_depth by {
                    assert(self.pending@[k] == old(self).pending@[k]);
                }
            }
        }
        next
    }

    /// Takes in one entry of a directory listed at `depth`, and says whether
    /// to read it as a launcher: the search stops once it has seen more
    /// entries than its limit; a directory that is not a link is searched
    /// later when it lies above the deepest level; any other entry is read
    /// when its extension is `desktop`.
    pub fn observe(&mut self, depth: usize, path: String, is_plain_dir: bool) -> (read: bool)
        requires
            old(self).well_formed(),
            depth <= old(self).max_depth,
        ensures
            final(self).well_formed(),
            final(self).max_depth == old(self).max_depth,
            old(self).stopped ==> !read && *final(self) == *old(self),
            !old(self).stopped ==> final(self).seen == old(self).seen + 1,
            !old(self).stopped && old(self).seen + 1 > launcher_entry_limit() ==> !read && final(self).stopped
                && final(self).pending@ == old(self).pending@,
            !old(self).stopped && old(self).seen + 1 <= launcher_entry_limit() ==> {
                &&& !final(self).stopped
                &&& if is_plain_dir && depth < old(self).max_depth {
                    &&& !read
                    &&& depth_views(final(self).pending@) == depth_views(old(self).pending@).push((path@, (depth + 1) as usize))
                } else {
                    &&& read == (crate::paths::path_extension(path@) == Some("desktop"@))
                    &&& final(self).pending@ == old(self).pending@
                }
            },
    {
        if self.stopped {
            return false;
        }
        self.seen = self.seen + 1;
        if self.seen > 2000 {
            self.stopped = true;
            return false;
        }
        if is_plain_dir && depth < self.max_depth {
            let ghost before = self.pending@;
            self.pending.push((path, depth + 1));
            proof {
                assert(depth_views(self.pending@) =~= depth_views(before).push((self.pending@.last().0@, (depth + 1) as usize)));
                assert forall|k: int| 0 <= k < self.pending@.len() implies (#[trigger] self.pending@[k]).1 <= self.max_depth by {
                    if k < before.len() {
                        assert(self.pending@[k] == before[k]);
                    }
                }
            }
            return false;
        }
        match crate::paths::extension(path.as_str()) {
            Some(e) => is_lit(&chars_of(e.as_str()), "desktop"),
            None => false,
        }
    }
}

/// A `Hidden=` line in the launcher section sets the hidden flag to what it
/// says and leaves the rest of what was read as it was.
proof fn lemma_hidden_line(st: EntryState, v: Seq<char>)
    requires
        st.in_entry,
    ensures
        entry_step(st, "Hidden="@ + v) == (EntryState { hidden: is_true(v), ..st }),
{
    reveal_strlit("Hidden=");
    reveal_strlit("Name=");
    reveal_strlit("Exec=");
    reveal_strlit("Icon=");
    reveal_strlit("Comment=");
    reveal_strlit("Type=");
    reveal_strlit("NoDisplay=");
    let line = "Hidden="@ + v;
    assert(line[0] == 'H');
    assert(line.subrange(0, 7) =~= "Hidden="@);
    assert(line.subrange(7, line.len() as int) =~= v);
    assert(!starts_with(line, "Name="@)) by { assert(line.subrange(0, 5)[0] != "Name="@[0]); }
    assert(!starts_with(line, "Exec="@)) by { assert(line.subrange(0, 5)[0] != "Exec="@[0]); }
    assert(!starts_with(line, "Icon="@)) by { assert(line.subrange(0, 5)[0] != "Icon="@[0]); }
    assert(!starts_with(line, "Comment="@)) by {
        if line.len() >= 8 {
            assert(line.subrange(0, 8)[0] != "Comment="@[0]);
        }
    }
    assert(!starts_with(line, "Type="@)) by { assert(line.subrange(0, 5)[0] != "Type="@[0]); }
    assert(!starts_with(line, "NoDisplay="@)) by {
        if line.len() >= 10 {
            assert(line.subrange(0, 10)[0] != "NoDisplay="@[0]);
        }
    }
}

/// A `NoDisplay=` line in the launcher section sets that flag to what it
/// says and leaves the rest of what was read as it was.
proof fn lemma_no_display_line(st: EntryState, v: Seq<char>)
    requires
        st.in_entry,
    ensures
        entry_step(st, "NoDisplay="@ + v) == (EntryState { no_display: is_true(v), ..st }),
{
    reveal_strlit("NoDisplay=");
    reveal_strlit("Name=");
    reveal_strlit("Exec=");
    reveal_strlit("Icon=");
    reveal_strlit("Comment=");
    reveal_strlit("Type=");
    let line = "NoDisplay="@ + v;
    assert(line[0] == 'N');
    assert(line.subrange(0, 10) =~= "NoDisplay="@);
    assert(line.subrange(10, line.len() as int) =~= v);
    assert(!starts_with(line, "Name="@)) by { assert(line.subrange(0, 5)[1] != "Name="@[1]); }
    assert(!starts_with(line, "Exec="@)) by { assert(line.subrange(0, 5)[0] != "Exec="@[0]); }
    assert(!starts_with(line, "Icon="@)) by { assert(line.subrange(0, 5)[0] != "Icon="@[0]); }
    assert(!starts_with(line, "Comment="@)) by { assert(line.subrange(0, 8)[0] != "Comment="@[0]); }
    assert(!starts_with(line, "Type="@)) by { assert(line.subrange(0, 5)[0] != "Type="@[0]); }
}

/// A launcher is shown only when it is an application (or untyped) that is
/// neither hidden nor kept off menus; in particular, a launcher whose
/// section ends with `Hidden=true` or `NoDisplay=true` (in any case, with
/// any spaces around the value) is not shown, whatever came before.
pub proof fn lemma_hidden_launchers_are_not_shown(e: DesktopEntry, path: Seq<char>, content: Seq<char>, ls: Seq<Seq<char>>, line: Seq<char>, v: Seq<char>)
    requires
        entry_matches(e, path, content),
    ensures
        e.is_visible ==> {
            let st = entry_scan(lines_of(content));
            &&& !st.hidden
            &&& !st.no_display
            &&& (st.entry_type.len() == 0 || st.entry_type == "Application"@)
        },
        lines_of(content) == ls.push(line) && entry_scan(ls).in_entry && is_true(v)
            && (trim(line) == "Hidden="@ + v || trim(line) == "NoDisplay="@ + v) ==> !e.is_visible,
{
    if lines_of(content) == ls.push(line) && entry_scan(ls).in_entry && is_true(v) {
        let all = ls.push(line);
        assert(all.drop_last() =~= ls);
        assert(entry_scan(all) == entry_step(entry_scan(ls), trim(line)));
        if trim(line) == "Hidden="@ + v {
            lemma_hidden_line(entry_scan(ls), v);
        } else if trim(line) == "NoDisplay="@ + v {
            lemma_no_display_line(entry_scan(ls), v);
        }
    }
}

} // verus!
