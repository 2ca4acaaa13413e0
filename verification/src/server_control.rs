//! Running a Minecraft server on a remote machine: which OS it runs, the
//! launch script, and the commands sent over SSH.
use vstd::prelude::*;
use vstd::string::StringExecFns;
use base64::Engine;
use crate::text::{char_is_alnum, chars_of, contains, contains_str, ends_with, ends_with_str, eq_str, is_alnum, join, join_strings, lower, opt_view, replace_char, replace_char_chars, slice_chars, string_of, string_views, to_lower, trim, trim_chars, trim_end, trim_end_char, trim_end_char_chars, trim_start, trim_string, trimmed};

verus! {

#[derive(Clone, Copy, Debug, PartialEq, Eq, Structural)]
pub enum RemoteOs {
    Windows,
    Linux,
}

impl RemoteOs {
    pub fn as_str(self) -> (r: &'static str)
        ensures
            r@ == match self {
                RemoteOs::Windows => "windows"@,
                RemoteOs::Linux => "linux"@,
            },
    {
        match self {
            RemoteOs::Windows => "windows",
            RemoteOs::Linux => "linux",
        }
    }
}

/// The OS a setting names: `Some` for a fixed OS, `None` for automatic
/// detection; an unknown name is an error.
pub open spec fn os_setting_of(setting: Seq<char>) -> Result<Option<RemoteOs>, Seq<char>> {
    let s = lower(trim(setting));
    if s == "windows"@ || s == "win"@ {
        Ok(Some(RemoteOs::Windows))
    } else if s == "linux"@ {
        Ok(Some(RemoteOs::Linux))
    } else if s == "auto"@ || s.len() == 0 {
        Ok(None)
    } else {
        Err("Неизвестная ОС сервера «"@ + setting + "». Используйте auto, windows или linux."@)
    }
}

pub fn os_setting(setting: &str) -> (r: Result<Option<RemoteOs>, String>)
    ensures
        match r {
            Ok(o) => os_setting_of(setting@) == Ok::<Option<RemoteOs>, Seq<char>>(o),
            Err(e) => os_setting_of(setting@) == Err::<Option<RemoteOs>, Seq<char>>(e@),
        },
{
    let t = trimmed(setting);
    let s = to_lower(&t);
    if eq_str(&s, "windows") || eq_str(&s, "win") {
        Ok(Some(RemoteOs::Windows))
    } else if eq_str(&s, "linux") {
        Ok(Some(RemoteOs::Linux))
    } else if eq_str(&s, "auto") || s.len() == 0 {
        Ok(None)
    } else {
        let mut m = "Неизвестная ОС сервера «".to_string();
        m.append(setting);
        m.append("». Используйте auto, windows или linux.");
        Err(m)
    }
}

/// The OS a probe's output (`ver` or `uname -s`) names; Windows when unsure.
pub open spec fn os_from_probe_text(text: Seq<char>) -> RemoteOs {
    let l = lower(text);
    if contains(l, "windows"@) || contains(l, "microsoft"@) {
        RemoteOs::Windows
    } else if contains(l, "linux"@) {
        RemoteOs::Linux
    } else {
        RemoteOs::Windows
    }
}

pub fn os_from_probe(text: &str) -> (r: RemoteOs)
    ensures
        r == os_from_probe_text(text@),
{
    let v = chars_of(text);
    let l = to_lower(&v);
    if contains_str(&l, "windows") || contains_str(&l, "microsoft") {
        RemoteOs::Windows
    } else if contains_str(&l, "linux") {
        RemoteOs::Linux
    } else {
        RemoteOs::Windows
    }
}

// ---------------------------------------------------------------------------
// The launch script
// ---------------------------------------------------------------------------

pub open spec fn is_path_sep(c: char) -> bool {
    c == '/' || c == '\\'
}

/// What follows the last `/` or `\` (all of it when there is none).
pub open spec fn last_segment(s: Seq<char>) -> Seq<char>
    decreases s.len(),
{
    if s.len() == 0 {
        s
    } else if is_path_sep(s.last()) {
        Seq::<char>::empty()
    } else {
        last_segment(s.drop_last()).push(s.last())
    }
}

pub fn last_segment_chars(v: &[char]) -> (r: Vec<char>)
    ensures
        r@ == last_segment(v@),
{
    let mut i: usize = v.len();
    while i > 0 && !(v[i - 1] == '/' || v[i - 1] == '\\')
        invariant
            i <= v@.len(),
            forall|k: int| i <= k < v@.len() ==> !is_path_sep(#[trigger] v@[k]),
        decreases i,
    {
        i = i - 1;
    }
    proof {
        lemma_last_segment(v@, i as int);
    }
    slice_chars(v, i, v.len())
}

proof fn lemma_last_segment(s: Seq<char>, i: int)
    requires
        0 <= i <= s.len(),
        i == 0 || is_path_sep(s[i - 1]),
        forall|k: int| i <= k < s.len() ==> !is_path_sep(#[trigger] s[k]),
    ensures
        last_segment(s) == s.subrange(i, s.len() as int),
    decreases s.len(),
{
    if s.len() > i {
        lemma_last_segment(s.drop_last(), i);
        assert(s.subrange(i, s.len() as int) =~= s.drop_last().subrange(i, s.len() - 1).push(s.last()));
    } else if s.len() > 0 {
        assert(is_path_sep(s.last()));
    }
}

pub struct ServerStartConfig {
    pub launch_script: String,
}

pub struct LaunchCommand {
    pub script: String,
    pub extra_args: Vec<String>,
}

impl ServerStartConfig {
    pub fn from_settings(launch_script: &str) -> (r: Self)
        ensures
            r.launch_script@ == trim(launch_script@),
    {
        ServerStartConfig { launch_script: trim_string(launch_script) }
    }

    pub fn validate_for_start(&self) -> (r: Result<(), String>)
        ensures
            r is Ok <==> trim(self.launch_script@).len() > 0,
            r matches Err(e) ==> e@ == "Укажите скрипт запуска в корне сервера."@,
    {
        let t = trimmed(self.launch_script.as_str());
        if t.len() == 0 {
            return Err("Укажите скрипт запуска в корне сервера.".to_string());
        }
        Ok(())
    }

    /// The script and its arguments: Forge's `run.bat` / `run.sh` get `nogui`.
    pub fn launch_command(&self) -> (r: LaunchCommand)
        ensures
            r.script@ == trim(self.launch_script@),
            string_views(r.extra_args@) == if lower(last_segment(trim(self.launch_script@)))
                == "run.bat"@ || lower(last_segment(trim(self.launch_script@))) == "run.sh"@ {
                seq!["nogui"@]
            } else {
                Seq::<Seq<char>>::empty()
            },
    {
        let t = trimmed(self.launch_script.as_str());
        let leaf = last_segment_chars(&t);
        let name = to_lower(&leaf);
        let mut extra_args: Vec<String> = Vec::new();
        if eq_str(&name, "run.bat") || eq_str(&name, "run.sh") {
            extra_args.push("nogui".to_string());
            assert(string_views(extra_args@) =~= seq!["nogui"@]);
        } else {
            assert(string_views(extra_args@) =~= Seq::<Seq<char>>::empty());
        }
        LaunchCommand { script: string_of(&t), extra_args }
    }
}

/// Characters not allowed in a file name in the server's root.
pub open spec fn forbidden_in_leaf(c: char) -> bool {
    c == '/' || c == '\\' || c == ':' || c == '*' || c == '?' || c == '"' || c == '<' || c == '>'
        || c == '|'
}

/// The launch script's file name, or why it cannot be one.
pub open spec fn script_leaf_of(script: Seq<char>) -> Result<Seq<char>, Seq<char>> {
    let t = trim(script);
    let leaf = last_segment(t);
    if t.len() == 0 {
        Err("Укажите скрипт запуска."@)
    } else if leaf.len() == 0 || contains(leaf, ".."@) {
        Err("Недопустимое имя скрипта."@)
    } else if exists|i: int| 0 <= i < leaf.len() && forbidden_in_leaf(#[trigger] leaf[i]) {
        Err("Имя скрипта должно быть файлом в корне сервера."@)
    } else {
        Ok(leaf)
    }
}

pub fn validate_script_leaf(script: &str) -> (r: Result<String, String>)
    ensures
        match r {
            Ok(s) => script_leaf_of(script@) == Ok::<Seq<char>, Seq<char>>(s@),
            Err(e) => script_leaf_of(script@) == Err::<Seq<char>, Seq<char>>(e@),
        },
{
    let t = trimmed(script);
    if t.len() == 0 {
        return Err("Укажите скрипт запуска.".to_string());
    }
    let leaf = last_segment_chars(&t);
    if leaf.len() == 0 || contains_str(&leaf, "..") {
        return Err("Недопустимое имя скрипта.".to_string());
    }
    let mut i: usize = 0;
    while i < leaf.len()
        invariant
            i <= leaf@.len(),
            t@ == trim(script@),
            t@.len() > 0,
            leaf@ == last_segment(t@),
            !(leaf@.len() == 0 || contains(leaf@, ".."@)),
            forall|k: int| 0 <= k < i ==> !forbidden_in_leaf(#[trigger] leaf@[k]),
        decreases leaf@.len() - i,
    {
        let c = leaf[i];
        if c == '/' || c == '\\' || c == ':' || c == '*' || c == '?' || c == '"' || c == '<' || c
            == '>' || c == '|' {
            assert(forbidden_in_leaf(leaf@[i as int]));
            return Err("Имя скрипта должно быть файлом в корне сервера.".to_string());
        }
        i = i + 1;
    }
    Ok(string_of(&leaf))
}

pub open spec fn is_quote(c: char) -> bool {
    c == '"' || c == '\''
}

pub proof fn lemma_trim_start_len(s: Seq<char>)
    ensures
        trim_start(s).len() <= s.len(),
    decreases s.len(),
{
    if s.len() > 0 {
        lemma_trim_start_len(s.drop_first());
    }
}

pub proof fn lemma_trim_end_len(s: Seq<char>)
    ensures
        trim_end(s).len() <= s.len(),
    decreases s.len(),
{
    if s.len() > 0 {
        lemma_trim_end_len(s.drop_last());
    }
}

pub proof fn lemma_trim_len(s: Seq<char>)
    ensures
        trim(s).len() <= s.len(),
{
    lemma_trim_start_len(s);
    lemma_trim_end_len(trim_start(s));
}

/// Outer quotes removed, pair by pair, trimming after each pair.
pub open spec fn unquote(s: Seq<char>) -> Seq<char>
    decreases s.len(),
{
    if s.len() >= 2 && is_quote(s[0]) && is_quote(s.last()) {
        proof {
            lemma_trim_len(s.subrange(1, s.len() - 1));
        }
        unquote(trim(s.subrange(1, s.len() - 1)))
    } else {
        s
    }
}

/// A path typed by the user: trimmed, unquoted, with `/` separators.
pub open spec fn normalized_remote_path(value: Seq<char>) -> Seq<char> {
    replace_char(unquote(trim(value)), '\\', "/"@)
}

pub fn normalize_remote_path(value: &str) -> (r: String)
    ensures
        r@ == normalized_remote_path(value@),
{
    let mut cur = trimmed(value);
    while cur.len() >= 2 && (cur[0] == '"' || cur[0] == '\'') && (cur[cur.len() - 1] == '"'
        || cur[cur.len() - 1] == '\'')
        invariant
            unquote(trim(value@)) == unquote(cur@),
        decreases cur@.len(),
    {
        let inner = slice_chars(&cur, 1, cur.len() - 1);
        proof {
            lemma_trim_len(inner@);
        }
        cur = trim_chars(&inner);
    }
    let slash = chars_of("/");
    let out = replace_char_chars(&cur, '\\', &slash);
    string_of(&out)
}

/// The remote path of the launch script: its file name in the server's root.
pub open spec fn script_path_of(server_root: Seq<char>, script: Seq<char>) -> Result<Seq<char>, Seq<char>> {
    match script_leaf_of(script) {
        Err(e) => Err(e),
        Ok(leaf) => Ok(trim_end_char(normalized_remote_path(server_root), '/') + "/"@ + leaf),
    }
}

pub fn script_remote_path(server_root: &str, script: &str) -> (r: Result<String, String>)
    ensures
        match r {
            Ok(s) => script_path_of(server_root@, script@) == Ok::<Seq<char>, Seq<char>>(s@),
            Err(e) => script_path_of(server_root@, script@) == Err::<Seq<char>, Seq<char>>(e@),
        },
{
    let leaf = match validate_script_leaf(script) {
        Ok(l) => l,
        Err(e) => return Err(e),
    };
    let root = normalize_remote_path(server_root);
    let rv = chars_of(root.as_str());
    let base = trim_end_char_chars(&rv, '/');
    let mut out = string_of(&base);
    out.append("/");
    out.append(leaf.as_str());
    Ok(out)
}

/// A character kept in a temporary file's name; others become `_`.
pub open spec fn safe_char(c: char, allow_dot: bool) -> char {
    if is_alnum(c) || c == '-' || c == '_' || (allow_dot && c == '.') {
        c
    } else {
        '_'
    }
}

pub open spec fn safe_name(s: Seq<char>, allow_dot: bool) -> Seq<char> {
    s.map_values(|c: char| safe_char(c, allow_dot))
}

fn safe_name_chars(v: &[char], allow_dot: bool) -> (r: Vec<char>)
    ensures
        r@ == safe_name(v@, allow_dot),
{
    let mut r: Vec<char> = Vec::new();
    let mut i: usize = 0;
    while i < v.len()
        invariant
            i <= v@.len(),
            r@ == safe_name(v@.take(i as int), allow_dot),
        decreases v@.len() - i,
    {
        let c = v[i];
        let k = if char_is_alnum(c) || c == '-' || c == '_' || (allow_dot && c == '.') {
            c
        } else {
            '_'
        };
        r.push(k);
        assert(safe_name(v@.take(i + 1), allow_dot) =~= safe_name(v@.take(i as int), allow_dot).push(k));
        i = i + 1;
    }
    assert(v@.take(v@.len() as int) =~= v@);
    r
}

/// The name of the local file a launch script is copied through.
pub fn temp_file_name(host: &str, leaf: &str, suffix: &str) -> (r: String)
    ensures
        r@ == "mod-manager-launch-"@ + safe_name(host@, false) + "-"@ + safe_name(leaf@, true) + "-"@
            + suffix@,
{
    let h = chars_of(host);
    let l = chars_of(leaf);
    let sh = safe_name_chars(&h, false);
    let sl = safe_name_chars(&l, true);
    let mut out = "mod-manager-launch-".to_string();
    out.append(string_of(&sh).as_str());
    out.append("-");
    out.append(string_of(&sl).as_str());
    out.append("-");
    out.append(suffix);
    out
}

/// A failed download of the launch script: a missing file is said plainly.
pub open spec fn script_download_error_of(error: Seq<char>) -> Seq<char> {
    if contains(error, "No such file"@) || contains(error, "not found"@) {
        "Скрипт запуска не найден в корне сервера."@
    } else {
        error
    }
}

pub fn script_download_error(error: String) -> (r: String)
    ensures
        r@ == script_download_error_of(error@),
{
    let v = chars_of(error.as_str());
    if contains_str(&v, "No such file") || contains_str(&v, "not found") {
        "Скрипт запуска не найден в корне сервера.".to_string()
    } else {
        error
    }
}

// ---------------------------------------------------------------------------
// Quoting and commands
// ---------------------------------------------------------------------------

/// A value inside single quotes for a POSIX shell.
pub open spec fn shell_quoted(value: Seq<char>) -> Seq<char> {
    "'"@ + replace_char(value, '\'', "'\"'\"'"@) + "'"@
}

pub fn shell_single_quoted(value: &str) -> (r: String)
    ensures
        r@ == shell_quoted(value@),
{
    let v = chars_of(value);
    let rep = chars_of("'\"'\"'");
    let body = replace_char_chars(&v, '\'', &rep);
    let mut out = "'".to_string();
    out.append(string_of(&body).as_str());
    out.append("'");
    out
}

/// A value for inside a PowerShell single-quoted string.
pub open spec fn powershell_escaped(path: Seq<char>) -> Seq<char> {
    replace_char(path, '\'', "''"@)
}

pub fn powershell_literal(path: &str) -> (r: String)
    ensures
        r@ == powershell_escaped(path@),
{
    let v = chars_of(path);
    let rep = chars_of("''");
    let out = replace_char_chars(&v, '\'', &rep);
    string_of(&out)
}

/// A Windows path in double quotes for `cmd`: backslashes, no trailing one,
/// no double quotes inside.
pub open spec fn cmd_quoted(path: Seq<char>) -> Seq<char> {
    "\""@ + replace_char(trim_end_char(replace_char(path, '/', "\\"@), '\\'), '"', Seq::<char>::empty())
        + "\""@
}

pub fn cmd_quoted_path(path: &str) -> (r: String)
    ensures
        r@ == cmd_quoted(path@),
{
    let v = chars_of(path);
    let bs = chars_of("\\");
    let a = replace_char_chars(&v, '/', &bs);
    let b = trim_end_char_chars(&a, '\\');
    let none: Vec<char> = Vec::new();
    let c = replace_char_chars(&b, '"', &none);
    let mut out = "\"".to_string();
    out.append(string_of(&c).as_str());
    out.append("\"");
    out
}

/// The words joined by single spaces.
pub open spec fn spaced(words: Seq<Seq<char>>) -> Seq<char> {
    join(words, " "@)
}

/// What `cmd` runs in the server's root to start it: `.bat` scripts through
/// `call`, with the launch arguments.
pub open spec fn start_command_of(server_root: Seq<char>, script: Seq<char>, args: Seq<Seq<char>>) -> Seq<char> {
    let leaf = last_segment(script);
    let run = if ends_with(lower(leaf), ".bat"@) {
        "call "@ + leaf
    } else {
        leaf
    };
    let run = if args.len() > 0 {
        run + " "@ + spaced(args)
    } else {
        run
    };
    "cd /d "@ + cmd_quoted(server_root) + " && "@ + run
}

pub fn build_start_command(server_root: &str, start: &ServerStartConfig) -> (r: String)
    ensures
        r@ == start_command_of(
            server_root@,
            trim(start.launch_script@),
            if lower(last_segment(trim(start.launch_script@))) == "run.bat"@ || lower(
                last_segment(trim(start.launch_script@)),
            ) == "run.sh"@ {
                seq!["nogui"@]
            } else {
                Seq::<Seq<char>>::empty()
            },
        ),
{
    let launch = start.launch_command();
    let root = cmd_quoted_path(server_root);
    let sv = chars_of(launch.script.as_str());
    let leaf = last_segment_chars(&sv);
    let lower_leaf = to_lower(&leaf);
    let leaf_s = string_of(&leaf);
    let mut run = if ends_with_str(&lower_leaf, ".bat") {
        let mut c = "call ".to_string();
        c.append(leaf_s.as_str());
        c
    } else {
        leaf_s
    };
    if launch.extra_args.len() > 0 {
        run.append(" ");
        let joined = join_strings(&launch.extra_args, " ");
        run.append(joined.as_str());
    }
    let mut out = "cd /d ".to_string();
    out.append(root.as_str());
    out.append(" && ");
    out.append(run.as_str());
    out
}

/// The path of the launch script as `cmd` checks it exists.
pub open spec fn windows_script_path_of(server_root: Seq<char>, leaf: Seq<char>) -> Seq<char> {
    cmd_quoted(trim_end_char(trim_end_char(server_root, '/'), '\\') + "/"@ + leaf)
}

pub fn windows_script_path(server_root: &str, leaf: &str) -> (r: String)
    ensures
        r@ == windows_script_path_of(server_root@, leaf@),
{
    let v = chars_of(server_root);
    let a = trim_end_char_chars(&v, '/');
    let b = trim_end_char_chars(&a, '\\');
    let mut p = string_of(&b);
    p.append("/");
    p.append(leaf);
    cmd_quoted_path(p.as_str())
}

/// The markers the remote scripts throw, in words.
pub open spec fn remote_error_of(detail: Seq<char>) -> Option<Seq<char>> {
    let text = trim(detail);
    if contains(text, "MM_SCRIPT_NOT_FOUND"@) {
        Some("Скрипт запуска не найден в корне сервера."@)
    } else if contains(text, "MM_ROOT_MISSING"@) {
        Some("Папка сервера не найдена на удалённой машине."@)
    } else if contains(text, "MM_ROOT_NOT_DIR"@) {
        Some("Путь должен указывать на папку."@)
    } else if contains(text, "MM_NO_NEOFORGE"@) {
        Some("Не найден NeoForge в libraries/net/neoforged/neoforge."@)
    } else if contains(text, "MM_SCRIPT_START_FAILED"@) {
        Some("Не удалось запустить скрипт на сервере."@)
    } else if contains(detail, "$root"@) || contains(detail, "ParserError"@) || contains(
        detail,
        "At line:"@,
    ) {
        Some("Ошибка удалённого скрипта."@)
    } else {
        None
    }
}

pub fn explain_remote_error(detail: &str) -> (r: Option<String>)
    ensures
        opt_view(r) == remote_error_of(detail@),
{
    let d = chars_of(detail);
    let text = trim_chars(&d);
    if contains_str(&text, "MM_SCRIPT_NOT_FOUND") {
        return Some("Скрипт запуска не найден в корне сервера.".to_string());
    }
    if contains_str(&text, "MM_ROOT_MISSING") {
        return Some("Папка сервера не найдена на удалённой машине.".to_string());
    }
    if contains_str(&text, "MM_ROOT_NOT_DIR") {
        return Some("Путь должен указывать на папку.".to_string());
    }
    if contains_str(&text, "MM_NO_NEOFORGE") {
        return Some("Не найден NeoForge в libraries/net/neoforged/neoforge.".to_string());
    }
    if contains_str(&text, "MM_SCRIPT_START_FAILED") {
        return Some("Не удалось запустить скрипт на сервере.".to_string());
    }
    if contains_str(&d, "$root") || contains_str(&d, "ParserError") || contains_str(&d, "At line:") {
        return Some("Ошибка удалённого скрипта.".to_string());
    }
    None
}

/// The text a failed remote command is judged by: its error output, or its
/// normal output when that is empty.
pub fn failure_detail(stderr: &str, stdout: &str) -> (r: String)
    ensures
        r@ == if trim(stderr@).len() > 0 {
            trim(stderr@)
        } else {
            trim(stdout@)
        },
{
    let e = trim_string(stderr);
    if !e.as_str().is_empty() {
        e
    } else {
        trim_string(stdout)
    }
}

/// The PowerShell line that sets `$root` to the server's root.
pub open spec fn assign_root_of(root: Seq<char>) -> Seq<char> {
    "$root = '"@ + powershell_escaped(root) + "'.Replace('/', '\\').TrimEnd('\\')"@
}

pub fn assign_root(root: &str) -> (r: String)
    ensures
        r@ == assign_root_of(root@),
{
    let mut out = "$root = '".to_string();
    out.append(powershell_literal(root).as_str());
    out.append("'.Replace('/', '\\').TrimEnd('\\')");
    out
}

/// The shell command that checks the server's root is a directory.
pub fn linux_validate_command(server_root: &str) -> (r: String)
    ensures
        r@ == "test -d "@ + shell_quoted(server_root@),
{
    let mut out = "test -d ".to_string();
    out.append(shell_single_quoted(server_root).as_str());
    out
}

/// The shell command that prints `running` while a Java process runs from
/// the server's root.
pub fn linux_is_running_command(server_root: &str) -> (r: String)
    ensures
        r@ == "pgrep -af java 2>/dev/null | grep -F "@ + shell_quoted(server_root@)
            + " >/dev/null && echo running || true"@,
{
    let mut out = "pgrep -af java 2>/dev/null | grep -F ".to_string();
    out.append(shell_single_quoted(server_root).as_str());
    out.append(" >/dev/null && echo running || true");
    out
}

// ---------------------------------------------------------------------------
// Encoded PowerShell commands
// ---------------------------------------------------------------------------

/// The UTF-16 code units of one character.
pub open spec fn utf16_units(c: char) -> Seq<u16> {
    let n = c as u32;
    if n < 0x10000 {
        seq![n as u16]
    } else {
        let m = (n - 0x10000) as u32;
        seq![(0xD800 + m / 1024) as u16, (0xDC00 + m % 1024) as u16]
    }
}

pub open spec fn le_bytes16(u: u16) -> Seq<u8> {
    seq![(u % 256) as u8, (u / 256) as u8]
}

/// The UTF-16LE bytes of a text.
pub open spec fn utf16_le(s: Seq<char>) -> Seq<u8>
    decreases s.len(),
{
    if s.len() == 0 {
        Seq::<u8>::empty()
    } else {
        let us = utf16_units(s.last());
        utf16_le(s.drop_last()) + if us.len() == 1 {
            le_bytes16(us[0])
        } else {
            le_bytes16(us[0]) + le_bytes16(us[1])
        }
    }
}

proof fn lemma_utf16_le_len(s: Seq<char>)
    ensures
        utf16_le(s).len() <= 4 * s.len(),
    decreases s.len(),
{
    if s.len() > 0 {
        lemma_utf16_le_len(s.drop_last());
    }
}

fn push_u16_le(out: &mut Vec<u8>, u: u16)
    ensures
        final(out)@ == old(out)@ + le_bytes16(u),
{
    out.push((u % 256) as u8);
    out.push((u / 256) as u8);
    assert(out@ =~= old(out)@ + le_bytes16(u));
}

pub fn utf16_le_bytes(text: &str) -> (r: Vec<u8>)
    ensures
        r@ == utf16_le(text@),
{
    let v = chars_of(text);
    let mut out: Vec<u8> = Vec::new();
    let mut i: usize = 0;
    while i < v.len()
        invariant
            i <= v@.len(),
            v@ == text@,
            out@ == utf16_le(v@.take(i as int)),
        decreases v@.len() - i,
    {
        assert(v@.take(i + 1).drop_last() =~= v@.take(i as int));
        let n = v[i] as u32;
        if n < 0x10000 {
            push_u16_le(&mut out, n as u16);
        } else {
            let m = n - 0x10000;
            push_u16_le(&mut out, (0xD800 + m / 1024) as u16);
            push_u16_le(&mut out, (0xDC00 + m % 1024) as u16);
        }
        i = i + 1;
    }
    assert(v@.take(v@.len() as int) =~= v@);
    out
}

/// The character of a six-bit value in the standard base64 alphabet.
pub open spec fn base64_char(n: int) -> char {
    if n < 26 {
        ('A' as int + n) as char
    } else if n < 52 {
        ('a' as int + (n - 26)) as char
    } else if n < 62 {
        ('0' as int + (n - 52)) as char
    } else if n == 62 {
        '+'
    } else {
        '/'
    }
}

/// Standard base64 of some bytes (RFC 4648 alphabet, `=` padding): each
/// three bytes give four characters; a last one or two bytes are padded.
pub open spec fn base64_standard(bytes: Seq<u8>) -> Seq<char>
    decreases bytes.len(),
{
    if bytes.len() == 0 {
        Seq::empty()
    } else if bytes.len() == 1 {
        let a = bytes[0] as int;
        seq![base64_char(a / 4), base64_char((a % 4) * 16), '=', '=']
    } else if bytes.len() == 2 {
        let a = bytes[0] as int;
        let b = bytes[1] as int;
        seq![base64_char(a / 4), base64_char((a % 4) * 16 + b / 16), base64_char((b % 16) * 4), '=']
    } else {
        let a = bytes[0] as int;
        let b = bytes[1] as int;
        let c = bytes[2] as int;
        seq![base64_char(a / 4), base64_char((a % 4) * 16 + b / 16), base64_char((b % 16) * 4 + c / 64), base64_char(c % 64)]
            + base64_standard(bytes.subrange(3, bytes.len() as int))
    }
}

/// `base64::engine::general_purpose::STANDARD.encode`, which encodes with
/// the standard alphabet and padding. The crate panics when the output
/// length overflows `usize`, which `requires` rules out.
#[verifier::external_body]
fn base64_encode(bytes: &Vec<u8>) -> (r: String)
    requires
        bytes@.len() <= usize::MAX / 2,
    ensures
        r@ == base64_standard(bytes@),
{
    base64::engine::general_purpose::STANDARD.encode(bytes)
}

/// A script for `powershell -EncodedCommand`: base64 of its UTF-16LE bytes.
pub fn encode_powershell(script: &str) -> (r: String)
    requires
        script@.len() <= usize::MAX / 8,
    ensures
        r@ == base64_standard(utf16_le(script@)),
{
    let bytes = utf16_le_bytes(script);
    proof {
        lemma_utf16_le_len(script@);
    }
    base64_encode(&bytes)
}

// ---------------------------------------------------------------------------
// Checking, starting and stopping
// ---------------------------------------------------------------------------

/// What the interface is told after a check, start or stop.
pub open spec fn os_name(os: RemoteOs) -> Seq<char> {
    match os {
        RemoteOs::Windows => "windows"@,
        RemoteOs::Linux => "linux"@,
    }
}

pub struct ServerControlActionResult {
    pub ok: bool,
    pub running: bool,
    pub ready: bool,
    pub remote_os: String,
    pub message: String,
}

pub open spec fn status_text(running: bool, ready: bool) -> Seq<char> {
    if !running {
        "Сервер выключен."@
    } else if ready {
        "Сервер запущен."@
    } else {
        "Сервер запускается."@
    }
}

pub fn status_message(running: bool, ready: bool) -> (r: String)
    ensures
        r@ == status_text(running, ready),
{
    if !running {
        "Сервер выключен.".to_string()
    } else if ready {
        "Сервер запущен.".to_string()
    } else {
        "Сервер запускается.".to_string()
    }
}

pub fn already_running_message(ready: bool) -> (r: String)
    ensures
        r@ == if ready {
            "Сервер уже запущен."@
        } else {
            "Сервер запускается."@
        },
{
    if ready {
        "Сервер уже запущен.".to_string()
    } else {
        "Сервер запускается.".to_string()
    }
}

/// The server's root folder: the one asked for, else the configured root,
/// else the configured mods folder, each taken when not blank; the root is
/// then derived as for a mods folder.
pub open spec fn server_root_choice(override_path: Option<Seq<char>>, root_path: Seq<char>, mods_path: Seq<char>) -> Seq<char> {
    match override_path {
        Some(p) if trim(p).len() > 0 => trim(p),
        _ => if trim(root_path).len() > 0 {
            trim(root_path)
        } else if trim(mods_path).len() > 0 {
            trim(mods_path)
        } else {
            Seq::empty()
        },
    }
}

pub fn resolve_server_root(override_path: Option<&str>, root_path: &str, mods_path: &str) -> (r: Result<String, String>)
    ensures
        match crate::loader_update::server_root_of(server_root_choice(
            match override_path {
                Some(p) => Some(p@),
                None => None,
            },
            root_path@,
            mods_path@,
        )) {
            Some(root) => r matches Ok(x) && x@ == root,
            None => r matches Err(e) && e@ == "Укажите корень сервера."@,
        },
{
    let o = match override_path {
        Some(p) => {
            let t = trim_string(p);
            if t.as_str().is_empty() {
                None
            } else {
                Some(t)
            }
        },
        None => None,
    };
    let raw = match o {
        Some(t) => t,
        None => {
            let explicit = trim_string(root_path);
            if !explicit.as_str().is_empty() {
                explicit
            } else {
                let mods = trim_string(mods_path);
                if !mods.as_str().is_empty() {
                    mods
                } else {
                    String::new()
                }
            }
        },
    };
    match crate::loader_update::server_root_from_mods_path(raw.as_str()) {
        Some(root) => Ok(root),
        None => Err("Укажите корень сервера.".to_string()),
    }
}

/// The answer to a status check.
pub fn check_result(os: RemoteOs, running: bool, ready: bool) -> (r: ServerControlActionResult)
    ensures
        r.ok,
        r.running == running,
        r.ready == ready,
        r.remote_os@ == os_name(os),
        r.message@ == status_text(running, ready),
{
    ServerControlActionResult {
        ok: true,
        running,
        ready,
        remote_os: os.as_str().to_string(),
        message: status_message(running, ready),
    }
}

/// What starting does once it knows whether the server runs: a running
/// server is left alone and reported; otherwise the launch command is sent.
pub enum StartStep {
    Report(ServerControlActionResult),
    Launch,
}

pub fn start_step(os: RemoteOs, running: bool, ready: bool) -> (r: StartStep)
    ensures
        running ==> (r matches StartStep::Report(res) && res.ok && res.running && res.ready == ready
            && res.remote_os@ == os_name(os) && res.message@ == (if ready {
            "Сервер уже запущен."@
        } else {
            "Сервер запускается."@
        })),
        !running ==> r is Launch,
{
    if running {
        StartStep::Report(
            ServerControlActionResult {
                ok: true,
                running: true,
                ready,
                remote_os: os.as_str().to_string(),
                message: already_running_message(ready),
            },
        )
    } else {
        StartStep::Launch
    }
}

/// The answer once the launch command was sent.
pub fn launched_result(os: RemoteOs) -> (r: ServerControlActionResult)
    ensures
        r.ok && !r.running && !r.ready,
        r.remote_os@ == os_name(os),
        r.message@ == "Инициализация сервера…"@,
{
    ServerControlActionResult {
        ok: true,
        running: false,
        ready: false,
        remote_os: os.as_str().to_string(),
        message: "Инициализация сервера…".to_string(),
    }
}

/// Where stopping stands.
pub enum StopState {
    /// Not yet known whether the server runs.
    Checking,
    /// The stop command was sent; its error, if it failed.
    Sent(Option<String>),
    /// The server was found running again after the pause.
    Rechecked,
}

/// What stopping does next.
pub enum StopAction {
    /// Send the stop command.
    SendStop,
    /// Pause, then ask whether the server still runs.
    PauseAndCheck,
    /// Answer with this result.
    Report(ServerControlActionResult),
    /// Fail with this error.
    Fail(String),
}

/// One step of stopping: from the state and whether the server runs now, the
/// next state and what to do.
pub fn stop_step(os: RemoteOs, state: StopState, running: bool) -> (r: (StopState, StopAction))
    ensures
        match state {
            StopState::Checking => if running {
                r.0 is Checking && r.1 is SendStop
            } else {
                r.1 matches StopAction::Report(res) && res.ok && !res.running && !res.ready && res.remote_os@ == os_name(os)
                    && res.message@ == "Сервер уже выключен."@
            },
            StopState::Sent(err) => r.1 is PauseAndCheck && r.0 == StopState::Sent(err),
            StopState::Rechecked => r.1 matches StopAction::Report(res) && res.ok == !running && res.running == running
                && !res.ready && res.remote_os@ == os_name(os) && res.message@ == (if running {
                "Не удалось остановить сервер."@
            } else {
                "Сервер остановлен."@
            }),
        },
{
    match state {
        StopState::Checking => {
            if running {
                (StopState::Checking, StopAction::SendStop)
            } else {
                (
                    StopState::Checking,
                    StopAction::Report(
                        ServerControlActionResult {
                            ok: true,
                            running: false,
                            ready: false,
                            remote_os: os.as_str().to_string(),
                            message: "Сервер уже выключен.".to_string(),
                        },
                    ),
                )
            }
        },
        StopState::Sent(err) => (StopState::Sent(err), StopAction::PauseAndCheck),
        StopState::Rechecked => (
            StopState::Rechecked,
            StopAction::Report(
                ServerControlActionResult {
                    ok: !running,
                    running,
                    ready: false,
                    remote_os: os.as_str().to_string(),
                    message: if running {
                        "Не удалось остановить сервер.".to_string()
                    } else {
                        "Сервер остановлен.".to_string()
                    },
                },
            ),
        ),
    }
}

/// After the pause that follows a failed stop command: the error stands when
/// the server still runs; otherwise the stop is judged by a last check.
pub fn stop_after_pause(stop_error: Option<String>, still_running: bool) -> (r: Option<String>)
    ensures
        match stop_error {
            Some(e) => if still_running {
                r == Some(e)
            } else {
                r is None
            },
            None => r is None,
        },
{
    match stop_error {
        Some(e) => if still_running {
            Some(e)
        } else {
            None
        },
        None => None,
    }
}

// ---------------------------------------------------------------------------
// The remote scripts of the two server kinds
// ---------------------------------------------------------------------------

/// The PowerShell lines that find the newest NeoForge of a Windows server and
/// the marker its Java command line carries.
pub open spec fn neo_marker_text() -> Seq<char> {
    "$neoVer = Get-ChildItem -LiteralPath (Join-Path $root 'libraries\\net\\neoforged\\neoforge') -Directory -ErrorAction SilentlyContinue |
        Sort-Object Name -Descending |
        Select-Object -First 1 -ExpandProperty Name
    if (-not $neoVer) { throw 'MM_NO_NEOFORGE' }
    $marker = ('libraries/net/neoforged/neoforge/' + $neoVer + '/win_args.txt').ToLower()"@
}

pub fn neo_marker_block() -> (r: String)
    ensures
        r@ == neo_marker_text(),
{
    "$neoVer = Get-ChildItem -LiteralPath (Join-Path $root 'libraries\\net\\neoforged\\neoforge') -Directory -ErrorAction SilentlyContinue |
        Sort-Object Name -Descending |
        Select-Object -First 1 -ExpandProperty Name
    if (-not $neoVer) { throw 'MM_NO_NEOFORGE' }
    $marker = ('libraries/net/neoforged/neoforge/' + $neoVer + '/win_args.txt').ToLower()".to_string()
}

/// The PowerShell check that a Windows server's root is a folder.
pub open spec fn windows_validate_script_of(server_root: Seq<char>) -> Seq<char> {
    assign_root_of(server_root) + "
        if (-not (Test-Path -LiteralPath $root)) { throw 'MM_ROOT_MISSING' }
        if (-not (Test-Path -LiteralPath $root -PathType Container)) { throw 'MM_ROOT_NOT_DIR' }"@
}

pub fn windows_validate_script(server_root: &str) -> (r: String)
    ensures
        r@ == windows_validate_script_of(server_root@),
{
    let mut out = assign_root(server_root);
    out.append("
        if (-not (Test-Path -LiteralPath $root)) { throw 'MM_ROOT_MISSING' }
        if (-not (Test-Path -LiteralPath $root -PathType Container)) { throw 'MM_ROOT_NOT_DIR' }");
    out
}

/// The PowerShell check that prints `running` while a Java process of the
/// Windows server runs.
pub open spec fn windows_running_script_of(server_root: Seq<char>) -> Seq<char> {
    assign_root_of(server_root) + "\n        "@ + neo_marker_text() + "
        $rootKey = $root.Replace('\\', '/').ToLower()
        Get-CimInstance Win32_Process -ErrorAction SilentlyContinue |
            Where-Object {
                if ($_.Name -ne 'java.exe' -or -not $_.CommandLine) { return $false }
                $cmdNorm = $_.CommandLine.Replace('\\', '/').ToLower()
                $cmdNorm.Contains($marker) -or $cmdNorm.Contains($rootKey)
            } |
            Select-Object -First 1 |
            ForEach-Object { Write-Output 'running' }"@
}

pub fn windows_running_script(server_root: &str) -> (r: String)
    ensures
        r@ == windows_running_script_of(server_root@),
{
    let mut out = assign_root(server_root);
    out.append("\n        ");
    out.append(neo_marker_block().as_str());
    out.append("
        $rootKey = $root.Replace('\\', '/').ToLower()
        Get-CimInstance Win32_Process -ErrorAction SilentlyContinue |
            Where-Object {
                if ($_.Name -ne 'java.exe' -or -not $_.CommandLine) { return $false }
                $cmdNorm = $_.CommandLine.Replace('\\', '/').ToLower()
                $cmdNorm.Contains($marker) -or $cmdNorm.Contains($rootKey)
            } |
            Select-Object -First 1 |
            ForEach-Object { Write-Output 'running' }");
    out
}

/// The launch script as the stop script matches it in command lines:
/// trimmed, lower-case, with forward slashes.
pub open spec fn script_key_of(launch_script: Seq<char>) -> Seq<char> {
    replace_char(lower(trim(launch_script)), '\\', "/"@)
}

/// The PowerShell script that kills the Java processes of the Windows server
/// and the `cmd` windows that run its launch script.
pub open spec fn windows_stop_script_of(server_root: Seq<char>, launch_script: Seq<char>) -> Seq<char> {
    let key = script_key_of(launch_script);
    let script_match = if key.len() == 0 {
        Seq::empty()
    } else {
        "$scriptKey = '"@ + powershell_escaped(key) + "'\n        "@
    };
    let predicate = if key.len() == 0 {
        "($false)"@
    } else {
        "$cmdNorm.Contains($scriptKey)"@
    };
    assign_root_of(server_root) + "\n        "@ + neo_marker_text() + "\n        "@ + script_match + "$rootKey = $root.Replace('\\', '/').ToLower()
        $all = @(Get-CimInstance Win32_Process -ErrorAction SilentlyContinue)
        $javaProcs = @($all | Where-Object {
            if ($_.Name -ne 'java.exe' -or -not $_.CommandLine) { return $false }
            $cmdNorm = $_.CommandLine.Replace('\\', '/').ToLower()
            $cmdNorm.Contains($marker) -or $cmdNorm.Contains($rootKey)
        })
        $cmdProcs = @($all | Where-Object {
            if ($_.Name -ne 'cmd.exe' -or -not $_.CommandLine) { return $false }
            $cmdNorm = $_.CommandLine.Replace('\\', '/').ToLower()
            $cmdNorm.Contains($rootKey) -or "@ + predicate
        + "
        })
        $targets = @($javaProcs + $cmdProcs)
        if (-not $targets) { exit 0 }
        $targets | ForEach-Object {
            & taskkill /F /T /PID $_.ProcessId 2>$null | Out-Null
            if (Get-Process -Id $_.ProcessId -ErrorAction SilentlyContinue) {
                Stop-Process -Id $_.ProcessId -Force -ErrorAction Stop
            }
        }"@
}

pub fn windows_stop_script(server_root: &str, start: &ServerStartConfig) -> (r: String)
    ensures
        r@ == windows_stop_script_of(server_root@, start.launch_script@),
{
    let t = trimmed(start.launch_script.as_str());
    let l = to_lower(&t);
    let slash = chars_of("/");
    let key = string_of(&replace_char_chars(&l, '\\', &slash));
    let mut out = assign_root(server_root);
    out.append("\n        ");
    out.append(neo_marker_block().as_str());
    out.append("\n        ");
    let empty = key.as_str().is_empty();
    if !empty {
        out.append("$scriptKey = '");
        out.append(powershell_literal(key.as_str()).as_str());
        out.append("'\n        ");
    }
    out.append("$rootKey = $root.Replace('\\', '/').ToLower()
        $all = @(Get-CimInstance Win32_Process -ErrorAction SilentlyContinue)
        $javaProcs = @($all | Where-Object {
            if ($_.Name -ne 'java.exe' -or -not $_.CommandLine) { return $false }
            $cmdNorm = $_.CommandLine.Replace('\\', '/').ToLower()
            $cmdNorm.Contains($marker) -or $cmdNorm.Contains($rootKey)
        })
        $cmdProcs = @($all | Where-Object {
            if ($_.Name -ne 'cmd.exe' -or -not $_.CommandLine) { return $false }
            $cmdNorm = $_.CommandLine.Replace('\\', '/').ToLower()
            $cmdNorm.Contains($rootKey) -or ");
    if empty {
        out.append("($false)");
    } else {
        out.append("$cmdNorm.Contains($scriptKey)");
    }
    out.append("
        })
        $targets = @($javaProcs + $cmdProcs)
        if (-not $targets) { exit 0 }
        $targets | ForEach-Object {
            & taskkill /F /T /PID $_.ProcessId 2>$null | Out-Null
            if (Get-Process -Id $_.ProcessId -ErrorAction SilentlyContinue) {
                Stop-Process -Id $_.ProcessId -Force -ErrorAction Stop
            }
        }");
    out
}

/// The shell command that starts a Linux server's launch script in the
/// background, logging to `logs/server-control.log`.
pub open spec fn linux_start_command_of(server_root: Seq<char>, script: Seq<char>, args: Seq<Seq<char>>) -> Seq<char> {
    "cd "@ + shell_quoted(server_root) + " && test -f "@ + shell_quoted(script) + " || { echo MM_SCRIPT_NOT_FOUND >&2; exit 1; } && \
         mkdir -p logs && nohup bash "@ + shell_quoted(script) + " "@
        + spaced(args.map_values(|x: Seq<char>| shell_quoted(x))) + " >> logs/server-control.log 2>&1 &"@
}

pub fn linux_start_command(server_root: &str, start: &ServerStartConfig) -> (r: String)
    ensures
        ({
            let script = trim(start.launch_script@);
            let args = if lower(last_segment(script)) == "run.bat"@ || lower(last_segment(script)) == "run.sh"@ {
                seq!["nogui"@]
            } else {
                Seq::<Seq<char>>::empty()
            };
            r@ == linux_start_command_of(server_root@, script, args)
        }),
{
    let launch = start.launch_command();
    let mut quoted: Vec<String> = Vec::new();
    let mut i: usize = 0;
    while i < launch.extra_args.len()
        invariant
            i <= launch.extra_args@.len(),
            string_views(quoted@) == string_views(launch.extra_args@).take(i as int).map_values(|x: Seq<char>| shell_quoted(x)),
        decreases launch.extra_args@.len() - i,
    {
        let ghost before = quoted@;
        quoted.push(shell_single_quoted(launch.extra_args[i].as_str()));
        proof {
            let ev = string_views(launch.extra_args@);
            assert(string_views(quoted@) =~= string_views(before).push(shell_quoted(ev[i as int])));
            assert(ev.take(i + 1) =~= ev.take(i as int).push(ev[i as int]));
            assert(ev.take(i + 1).map_values(|x: Seq<char>| shell_quoted(x)) =~= ev.take(i as int).map_values(
                |x: Seq<char>| shell_quoted(x),
            ).push(shell_quoted(ev[i as int])));
        }
        i = i + 1;
    }
    assert(string_views(launch.extra_args@).take(launch.extra_args@.len() as int) =~= string_views(launch.extra_args@));
    let script = shell_single_quoted(launch.script.as_str());
    let mut out = "cd ".to_string();
    out.append(shell_single_quoted(server_root).as_str());
    out.append(" && test -f ");
    out.append(script.as_str());
    out.append(" || { echo MM_SCRIPT_NOT_FOUND >&2; exit 1; } && \
         mkdir -p logs && nohup bash ");
    out.append(script.as_str());
    out.append(" ");
    out.append(join_strings(&quoted, " ").as_str());
    out.append(" >> logs/server-control.log 2>&1 &");
    out
}

/// The shell script that kills a Linux server's Java processes and the
/// `bash` running its launch script, gently first.
pub open spec fn linux_stop_command_of(server_root: Seq<char>, launch_script: Seq<char>) -> Seq<char> {
    let script = trim(launch_script);
    let filter = if script.len() == 0 {
        Seq::empty()
    } else {
        " | grep -F "@ + shell_quoted(script)
    };
    "root="@ + shell_quoted(server_root) + "
for sig in TERM KILL; do
  pids=$(pgrep -af java 2>/dev/null | grep -F \"$root\" | awk '{print $1}')
  if [ -n \"$pids\" ]; then kill -$sig $pids 2>/dev/null || true; fi
  pids=$(pgrep -af bash 2>/dev/null | grep -F \"$root\""@ + filter + " | awk '{print $1}')
  if [ -n \"$pids\" ]; then kill -$sig $pids 2>/dev/null || true; fi
  sleep 0.4
done
true"@
}

pub fn linux_stop_command(server_root: &str, start: &ServerStartConfig) -> (r: String)
    ensures
        r@ == linux_stop_command_of(server_root@, start.launch_script@),
{
    let t = trimmed(start.launch_script.as_str());
    let mut out = "root=".to_string();
    out.append(shell_single_quoted(server_root).as_str());
    out.append("
for sig in TERM KILL; do
  pids=$(pgrep -af java 2>/dev/null | grep -F \"$root\" | awk '{print $1}')
  if [ -n \"$pids\" ]; then kill -$sig $pids 2>/dev/null || true; fi
  pids=$(pgrep -af bash 2>/dev/null | grep -F \"$root\"");
    if t.len() > 0 {
        out.append(" | grep -F ");
        out.append(shell_single_quoted(string_of(&t).as_str()).as_str());
    }
    out.append(" | awk '{print $1}')
  if [ -n \"$pids\" ]; then kill -$sig $pids 2>/dev/null || true; fi
  sleep 0.4
done
true");
    out
}

/// A running check printed `running`.
pub fn reports_running(stdout: &str) -> (r: bool)
    ensures
        r == crate::text::eq_ignore_case(trim(stdout@), "running"@),
{
    let t = trimmed(stdout);
    let running = chars_of("running");
    crate::text::eq_ignore_case_chars(&t, &running)
}

/// The command whose output tells a Windows machine from a Linux one.
pub fn os_probe_command() -> (r: String)
    ensures
        r@ == "cmd /c ver 2>nul || (uname -s 2>/dev/null || echo unknown)"@,
{
    "cmd /c ver 2>nul || (uname -s 2>/dev/null || echo unknown)".to_string()
}

/// The SSH command that runs a PowerShell script given in base64 of its
/// UTF-16LE text.
pub fn encoded_powershell_command(script: &str) -> (r: String)
    requires
        script@.len() <= usize::MAX / 8,
    ensures
        r@ == "powershell -NoProfile -EncodedCommand "@ + base64_standard(utf16_le(script@)),
{
    let mut out = "powershell -NoProfile -EncodedCommand ".to_string();
    out.append(encode_powershell(script).as_str());
    out
}

} // verus!
