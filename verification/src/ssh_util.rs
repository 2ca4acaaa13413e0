//! SSH hosts and the errors of remote commands, in words.
use vstd::prelude::*;
use vstd::string::StringExecFns;
use crate::text::{char_is_alnum, chars_of, contains, contains_str, decimal, decimal_string, eq_ignore_case, eq_ignore_case_chars, eq_str, lines, lines_chars, opt_view, replace_char, replace_char_chars, slice_chars, split_whitespace, split_whitespace_chars, starts_with, starts_with_str, string_of, string_views, strip_prefix, strip_prefix_chars, trim, trim_chars, trimmed, views};
use crate::readiness::{clean_powershell_stdout, cleaned_stdout, clixml_noise_message, contains_clixml};
use crate::server_control::{safe_name};

verus! {

/// The text trimmed, cut to `max` characters with `…` as the last one.
pub open spec fn short_text(text: Seq<char>, max: nat) -> Seq<char> {
    let t = trim(text);
    if t.len() <= max {
        t
    } else {
        t.take(if max >= 1 {
            max - 1
        } else {
            0
        }) + "…"@
    }
}

pub fn short_msg(text: &str, max: usize) -> (r: String)
    ensures
        r@ == short_text(text@, max as nat),
{
    let t = trimmed(text);
    if t.len() <= max {
        return string_of(&t);
    }
    let keep = if max >= 1 {
        max - 1
    } else {
        0
    };
    let head = slice_chars(&t, 0, keep);
    assert(head@ =~= t@.take(keep as int));
    let mut out = string_of(&head);
    out.append("…");
    out
}

pub open spec fn unknown_host_text(host: Seq<char>) -> Seq<char> {
    "«"@ + host + "» не в ~/.ssh/config."@
}

pub fn unknown_host_message(host: &str) -> (r: String)
    ensures
        r@ == unknown_host_text(host@),
{
    let mut out = "«".to_string();
    out.append(host);
    out.append("» не в ~/.ssh/config.");
    out
}

/// The host name `ssh -G <host>` resolves an alias to, from its output: the
/// first `hostname` line decides; a blank line or a missing value ends the
/// search; the alias itself (in any case) or nothing means none.
pub open spec fn config_hostname(ls: Seq<Seq<char>>, host: Seq<char>) -> Option<Seq<char>>
    decreases ls.len(),
{
    if ls.len() == 0 {
        None
    } else {
        let words = split_whitespace(ls[0]);
        if words.len() == 0 {
            None
        } else if words[0] != "hostname"@ {
            config_hostname(ls.drop_first(), host)
        } else if words.len() < 2 {
            None
        } else {
            let h = trim(words[1]);
            if h.len() == 0 || eq_ignore_case(h, host) {
                None
            } else {
                Some(h)
            }
        }
    }
}

pub fn hostname_from_config(text: &str, host: &str) -> (r: Option<String>)
    ensures
        opt_view(r) == config_hostname(lines(text@), host@),
{
    let v = chars_of(text);
    let hv = chars_of(host);
    let ls = lines_chars(&v);
    let ghost lv = views(ls@);
    let mut k: usize = 0;
    assert(lv.skip(0) =~= lv);
    while k < ls.len()
        invariant
            k <= ls@.len(),
            lv == views(ls@),
            lv == lines(text@),
            hv@ == host@,
            config_hostname(lv, host@) == config_hostname(lv.skip(k as int), host@),
        decreases ls@.len() - k,
    {
        assert(lv.skip(k as int)[0] == ls@[k as int]@);
        assert(lv.skip(k as int).drop_first() =~= lv.skip(k + 1));
        let words = split_whitespace_chars(&ls[k]);
        if words.len() == 0 {
            return None;
        }
        if !eq_str(&words[0], "hostname") {
            k = k + 1;
            continue;
        }
        if words.len() < 2 {
            return None;
        }
        let h = trim_chars(&words[1]);
        if h.len() == 0 || eq_ignore_case_chars(&h, &hv) {
            return None;
        }
        return Some(string_of(&h));
    }
    None
}

/// What an SSH error means for the user.
pub open spec fn ssh_error_text(host: Seq<char>, detail: Seq<char>) -> Seq<char> {
    let text = trim(
        match strip_prefix(detail, "ssh: "@) {
            Some(rest) => rest,
            None => detail,
        },
    );
    if contains(text, "#< CLIXML"@) || contains(text, "<Objs Version="@) {
        "Служебный вывод PowerShell (не ошибка сервера)."@
    } else if contains(text, "Could not resolve hostname"@) || contains(
        text,
        "nodename nor servname"@,
    ) {
        unknown_host_text(host)
    } else if contains(text, "Permission denied"@) {
        "SSH отказал: «"@ + host + "»."@
    } else if contains(text, "Connection refused"@) || contains(text, "Operation timed out"@) {
        "Нет связи с «"@ + host + "»."@
    } else if starts_with(text, "scp:"@) {
        "Не удалось передать файл на сервер (проверьте путь и SSH)."@
    } else {
        short_text(text, 48)
    }
}

pub fn explain_ssh_error(host: &str, detail: &str) -> (r: String)
    ensures
        r@ == ssh_error_text(host@, detail@),
{
    let d = chars_of(detail);
    let stripped = match strip_prefix_chars(&d, "ssh: ") {
        Some(rest) => rest,
        None => d,
    };
    let text = trim_chars(&stripped);
    if contains_str(&text, "#< CLIXML") || contains_str(&text, "<Objs Version=") {
        return "Служебный вывод PowerShell (не ошибка сервера).".to_string();
    }
    if contains_str(&text, "Could not resolve hostname") || contains_str(&text, "nodename nor servname") {
        return unknown_host_message(host);
    }
    if contains_str(&text, "Permission denied") {
        let mut m = "SSH отказал: «".to_string();
        m.append(host);
        m.append("».");
        return m;
    }
    if contains_str(&text, "Connection refused") || contains_str(&text, "Operation timed out") {
        let mut m = "Нет связи с «".to_string();
        m.append(host);
        m.append("».");
        return m;
    }
    if starts_with_str(&text, "scp:") {
        return "Не удалось передать файл на сервер (проверьте путь и SSH).".to_string();
    }
    let ts = string_of(&text);
    short_msg(ts.as_str(), 48)
}

/// `code.to_string()` for an exit code.
pub open spec fn signed_decimal(n: int) -> Seq<char> {
    if n < 0 {
        "-"@ + decimal((-n) as nat)
    } else {
        decimal(n as nat)
    }
}

pub fn signed_decimal_string(n: i32) -> (r: String)
    ensures
        r@ == signed_decimal(n as int),
{
    if n < 0 {
        let m: u64 = (0i64 - n as i64) as u64;
        let mut out = "-".to_string();
        out.append(decimal_string(m).as_str());
        out
    } else {
        decimal_string(n as u64)
    }
}

/// Why a remote command failed, from its outputs and exit code (`-1` when
/// it was killed by a signal).
pub open spec fn command_failure_text(
    host: Seq<char>,
    raw_stderr: Seq<char>,
    raw_stdout: Seq<char>,
    code: Option<i32>,
) -> Seq<char> {
    let stderr = cleaned_stdout(raw_stderr);
    let stdout = cleaned_stdout(raw_stdout);
    let detail = if stderr.len() > 0 {
        stderr
    } else {
        stdout
    };
    if detail.len() == 0 {
        if contains(raw_stderr, "#< CLIXML"@) || contains(raw_stderr, "<Objs Version="@) || contains(
            raw_stdout,
            "#< CLIXML"@,
        ) || contains(raw_stdout, "<Objs Version="@) {
            "Служебный вывод PowerShell (не ошибка сервера)."@
        } else {
            "Удалённая команда завершилась с кодом "@ + signed_decimal(
                match code {
                    Some(c) => c as int,
                    None => -1,
                },
            ) + "."@
        }
    } else {
        ssh_error_text(host, detail)
    }
}

pub fn command_failure_message(host: &str, raw_stderr: &str, raw_stdout: &str, code: Option<i32>) -> (r:
    String)
    ensures
        r@ == command_failure_text(host@, raw_stderr@, raw_stdout@, code),
{
    let stderr = clean_powershell_stdout(raw_stderr);
    let stdout = clean_powershell_stdout(raw_stdout);
    let detail = if !stderr.as_str().is_empty() {
        stderr
    } else {
        stdout
    };
    if detail.as_str().is_empty() {
        if contains_clixml(raw_stderr) || contains_clixml(raw_stdout) {
            return clixml_noise_message();
        }
        let c = match code {
            Some(c) => c,
            None => -1,
        };
        let mut m = "Удалённая команда завершилась с кодом ".to_string();
        m.append(signed_decimal_string(c).as_str());
        m.append(".");
        return m;
    }
    explain_ssh_error(host, detail.as_str())
}

/// The name of the socket SSH shares connections to a host through.
pub fn control_socket_name(host: &str) -> (r: String)
    ensures
        r@ == "mod-manager-ssh-"@ + safe_name(host@, false) + ".sock"@,
{
    let h = chars_of(host);
    let safe = safe_name_of(&h);
    let mut out = "mod-manager-ssh-".to_string();
    out.append(string_of(&safe).as_str());
    out.append(".sock");
    out
}

fn safe_name_of(v: &[char]) -> (r: Vec<char>)
    ensures
        r@ == safe_name(v@, false),
{
    let mut r: Vec<char> = Vec::new();
    let mut i: usize = 0;
    while i < v.len()
        invariant
            i <= v@.len(),
            r@ == safe_name(v@.take(i as int), false),
        decreases v@.len() - i,
    {
        let c = v[i];
        let k = if char_is_alnum(c) || c == '-' || c == '_' {
            c
        } else {
            '_'
        };
        r.push(k);
        assert(safe_name(v@.take(i + 1), false) =~= safe_name(v@.take(i as int), false).push(k));
        i = i + 1;
    }
    assert(v@.take(v@.len() as int) =~= v@);
    r
}

/// `host:path` for `scp`: the path with `/` separators and spaces escaped.
pub open spec fn scp_target(host: Seq<char>, remote_file: Seq<char>) -> Seq<char> {
    host + ":"@ + replace_char(replace_char(remote_file, '\\', "/"@), ' ', "\\ "@)
}

pub fn scp_remote_target(host: &str, remote_file: &str) -> (r: String)
    ensures
        r@ == scp_target(host@, remote_file@),
{
    let v = chars_of(remote_file);
    let slash = chars_of("/");
    let a = replace_char_chars(&v, '\\', &slash);
    let esc = chars_of("\\ ");
    let b = replace_char_chars(&a, ' ', &esc);
    let mut out = host.to_string();
    out.append(":");
    out.append(string_of(&b).as_str());
    out
}

/// The options every `ssh` call starts with: no prompts, a shared
/// connection kept for two minutes, and a 20 second connect timeout.
pub open spec fn ssh_options(control_path: Seq<char>) -> Seq<Seq<char>> {
    seq![
        "-o"@, "BatchMode=yes"@, "-o"@, "ControlMaster=auto"@, "-o"@, control_path, "-o"@, "ControlPersist=120"@,
        "-o"@, "ConnectTimeout=20"@,
    ]
}

/// The options every `scp` call starts with: quiet, no prompts, the shared
/// connection, and a two minute connect timeout.
pub open spec fn scp_options(control_path: Seq<char>) -> Seq<Seq<char>> {
    seq![
        "-q"@, "-o"@, "BatchMode=yes"@, "-o"@, "ControlMaster=auto"@, "-o"@, control_path, "-o"@,
        "ControlPersist=120"@, "-o"@, "ConnectTimeout=120"@,
    ]
}

fn texts(parts: &[&str]) -> (r: Vec<String>)
    ensures
        r@.len() == parts@.len(),
        forall|i: int| 0 <= i < parts@.len() ==> #[trigger] r@[i]@ == parts@[i]@,
{
    let mut r: Vec<String> = Vec::new();
    let mut i: usize = 0;
    while i < parts.len()
        invariant
            i <= parts@.len(),
            r@.len() == i,
            forall|k: int| 0 <= k < i ==> #[trigger] r@[k]@ == parts@[k]@,
        decreases parts@.len() - i,
    {
        r.push(parts[i].to_string());
        i = i + 1;
    }
    r
}

/// The `ControlPath=` option for a socket path.
pub fn control_path_option(socket_path: &str) -> (r: String)
    ensures
        r@ == "ControlPath="@ + socket_path@,
{
    let mut out = "ControlPath=".to_string();
    out.append(socket_path);
    out
}

pub fn ssh_base_args(control_path: &str) -> (r: Vec<String>)
    ensures
        string_views(r@) == ssh_options(control_path@),
{
    let r = texts(&["-o", "BatchMode=yes", "-o", "ControlMaster=auto", "-o", control_path, "-o", "ControlPersist=120", "-o", "ConnectTimeout=20"]);
    assert(string_views(r@) =~= ssh_options(control_path@));
    r
}

pub fn scp_base_args(control_path: &str) -> (r: Vec<String>)
    ensures
        string_views(r@) == scp_options(control_path@),
{
    let r = texts(&["-q", "-o", "BatchMode=yes", "-o", "ControlMaster=auto", "-o", control_path, "-o", "ControlPersist=120", "-o", "ConnectTimeout=120"]);
    assert(string_views(r@) =~= scp_options(control_path@));
    r
}

} // verus!
