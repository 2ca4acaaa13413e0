//! Whether a Minecraft server has finished starting, from its log or from a
//! remote script's output.
use vstd::prelude::*;
use crate::text::{chars_of, contains, contains_str, eq_ignore_case, eq_ignore_case_chars, find, find_chars, lemma_find_from_bounds, lower, matches_at, matches_at_exec, slice_chars, starts_with, starts_with_str, string_of, to_lower, trim, trim_chars, trimmed};

verus! {

/// Minecraft writes this when the dedicated server finished loading and
/// accepts players.
pub const DONE_MARKER: &'static str = "Done (";

/// The last index at which `p` occurs in `s`, looking below `n`.
pub open spec fn last_match_below(s: Seq<char>, p: Seq<char>, n: int) -> Option<int>
    decreases n,
{
    if n <= 0 {
        None
    } else if matches_at(s, n - 1, p) {
        Some(n - 1)
    } else {
        last_match_below(s, p, n - 1)
    }
}

/// The last index at which `p` occurs in `s` (`rmatch_indices(p).next()`).
pub open spec fn last_match(s: Seq<char>, p: Seq<char>) -> Option<int> {
    last_match_below(s, p, s.len() + 1int)
}

pub fn last_match_exec(v: &[char], p: &[char]) -> (r: Option<usize>)
    ensures
        match r {
            Some(i) => last_match(v@, p@) == Some(i as int),
            None => last_match(v@, p@) is None,
        },
{
    let mut n: usize = v.len();
    if !matches_at_exec(v, n, p) {
        assert(last_match(v@, p@) == last_match_below(v@, p@, n as int));
        while n > 0
            invariant
                n <= v@.len(),
                last_match(v@, p@) == last_match_below(v@, p@, n as int),
            decreases n,
        {
            if matches_at_exec(v, n - 1, p) {
                return Some(n - 1);
            }
            n = n - 1;
        }
        None
    } else {
        Some(n)
    }
}

/// The markers of a server (re)starting.
pub open spec fn boot_markers() -> Seq<Seq<char>> {
    seq!["modlauncher running"@, "starting minecraft server on"@, "preparing spawn area"@]
}

/// The later of two optional indices.
pub open spec fn later(a: Option<int>, b: Option<int>) -> Option<int> {
    match (a, b) {
        (Some(x), Some(y)) => Some(if x >= y {
            x
        } else {
            y
        }),
        (Some(x), None) => Some(x),
        (None, y) => y,
    }
}

/// Where the server started last, in the lower-cased log.
pub open spec fn last_boot(lower_log: Seq<char>) -> Option<int> {
    later(
        later(
            last_match(lower_log, boot_markers()[0]),
            last_match(lower_log, boot_markers()[1]),
        ),
        last_match(lower_log, boot_markers()[2]),
    )
}

/// A blank log is not ready; a log without `Done (` says nothing; otherwise
/// the server is ready when the last `Done (` comes after the last start.
pub open spec fn session_ready(log: Seq<char>) -> Option<bool> {
    if trim(log).len() == 0 {
        Some(false)
    } else {
        match last_match(log, "Done ("@) {
            None => None,
            Some(done) => Some(
                match last_boot(lower(log)) {
                    None => true,
                    Some(boot) => done > boot,
                },
            ),
        }
    }
}

pub fn log_session_ready(log: &str) -> (r: Option<bool>)
    ensures
        r == session_ready(log@),
{
    let v = chars_of(log);
    let t = trim_chars(&v);
    if t.len() == 0 {
        return Some(false);
    }
    let lower_v = to_lower(&v);
    let done_marker = chars_of(DONE_MARKER);
    proof {
        reveal_strlit("Done (");
        assert(done_marker@ == "Done ("@);
    }
    let last_done = match last_match_exec(&v, &done_marker) {
        Some(i) => i,
        None => return None,
    };
    let m0 = chars_of("modlauncher running");
    let m1 = chars_of("starting minecraft server on");
    let m2 = chars_of("preparing spawn area");
    let b0 = last_match_exec(&lower_v, &m0);
    let b1 = last_match_exec(&lower_v, &m1);
    let b2 = last_match_exec(&lower_v, &m2);
    let b01: Option<usize> = match (b0, b1) {
        (Some(x), Some(y)) => Some(if x >= y {
            x
        } else {
            y
        }),
        (Some(x), None) => Some(x),
        (None, y) => y,
    };
    let boot: Option<usize> = match (b01, b2) {
        (Some(x), Some(y)) => Some(if x >= y {
            x
        } else {
            y
        }),
        (Some(x), None) => Some(x),
        (None, y) => y,
    };
    match boot {
        None => Some(true),
        Some(b) => Some(last_done > b),
    }
}

pub fn is_log_ready(log: &str) -> (r: bool)
    ensures
        r == (session_ready(log@) == Some(true)),
{
    match log_session_ready(log) {
        Some(b) => b,
        None => false,
    }
}

/// A remote script's output without the CLIXML noise PowerShell appends or
/// emits instead of text.
pub open spec fn cleaned_stdout(text: Seq<char>) -> Seq<char> {
    let t = trim(text);
    match find(t, "#< CLIXML"@) {
        Some(i) => trim(t.subrange(0, i)),
        None => if starts_with(t, "<Objs Version="@) {
            Seq::<char>::empty()
        } else {
            t
        },
    }
}

pub fn clean_powershell_stdout(text: &str) -> (r: String)
    ensures
        r@ == cleaned_stdout(text@),
{
    let t = trimmed(text);
    let marker = chars_of("#< CLIXML");
    match find_chars(&t, &marker) {
        Some(i) => {
            proof {
                lemma_find_from_bounds(t@, marker@, 0);
            }
            let head = slice_chars(&t, 0, i);
            let h = trim_chars(&head);
            string_of(&h)
        },
        None => {
            if starts_with_str(&t, "<Objs Version=") {
                String::new()
            } else {
                string_of(&t)
            }
        },
    }
}

pub fn stdout_indicates_ready(stdout: &str) -> (r: bool)
    ensures
        r == eq_ignore_case(cleaned_stdout(stdout@), "ready"@),
{
    let c = clean_powershell_stdout(stdout);
    let cv = chars_of(c.as_str());
    let ready = chars_of("ready");
    eq_ignore_case_chars(&cv, &ready)
}

pub fn contains_clixml(text: &str) -> (r: bool)
    ensures
        r == (contains(text@, "#< CLIXML"@) || contains(text@, "<Objs Version="@)),
{
    let v = chars_of(text);
    contains_str(&v, "#< CLIXML") || contains_str(&v, "<Objs Version=")
}

/// What to show when PowerShell emitted CLIXML instead of plain text.
pub fn clixml_noise_message() -> (r: String)
    ensures
        r@ == "Служебный вывод PowerShell (не ошибка сервера)."@,
{
    "Служебный вывод PowerShell (не ошибка сервера).".to_string()
}

} // verus!
