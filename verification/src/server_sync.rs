//! Keeping a remote mods folder in step with the instance: which jars go to
//! which folder, what to upload, replace or delete, and the progress shown
//! meanwhile.
use vstd::prelude::*;
use vstd::string::StringExecFns;
use crate::text::{all_digits, chars_of, contains, contains_str, digits_value, ends_with, ends_with_str, eq_str, is_digit, lines, lines_chars, lower, opt_view, slice_chars, string_of, string_views, to_lower, trim, trim_chars, trim_end_char, trim_end_char_chars, trim_end_str, trim_end_str_chars, trim_string, trimmed, unsigned_digits, views};
use crate::mod_names::{alnum_key, decorations_stripped, normalized_match_key, strip_filename_decorations, strip_version_suffixes, version_suffixes_stripped};
use crate::mods::{unknown_side, unknown_side_string, ModEntry};
use crate::tags::ModTags;
use crate::provider_labels::{resolve_side, resolved_side};
use crate::settings::{ServerSyncSettings, Settings};
use crate::server_control::{normalize_remote_path, normalized_remote_path};
use crate::ssh_util::{explain_ssh_error, ssh_error_text};

verus! {

// ---------------------------------------------------------------------------
// Configuration
// ---------------------------------------------------------------------------

/// A setting trimmed; blank means unset.
pub open spec fn cleaned_value(value: Seq<char>) -> Option<Seq<char>> {
    if trim(value).len() == 0 {
        None
    } else {
        Some(trim(value))
    }
}

pub fn clean(value: &str) -> (r: Option<String>)
    ensures
        opt_view(r) == cleaned_value(value@),
{
    let t = trim_string(value);
    if t.as_str().is_empty() {
        None
    } else {
        Some(t)
    }
}

/// A remote folder as typed, normalised; blank means unset.
pub fn clean_remote_dir(value: &str) -> (r: Option<String>)
    ensures
        opt_view(r) == if normalized_remote_path(value@).len() == 0 {
            None::<Seq<char>>
        } else {
            Some(normalized_remote_path(value@))
        },
{
    let n = normalize_remote_path(value);
    if n.as_str().is_empty() {
        None
    } else {
        Some(n)
    }
}

/// A file in a remote folder.
pub open spec fn remote_file_path(dir: Seq<char>, filename: Seq<char>) -> Seq<char> {
    trim_end_char(normalized_remote_path(dir), '/') + "/"@ + filename
}

pub fn join_remote_path(dir: &str, filename: &str) -> (r: String)
    ensures
        r@ == remote_file_path(dir@, filename@),
{
    let n = normalize_remote_path(dir);
    let nv = chars_of(n.as_str());
    let base = trim_end_char_chars(&nv, '/');
    let mut out = string_of(&base);
    out.append("/");
    out.append(filename);
    out
}

/// Synchronisation is set up: switched on, with an SSH host and a folder.
pub open spec fn sync_ready(s: ServerSyncSettings) -> bool {
    s.enabled && cleaned_value(s.ssh_host@) is Some && !(trim(s.server_mods_path@).len() == 0
        && trim(s.distribution_mods_path@).len() == 0)
}

/// The settings a synchronisation runs with: the host lower-cased, the
/// folders normalised.
pub fn sync_config(settings: &Settings) -> (r: Option<ServerSyncSettings>)
    ensures
        r is Some <==> sync_ready(settings.server_sync),
        r matches Some(c) ==> {
            &&& c.enabled
            &&& c.ssh_host@ == lower(trim(settings.server_sync.ssh_host@))
            &&& c.server_mods_path@ == normalized_remote_path(settings.server_sync.server_mods_path@)
            &&& c.distribution_mods_path@ == normalized_remote_path(
                settings.server_sync.distribution_mods_path@,
            )
            &&& c.delete_extra_remote_jars == settings.server_sync.delete_extra_remote_jars
        },
{
    let config = &settings.server_sync;
    if !config.enabled {
        return None;
    }
    let host = match clean(config.ssh_host.as_str()) {
        Some(h) => h,
        None => return None,
    };
    let hv = chars_of(host.as_str());
    let lower_host = string_of(&to_lower(&hv));
    let sp = trimmed(config.server_mods_path.as_str());
    let dp = trimmed(config.distribution_mods_path.as_str());
    if sp.len() == 0 && dp.len() == 0 {
        return None;
    }
    Some(ServerSyncSettings {
        enabled: true,
        ssh_host: lower_host,
        server_mods_path: normalize_remote_path(config.server_mods_path.as_str()),
        distribution_mods_path: normalize_remote_path(config.distribution_mods_path.as_str()),
        delete_extra_remote_jars: config.delete_extra_remote_jars,
        server_os: config.server_os.clone(),
        server_start_script: config.server_start_script.clone(),
        server_root_path: config.server_root_path.clone(),
    })
}

/// Why synchronisation cannot run.
pub open spec fn sync_config_error_of(s: ServerSyncSettings) -> Seq<char> {
    if !s.enabled {
        "Включите синхронизацию."@
    } else if cleaned_value(s.ssh_host@) is None {
        "Укажите SSH host."@
    } else if trim(s.server_mods_path@).len() == 0 && trim(s.distribution_mods_path@).len() == 0 {
        "Укажите путь mods."@
    } else {
        "Синхронизация не настроена."@
    }
}

pub fn sync_config_error(settings: &Settings) -> (r: String)
    ensures
        r@ == sync_config_error_of(settings.server_sync),
{
    let config = &settings.server_sync;
    if !config.enabled {
        return "Включите синхронизацию.".to_string();
    }
    if clean(config.ssh_host.as_str()).is_none() {
        return "Укажите SSH host.".to_string();
    }
    let sp = trimmed(config.server_mods_path.as_str());
    let dp = trimmed(config.distribution_mods_path.as_str());
    if sp.len() == 0 && dp.len() == 0 {
        return "Укажите путь mods.".to_string();
    }
    "Синхронизация не настроена.".to_string()
}

// ---------------------------------------------------------------------------
// Lanes
// ---------------------------------------------------------------------------

/// The two remote folders: the server's own mods, and the mods handed out
/// to players.
#[derive(Clone, Copy, Debug, PartialEq, Eq, Structural)]
pub enum SyncLane {
    Server,
    Distribution,
}

impl SyncLane {
    pub fn as_str(self) -> (r: &'static str)
        ensures
            r@ == match self {
                SyncLane::Server => "server"@,
                SyncLane::Distribution => "distribution"@,
            },
    {
        match self {
            SyncLane::Server => "server",
            SyncLane::Distribution => "distribution",
        }
    }

    pub fn from_str(value: &str) -> (r: Option<SyncLane>)
        ensures
            value@ == "server"@ ==> r == Some(SyncLane::Server),
            value@ == "distribution"@ ==> r == Some(SyncLane::Distribution),
            value@ != "server"@ && value@ != "distribution"@ ==> r is None,
    {
        let v = chars_of(value);
        proof {
            reveal_strlit("server");
            reveal_strlit("distribution");
            assert("server"@.len() != "distribution"@.len());
        }
        if eq_str(&v, "server") {
            Some(SyncLane::Server)
        } else if eq_str(&v, "distribution") {
            Some(SyncLane::Distribution)
        } else {
            None
        }
    }
}

pub open spec fn lane_dir_of(config: ServerSyncSettings, lane: SyncLane) -> Option<Seq<char>> {
    let raw = match lane {
        SyncLane::Server => config.server_mods_path@,
        SyncLane::Distribution => config.distribution_mods_path@,
    };
    if normalized_remote_path(raw).len() == 0 {
        None
    } else {
        Some(normalized_remote_path(raw))
    }
}

pub fn remote_dir_for_lane(config: &ServerSyncSettings, lane: SyncLane) -> (r: Option<String>)
    ensures
        opt_view(r) == lane_dir_of(*config, lane),
{
    match lane {
        SyncLane::Server => clean_remote_dir(config.server_mods_path.as_str()),
        SyncLane::Distribution => clean_remote_dir(config.distribution_mods_path.as_str()),
    }
}

pub fn lane_config_error(lane: SyncLane, config: &ServerSyncSettings) -> (r: Option<String>)
    ensures
        lane_dir_of(*config, lane) is Some ==> r is None,
        lane_dir_of(*config, lane) is None ==> (r matches Some(e) && e@ == "Укажите путь."@),
{
    if remote_dir_for_lane(config, lane).is_some() {
        return None;
    }
    Some("Укажите путь.".to_string())
}

/// Everything but client-only mods runs on the server.
pub open spec fn runs_on_server(side: Seq<char>) -> bool {
    side != "client"@
}

pub fn side_runs_on_server(side: &str) -> (r: bool)
    ensures
        r == runs_on_server(side@),
{
    let v = chars_of(side);
    !eq_str(&v, "client")
}

/// The server gets what runs on it; players get everything.
pub open spec fn applies_to_lane(lane: SyncLane, side: Seq<char>) -> bool {
    match lane {
        SyncLane::Server => runs_on_server(side),
        SyncLane::Distribution => true,
    }
}

pub fn mod_applies_to_lane(lane: SyncLane, side: &str) -> (r: bool)
    ensures
        r == applies_to_lane(lane, side@),
{
    match lane {
        SyncLane::Server => side_runs_on_server(side),
        SyncLane::Distribution => true,
    }
}

// ---------------------------------------------------------------------------
// The remote folder's listing
// ---------------------------------------------------------------------------

pub open spec fn index_views(index: Seq<(String, u64)>) -> Seq<(Seq<char>, u64)> {
    index.map_values(|p: (String, u64)| (p.0@, p.1))
}

/// The size listed for a file (a later line replaces an earlier one).
pub open spec fn listed_size(index: Seq<(Seq<char>, u64)>, name: Seq<char>) -> Option<u64>
    decreases index.len(),
{
    if index.len() == 0 {
        None
    } else if index.last().0 == name {
        Some(index.last().1)
    } else {
        listed_size(index.drop_last(), name)
    }
}

/// The last `|` of a listing line splits name and size.
pub open spec fn last_bar(s: Seq<char>) -> Option<int>
    decreases s.len(),
{
    if s.len() == 0 {
        None
    } else if s.last() == '|' {
        Some(s.len() - 1)
    } else {
        last_bar(s.drop_last())
    }
}

/// `str::parse::<u64>`: an optional `+`, then ASCII digits, fitting in 64 bits.
pub open spec fn parse_u64_of(s: Seq<char>) -> Option<u64> {
    let d = unsigned_digits(s);
    if d.len() > 0 && all_digits(d) && digits_value(d) <= 0xffff_ffff_ffff_ffff {
        Some(digits_value(d) as u64)
    } else {
        None
    }
}

proof fn lemma_digits_prefix_le(s: Seq<char>, i: int)
    requires
        0 <= i <= s.len(),
        all_digits(s),
    ensures
        digits_value(s.take(i)) <= digits_value(s),
    decreases s.len() - i,
{
    if i < s.len() {
        lemma_digits_prefix_le(s, i + 1);
        assert(s.take(i + 1).drop_last() =~= s.take(i));
    } else {
        assert(s.take(i) =~= s);
    }
}

pub fn parse_u64(text: &[char]) -> (r: Option<u64>)
    ensures
        r == parse_u64_of(text@),
{
    let start: usize = if text.len() > 0 && text[0] == '+' {
        1
    } else {
        0
    };
    let d = slice_chars(text, start, text.len());
    assert(d@ =~= unsigned_digits(text@));
    if d.len() == 0 {
        return None;
    }
    let mut value: u64 = 0;
    let mut i: usize = 0;
    while i < d.len()
        invariant
            i <= d@.len(),
            d@ == unsigned_digits(text@),
            d@.len() > 0,
            all_digits(d@.take(i as int)),
            value == digits_value(d@.take(i as int)),
        decreases d@.len() - i,
    {
        let c = d[i];
        if !('0' <= c && c <= '9') {
            assert(!is_digit(d@[i as int]));
            return None;
        }
        assert(d@.take(i + 1).drop_last() =~= d@.take(i as int));
        assert(all_digits(d@.take(i + 1)));
        let digit: u64 = ((c as u32) - ('0' as u32)) as u64;
        if value > (0xffff_ffff_ffff_ffffu64 - digit) / 10 {
            proof {
                assert(digits_value(d@.take(i + 1)) == value * 10 + digit);
                assert(value * 10 + digit > 0xffff_ffff_ffff_ffff) by (nonlinear_arith)
                    requires
                        value > (0xffff_ffff_ffff_ffffu64 - digit) / 10,
                        digit <= 9,
                ;
                if all_digits(d@) {
                    lemma_digits_prefix_le(d@, i + 1);
                }
            }
            return None;
        }
        assert(value * 10 + digit <= 0xffff_ffff_ffff_ffff) by (nonlinear_arith)
            requires
                value <= (0xffff_ffff_ffff_ffffu64 - digit) / 10,
                digit <= 9,
        ;
        value = value * 10 + digit;
        i = i + 1;
    }
    assert(d@.take(d@.len() as int) =~= d@);
    Some(value)
}

/// One line of the remote listing (`name|size`), when it is one.
pub open spec fn listing_entry(line: Seq<char>) -> Option<(Seq<char>, u64)> {
    let l = trim(line);
    if l.len() == 0 {
        None
    } else {
        match last_bar(l) {
            None => None,
            Some(i) => {
                let name = l.subrange(0, i);
                match parse_u64_of(trim(l.subrange(i + 1, l.len() as int))) {
                    Some(size) => if name.len() > 0 {
                        Some((name, size))
                    } else {
                        None
                    },
                    None => None,
                }
            },
        }
    }
}

pub open spec fn listing_fold(ls: Seq<Seq<char>>) -> Seq<(Seq<char>, u64)>
    decreases ls.len(),
{
    if ls.len() == 0 {
        Seq::<(Seq<char>, u64)>::empty()
    } else {
        match listing_entry(ls.last()) {
            Some(e) => listing_fold(ls.drop_last()).push(e),
            None => listing_fold(ls.drop_last()),
        }
    }
}

fn last_bar_exec(v: &[char]) -> (r: Option<usize>)
    ensures
        match r {
            Some(i) => last_bar(v@) == Some(i as int) && i < v@.len(),
            None => last_bar(v@) is None,
        },
{
    let mut n: usize = v.len();
    assert(v@.take(n as int) =~= v@);
    while n > 0
        invariant
            n <= v@.len(),
            last_bar(v@) == last_bar(v@.take(n as int)),
        decreases n,
    {
        assert(v@.take(n as int).last() == v@[n - 1]);
        assert(v@.take(n as int).drop_last() =~= v@.take(n - 1));
        if v[n - 1] == '|' {
            return Some(n - 1);
        }
        n = n - 1;
    }
    None
}

/// The `.jar` files of a remote folder with their sizes, from the lines the
/// listing command printed.
pub fn parse_remote_index(stdout: &str) -> (r: Vec<(String, u64)>)
    ensures
        index_views(r@) == listing_fold(lines(stdout@)),
{
    let v = chars_of(stdout);
    let ls = lines_chars(&v);
    let ghost lv = views(ls@);
    let mut files: Vec<(String, u64)> = Vec::new();
    let mut k: usize = 0;
    assert(lv.take(0) =~= Seq::<Seq<char>>::empty());
    while k < ls.len()
        invariant
            k <= ls@.len(),
            lv == views(ls@),
            lv == lines(stdout@),
            index_views(files@) == listing_fold(lv.take(k as int)),
        decreases ls@.len() - k,
    {
        assert(lv.take(k + 1).drop_last() =~= lv.take(k as int));
        assert(lv.take(k + 1).last() == ls@[k as int]@);
        let l = trim_chars(&ls[k]);
        if l.len() > 0 {
            match last_bar_exec(&l) {
                None => {},
                Some(i) => {
                    let name = slice_chars(&l, 0, i);
                    let raw = slice_chars(&l, i + 1, l.len());
                    let size_text = trim_chars(&raw);
                    match parse_u64(&size_text) {
                        Some(size) => {
                            if name.len() > 0 {
                                let ghost before = files@;
                                files.push((string_of(&name), size));
                                assert(index_views(files@) =~= index_views(before).push((name@, size)));
                            }
                        },
                        None => {},
                    }
                },
            }
        }
        k = k + 1;
    }
    assert(lv.take(ls@.len() as int) =~= lv);
    files
}

/// The remote copy is current when the listing has the file with the same size.
pub fn remote_file_matches(index: &Vec<(String, u64)>, filename: &str, local_size: u64) -> (r: bool)
    ensures
        r == (listed_size(index_views(index@), filename@) == Some(local_size)),
{
    let ghost iv = index_views(index@);
    let fv = chars_of(filename);
    let mut n: usize = index.len();
    assert(iv.take(n as int) =~= iv);
    while n > 0
        invariant
            n <= index@.len(),
            iv == index_views(index@),
            fv@ == filename@,
            listed_size(iv, filename@) == listed_size(iv.take(n as int), filename@),
        decreases n,
    {
        assert(iv.take(n as int).last() == iv[n - 1]);
        assert(iv.take(n as int).drop_last() =~= iv.take(n - 1));
        if eq_str(&fv, index[n - 1].0.as_str()) {
            return index[n - 1].1 == local_size;
        }
        n = n - 1;
    }
    false
}

/// A jar must be uploaded to a lane when it belongs there, the lane has a
/// folder, and the listing lacks a current copy.
pub fn mod_needs_upload_for_lane(
    lane: SyncLane,
    config: &ServerSyncSettings,
    side: &str,
    filename: &str,
    local_size: u64,
    index: Option<&Vec<(String, u64)>>,
) -> (r: bool)
    ensures
        r == (applies_to_lane(lane, side@) && lane_dir_of(*config, lane) is Some && match index {
            Some(ix) => listed_size(index_views(ix@), filename@) != Some(local_size),
            None => true,
        }),
{
    if !mod_applies_to_lane(lane, side) {
        return false;
    }
    if remote_dir_for_lane(config, lane).is_none() {
        return false;
    }
    match index {
        Some(ix) => !remote_file_matches(ix, filename, local_size),
        None => true,
    }
}

/// What the listing of a remote folder failing means.
pub fn format_index_dir_error(host: &str, remote_dir: &str, stderr: &str) -> (r: String)
    ensures
        r@ == if stderr@.len() > 0 {
            ssh_error_text(host@, stderr@)
        } else if contains(lower(remote_dir@), ".ssh/config"@) || ends_with(
            lower(remote_dir@),
            "/config"@,
        ) {
            "Не папка mods."@
        } else {
            "Папка недоступна."@
        },
{
    if !stderr.is_empty() {
        return explain_ssh_error(host, stderr);
    }
    let v = chars_of(remote_dir);
    let l = to_lower(&v);
    if contains_str(&l, ".ssh/config") || ends_with_str(&l, "/config") {
        return "Не папка mods.".to_string();
    }
    "Папка недоступна.".to_string()
}

// ---------------------------------------------------------------------------
// Which remote jars are updates of local ones
// ---------------------------------------------------------------------------

/// What identifies a mod across versions: its file name without `.jar`,
/// decorations and version suffixes, as a match key.
pub open spec fn sync_identity(filename: Seq<char>) -> Seq<char> {
    alnum_key(version_suffixes_stripped(decorations_stripped(trim_end_str(filename, ".jar"@))))
}

pub fn mod_sync_identity_key(filename: &str) -> (r: String)
    ensures
        r@ == sync_identity(filename@),
{
    let v = chars_of(filename);
    let stem = trim_end_str_chars(&v, ".jar");
    let stem_s = string_of(&stem);
    let clean = strip_filename_decorations(stem_s.as_str());
    let stripped = strip_version_suffixes(clean.as_str());
    normalized_match_key(stripped.as_str())
}

pub struct ServerSyncUpdatePair {
    pub remote: String,
    pub local: String,
}

pub struct SyncChangeDetails {
    pub to_update: u32,
    pub to_upload: u32,
    pub to_delete: u32,
    pub upload_names: Vec<String>,
    pub update_pairs: Vec<ServerSyncUpdatePair>,
    pub delete_names: Vec<String>,
}

/// The first index whose name has the identity `key`.
pub open spec fn first_with_identity(names: Seq<Seq<char>>, key: Seq<char>) -> Option<int>
    decreases names.len(),
{
    if names.len() == 0 {
        None
    } else if sync_identity(names[0]) == key {
        Some(0)
    } else {
        match first_with_identity(names.drop_first(), key) {
            Some(i) => Some(i + 1),
            None => None,
        }
    }
}

proof fn lemma_first_with_identity(names: Seq<Seq<char>>, key: Seq<char>, i: int)
    requires
        0 <= i <= names.len(),
        forall|j: int| 0 <= j < i ==> sync_identity(#[trigger] names[j]) != key,
    ensures
        i == names.len() ==> first_with_identity(names, key) is None,
        i < names.len() && sync_identity(names[i]) == key ==> first_with_identity(names, key) == Some(i),
    decreases i,
{
    if i > 0 && names.len() > 0 {
        lemma_first_with_identity(names.drop_first(), key, i - 1);
    } else if i == 0 && names.len() > 0 {
    }
}

/// The classification after the orphans so far: uploads still pending,
/// (remote, local) replacements, and deletions.
pub open spec fn classify_fold(
    pending: Seq<Seq<char>>,
    orphans: Seq<Seq<char>>,
    local_names: Seq<Seq<char>>,
) -> (Seq<Seq<char>>, Seq<(Seq<char>, Seq<char>)>, Seq<Seq<char>>)
    decreases orphans.len(),
{
    if orphans.len() == 0 {
        (pending, Seq::<(Seq<char>, Seq<char>)>::empty(), Seq::<Seq<char>>::empty())
    } else {
        let (p, u, d) = classify_fold(pending, orphans.drop_last(), local_names);
        let orphan = orphans.last();
        let key = sync_identity(orphan);
        match first_with_identity(p, key) {
            Some(i) => (p.remove(i), u.push((orphan, p[i])), d),
            None => match first_with_identity(local_names, key) {
                Some(j) => (p, u.push((orphan, local_names[j])), d),
                None => (p, u, d.push(orphan)),
            },
        }
    }
}

proof fn lemma_first_with_identity_found(names: Seq<Seq<char>>, key: Seq<char>)
    ensures
        first_with_identity(names, key) matches Some(i) ==> 0 <= i < names.len() && sync_identity(names[i]) == key,
    decreases names.len(),
{
    if names.len() > 0 && sync_identity(names[0]) != key {
        lemma_first_with_identity_found(names.drop_first(), key);
    }
}

/// Every remote jar that is not wanted is either replaced by a local jar of
/// the same mod or deleted, never both; a replacement takes up at most one
/// pending upload.
pub proof fn lemma_orphans_replaced_or_deleted(
    pending: Seq<Seq<char>>,
    orphans: Seq<Seq<char>>,
    local_names: Seq<Seq<char>>,
)
    ensures
        ({
            let (p, u, d) = classify_fold(pending, orphans, local_names);
            &&& u.len() + d.len() == orphans.len()
            &&& p.len() + u.len() >= pending.len()
            &&& p.len() <= pending.len()
            &&& forall|k: int| 0 <= k < u.len() ==> sync_identity((#[trigger] u[k]).0) == sync_identity(u[k].1)
        }),
    decreases orphans.len(),
{
    if orphans.len() > 0 {
        lemma_orphans_replaced_or_deleted(pending, orphans.drop_last(), local_names);
        let (p, u, d) = classify_fold(pending, orphans.drop_last(), local_names);
        let orphan = orphans.last();
        let key = sync_identity(orphan);
        lemma_first_with_identity_found(p, key);
        lemma_first_with_identity_found(local_names, key);
        let (p2, u2, d2) = classify_fold(pending, orphans, local_names);
        assert forall|k: int| 0 <= k < u2.len() implies sync_identity((#[trigger] u2[k]).0) == sync_identity(u2[k].1) by {
            if k < u.len() {
                assert(u2[k] == u[k]);
            }
        }
    }
}

pub open spec fn pair_views(v: Seq<ServerSyncUpdatePair>) -> Seq<(Seq<char>, Seq<char>)> {
    v.map_values(|p: ServerSyncUpdatePair| (p.remote@, p.local@))
}

fn find_identity(names: &Vec<String>, key: &[char]) -> (r: Option<usize>)
    ensures
        match r {
            Some(i) => first_with_identity(string_views(names@), key@) == Some(i as int) && i
                < names@.len(),
            None => first_with_identity(string_views(names@), key@) is None,
        },
{
    let ghost nv = string_views(names@);
    let mut i: usize = 0;
    while i < names.len()
        invariant
            i <= names@.len(),
            nv == string_views(names@),
            forall|j: int| 0 <= j < i ==> sync_identity(#[trigger] nv[j]) != key@,
        decreases names@.len() - i,
    {
        let k = mod_sync_identity_key(names[i].as_str());
        if eq_str(key, k.as_str()) {
            proof {
                lemma_first_with_identity(nv, key@, i as int);
            }
            return Some(i);
        }
        i = i + 1;
    }
    proof {
        lemma_first_with_identity(nv, key@, i as int);
    }
    None
}

/// Sorts the remote jars that are not wanted (orphans) into updates of a
/// local jar — paired first with a pending upload, else with any jar of the
/// lane — and plain deletions; pending uploads paired this way are no longer
/// counted as uploads.
pub fn classify_sync_changes(pending: &[String], orphans: &[String], local_lane_names: &[String]) -> (r:
    SyncChangeDetails)
    requires
        orphans@.len() <= 0xffff_ffff,
        pending@.len() <= 0xffff_ffff,
    ensures
        ({
            let (p, u, d) = classify_fold(
                string_views(pending@),
                string_views(orphans@),
                string_views(local_lane_names@),
            );
            &&& string_views(r.upload_names@) == p
            &&& pair_views(r.update_pairs@) == u
            &&& string_views(r.delete_names@) == d
            &&& r.to_update == u.len()
            &&& r.to_upload == p.len()
            &&& r.to_delete == d.len()
        }),
{
    let ghost pv = string_views(pending@);
    let ghost ov = string_views(orphans@);
    let ghost lv = string_views(local_lane_names@);
    let mut pend: Vec<String> = Vec::new();
    let mut t: usize = 0;
    while t < pending.len()
        invariant
            t <= pending@.len(),
            string_views(pend@) == pv.take(t as int),
            pv == string_views(pending@),
        decreases pending@.len() - t,
    {
        let ghost before = pend@;
        pend.push(pending[t].clone());
        assert(string_views(pend@) =~= string_views(before).push(pending@[t as int]@));
        assert(pv.take(t + 1) =~= pv.take(t as int).push(pending@[t as int]@));
        t = t + 1;
    }
    assert(pv.take(pending@.len() as int) =~= pv);
    let locals = copy_names(local_lane_names);
    let mut update_pairs: Vec<ServerSyncUpdatePair> = Vec::new();
    let mut delete_names: Vec<String> = Vec::new();
    let mut i: usize = 0;
    assert(ov.take(0) =~= Seq::<Seq<char>>::empty());
    while i < orphans.len()
        invariant
            i <= orphans@.len(),
            orphans@.len() <= 0xffff_ffff,
            pending@.len() <= 0xffff_ffff,
            ov == string_views(orphans@),
            string_views(locals@) == lv,
            (string_views(pend@), pair_views(update_pairs@), string_views(delete_names@))
                == classify_fold(pv, ov.take(i as int), lv),
            update_pairs@.len() + delete_names@.len() == i,
            pend@.len() <= pending@.len(),
        decreases orphans@.len() - i,
    {
        assert(ov.take(i + 1).drop_last() =~= ov.take(i as int));
        assert(ov.take(i + 1).last() == orphans@[i as int]@);
        let orphan = &orphans[i];
        let key = mod_sync_identity_key(orphan.as_str());
        let kv = chars_of(key.as_str());
        match find_identity(&pend, &kv) {
            Some(pos) => {
                let ghost before_p = pend@;
                let ghost before_u = update_pairs@;
                let local = pend.remove(pos);
                assert(string_views(pend@) =~= string_views(before_p).remove(pos as int));
                update_pairs.push(ServerSyncUpdatePair { remote: orphan.clone(), local });
                assert(pair_views(update_pairs@) =~= pair_views(before_u).push(
                    (orphan@, string_views(before_p)[pos as int]),
                ));
            },
            None => match find_identity(&locals, &kv) {
                Some(j) => {
                    let ghost before_u = update_pairs@;
                    update_pairs.push(
                        ServerSyncUpdatePair { remote: orphan.clone(), local: locals[j].clone() },
                    );
                    assert(pair_views(update_pairs@) =~= pair_views(before_u).push(
                        (orphan@, lv[j as int]),
                    ));
                },
                None => {
                    let ghost before_d = delete_names@;
                    delete_names.push(orphan.clone());
                    assert(string_views(delete_names@) =~= string_views(before_d).push(orphan@));
                },
            },
        }
        i = i + 1;
    }
    assert(ov.take(orphans@.len() as int) =~= ov);
    SyncChangeDetails {
        to_update: update_pairs.len() as u32,
        to_upload: pend.len() as u32,
        to_delete: delete_names.len() as u32,
        upload_names: pend,
        update_pairs,
        delete_names,
    }
}

fn copy_names(v: &[String]) -> (r: Vec<String>)
    ensures
        string_views(r@) == string_views(v@),
{
    let mut r: Vec<String> = Vec::new();
    let mut i: usize = 0;
    while i < v.len()
        invariant
            i <= v@.len(),
            string_views(r@) == string_views(v@).take(i as int),
        decreases v@.len() - i,
    {
        let ghost before = r@;
        r.push(v[i].clone());
        assert(string_views(r@) =~= string_views(before).push(v@[i as int]@));
        assert(string_views(v@).take(i + 1) =~= string_views(v@).take(i as int).push(v@[i as int]@));
        i = i + 1;
    }
    assert(string_views(v@).take(v@.len() as int) =~= string_views(v@));
    r
}

// ---------------------------------------------------------------------------
// Jars of a lane
// ---------------------------------------------------------------------------

/// The local jars a lane should hold: enabled mods that belong to it, each
/// file name once, in list order.
pub open spec fn lane_names_fold(mods: Seq<ModEntry>, lane: SyncLane) -> Seq<Seq<char>>
    decreases mods.len(),
{
    if mods.len() == 0 {
        Seq::<Seq<char>>::empty()
    } else {
        let prev = lane_names_fold(mods.drop_last(), lane);
        let m = mods.last();
        if !m.disabled && applies_to_lane(lane, m.side@) && !prev.contains(m.filename@) {
            prev.push(m.filename@)
        } else {
            prev
        }
    }
}

fn contains_name(v: &Vec<String>, x: &str) -> (r: bool)
    ensures
        r == string_views(v@).contains(x@),
{
    let xv = chars_of(x);
    let mut i: usize = 0;
    while i < v.len()
        invariant
            i <= v@.len(),
            xv@ == x@,
            forall|j: int| 0 <= j < i ==> string_views(v@)[j] != x@,
        decreases v@.len() - i,
    {
        if eq_str(&xv, v[i].as_str()) {
            assert(string_views(v@)[i as int] == x@);
            return true;
        }
        i = i + 1;
    }
    false
}

pub fn lane_allowed_names(mods: &[ModEntry], lane: SyncLane) -> (r: Vec<String>)
    ensures
        string_views(r@) == lane_names_fold(mods@, lane),
{
    let mut out: Vec<String> = Vec::new();
    let mut i: usize = 0;
    assert(mods@.take(0) =~= Seq::<ModEntry>::empty());
    while i < mods.len()
        invariant
            i <= mods@.len(),
            string_views(out@) == lane_names_fold(mods@.take(i as int), lane),
        decreases mods@.len() - i,
    {
        assert(mods@.take(i + 1).drop_last() =~= mods@.take(i as int));
        let m = &mods[i];
        if !m.disabled && mod_applies_to_lane(lane, m.side.as_str()) && !contains_name(
            &out,
            m.filename.as_str(),
        ) {
            let ghost before = out@;
            out.push(m.filename.clone());
            assert(string_views(out@) =~= string_views(before).push(m.filename@));
        }
        i = i + 1;
    }
    assert(mods@.take(mods@.len() as int) =~= mods@);
    out
}

pub struct ServerSyncDeleteItem {
    pub filename: String,
    pub side: String,
    pub library: bool,
    pub technical: bool,
}

/// The mod a remote file belongs to: the one with that file name, else the
/// first with the same identity.
pub open spec fn entry_for_remote(mods: Seq<ModEntry>, filename: Seq<char>) -> Option<ModEntry> {
    if exists|i: int| 0 <= i < mods.len() && (#[trigger] mods[i]).filename@ == filename {
        let i = choose|i: int|
            0 <= i < mods.len() && (#[trigger] mods[i]).filename@ == filename && forall|j: int|
                0 <= j < i ==> (#[trigger] mods[j]).filename@ != filename;
        Some(mods[i])
    } else if exists|i: int|
        0 <= i < mods.len() && sync_identity((#[trigger] mods[i]).filename@) == sync_identity(filename) {
        let i = choose|i: int|
            0 <= i < mods.len() && sync_identity((#[trigger] mods[i]).filename@) == sync_identity(
                filename,
            ) && forall|j: int|
                0 <= j < i ==> sync_identity((#[trigger] mods[j]).filename@) != sync_identity(
                    filename,
                );
        Some(mods[i])
    } else {
        None
    }
}

fn entry_index_for_remote(mods: &[ModEntry], filename: &str) -> (r: Option<usize>)
    ensures
        match r {
            Some(i) => i < mods@.len() && entry_for_remote(mods@, filename@) == Some(mods@[i as int]),
            None => entry_for_remote(mods@, filename@) is None,
        },
{
    let fv = chars_of(filename);
    let mut i: usize = 0;
    while i < mods.len()
        invariant
            i <= mods@.len(),
            fv@ == filename@,
            forall|j: int| 0 <= j < i ==> (#[trigger] mods@[j]).filename@ != filename@,
        decreases mods@.len() - i,
    {
        if eq_str(&fv, mods[i].filename.as_str()) {
            proof {
                let k = choose|k: int|
                    0 <= k < mods@.len() && (#[trigger] mods@[k]).filename@ == filename@ && forall|j: int|
                        0 <= j < k ==> (#[trigger] mods@[j]).filename@ != filename@;
                assert(0 <= i < mods@.len() && mods@[i as int].filename@ == filename@ && forall|j: int|
                    0 <= j < i ==> (#[trigger] mods@[j]).filename@ != filename@);
                if k < i {
                } else if k > i {
                    assert(mods@[i as int].filename@ != filename@);
                }
            }
            return Some(i);
        }
        i = i + 1;
    }
    let key = mod_sync_identity_key(filename);
    let kv = chars_of(key.as_str());
    let mut i: usize = 0;
    while i < mods.len()
        invariant
            i <= mods@.len(),
            kv@ == sync_identity(filename@),
            forall|j: int| 0 <= j < mods@.len() ==> (#[trigger] mods@[j]).filename@ != filename@,
            forall|j: int| 0 <= j < i ==> sync_identity((#[trigger] mods@[j]).filename@) != sync_identity(filename@),
        decreases mods@.len() - i,
    {
        let k = mod_sync_identity_key(mods[i].filename.as_str());
        if eq_str(&kv, k.as_str()) {
            proof {
                let c = choose|c: int|
                    0 <= c < mods@.len() && sync_identity((#[trigger] mods@[c]).filename@) == sync_identity(
                        filename@,
                    ) && forall|j: int|
                        0 <= j < c ==> sync_identity((#[trigger] mods@[j]).filename@) != sync_identity(
                            filename@,
                        );
                assert(0 <= i < mods@.len() && sync_identity(mods@[i as int].filename@) == sync_identity(filename@));
                if c < i {
                } else if c > i {
                    assert(sync_identity(mods@[i as int].filename@) != sync_identity(filename@));
                }
            }
            return Some(i);
        }
        i = i + 1;
    }
    None
}

/// What is shown for each remote file to delete: its mod's side and labels,
/// when a local mod matches it.
pub fn delete_items_for_names(mods: &[ModEntry], names: &[String]) -> (r: Vec<ServerSyncDeleteItem>)
    ensures
        r@.len() == names@.len(),
        forall|i: int|
            0 <= i < names@.len() ==> {
                &&& (#[trigger] r@[i]).filename@ == names@[i]@
                &&& match entry_for_remote(mods@, names@[i]@) {
                    Some(m) => r@[i].side@ == m.side@ && r@[i].library == m.library && r@[i].technical
                        == m.technical,
                    None => r@[i].side@.len() == 0 && !r@[i].library && !r@[i].technical,
                }
            },
{
    let mut out: Vec<ServerSyncDeleteItem> = Vec::new();
    let mut i: usize = 0;
    while i < names.len()
        invariant
            i <= names@.len(),
            out@.len() == i,
            forall|k: int|
                0 <= k < i ==> {
                    &&& (#[trigger] out@[k]).filename@ == names@[k]@
                    &&& match entry_for_remote(mods@, names@[k]@) {
                        Some(m) => out@[k].side@ == m.side@ && out@[k].library == m.library
                            && out@[k].technical == m.technical,
                        None => out@[k].side@.len() == 0 && !out@[k].library && !out@[k].technical,
                    }
                },
        decreases names@.len() - i,
    {
        let name = &names[i];
        let item = match entry_index_for_remote(mods, name.as_str()) {
            Some(j) => ServerSyncDeleteItem {
                filename: name.clone(),
                side: mods[j].side.clone(),
                library: mods[j].library,
                technical: mods[j].technical,
            },
            None => ServerSyncDeleteItem {
                filename: name.clone(),
                side: String::new(),
                library: false,
                technical: false,
            },
        };
        out.push(item);
        i = i + 1;
    }
    out
}

// ---------------------------------------------------------------------------
// Progress of a lane
// ---------------------------------------------------------------------------

pub struct ServerSyncProgress {
    pub target: String,
    pub active: bool,
    pub phase: String,
    pub current: u32,
    pub total: u32,
    pub total_all: u32,
    pub already_synced: u32,
    pub filename: String,
    pub uploaded: u32,
    pub skipped: u32,
    pub deleted: u32,
    pub deleted_extra: u32,
    pub replaced_remote: u32,
    pub errors: Vec<String>,
    pub uploaded_names: Vec<String>,
    pub skipped_names: Vec<String>,
    pub deleted_names: Vec<String>,
    pub deleted_items: Vec<ServerSyncDeleteItem>,
    pub update_pairs: Vec<ServerSyncUpdatePair>,
    pub done: bool,
    pub ok: bool,
}

/// Nothing going on, nothing counted.
pub open spec fn is_idle(p: ServerSyncProgress) -> bool {
    &&& p.target@.len() == 0
    &&& !p.active
    &&& p.phase@.len() == 0
    &&& p.current == 0
    &&& p.total == 0
    &&& p.total_all == 0
    &&& p.already_synced == 0
    &&& p.filename@.len() == 0
    &&& p.uploaded == 0
    &&& p.skipped == 0
    &&& p.deleted == 0
    &&& p.deleted_extra == 0
    &&& p.replaced_remote == 0
    &&& p.errors@.len() == 0
    &&& p.uploaded_names@.len() == 0
    &&& p.skipped_names@.len() == 0
    &&& p.deleted_names@.len() == 0
    &&& p.deleted_items@.len() == 0
    &&& p.update_pairs@.len() == 0
    &&& !p.done
    &&& !p.ok
}

impl ServerSyncProgress {
    pub fn idle() -> (r: Self)
        ensures
            is_idle(r),
    {
        ServerSyncProgress {
            target: String::new(),
            active: false,
            phase: String::new(),
            current: 0,
            total: 0,
            total_all: 0,
            already_synced: 0,
            filename: String::new(),
            uploaded: 0,
            skipped: 0,
            deleted: 0,
            deleted_extra: 0,
            replaced_remote: 0,
            errors: Vec::new(),
            uploaded_names: Vec::new(),
            skipped_names: Vec::new(),
            deleted_names: Vec::new(),
            deleted_items: Vec::new(),
            update_pairs: Vec::new(),
            done: false,
            ok: false,
        }
    }

    /// Comparing the local and remote folders.
    pub fn checking(total_all: u32) -> (r: Self)
        ensures
            r.active,
            r.phase@ == "checking"@,
            r.total_all == total_all,
            r.current == 0 && r.total == 0 && r.uploaded == 0 && r.skipped == 0 && r.deleted == 0,
            r.errors@.len() == 0 && !r.done && !r.ok,
    {
        let mut p = Self::idle();
        p.active = true;
        p.phase = "checking".to_string();
        p.total_all = total_all;
        p
    }

    /// Uploading begins: what is already there counts as skipped.
    pub fn uploading(total: u32, already_synced: u32, total_all: u32, already_synced_names: Vec<String>) -> (r:
        Self)
        ensures
            r.active,
            r.phase@ == "uploading"@,
            r.total == total,
            r.total_all == total_all,
            r.already_synced == already_synced,
            r.skipped == already_synced,
            r.skipped_names@ == already_synced_names@,
            r.current == 0 && r.uploaded == 0 && r.deleted == 0,
            r.errors@.len() == 0 && r.uploaded_names@.len() == 0 && !r.done && !r.ok,
    {
        let mut p = Self::idle();
        p.active = true;
        p.phase = "uploading".to_string();
        p.total = total;
        p.total_all = total_all;
        p.already_synced = already_synced;
        p.skipped = already_synced;
        p.skipped_names = already_synced_names;
        p
    }

    /// Deleting extra remote jars.
    pub fn set_pruning(&mut self, to_delete: u32, already_synced: u32, already_synced_names: Vec<String>)
        ensures
            final(self).active,
            final(self).phase@ == "pruning"@,
            final(self).total == to_delete,
            final(self).current == 0,
            final(self).already_synced == already_synced,
            final(self).skipped == already_synced,
            final(self).skipped_names@ == already_synced_names@,
            !final(self).done && !final(self).ok,
            final(self).filename@.len() == 0,
            final(self).uploaded == old(self).uploaded,
            final(self).uploaded_names@ == old(self).uploaded_names@,
            final(self).errors@ == old(self).errors@,
            final(self).total_all == old(self).total_all,
    {
        self.active = true;
        self.phase = "pruning".to_string();
        self.total = to_delete;
        self.current = 0;
        self.already_synced = already_synced;
        self.skipped = already_synced;
        self.skipped_names = already_synced_names;
        self.done = false;
        self.ok = false;
        self.filename = String::new();
    }

    /// The jar being uploaded.
    pub fn set_step(&mut self, current: u32, total: u32, filename: &str)
        ensures
            final(self).active,
            final(self).phase@ == "uploading"@,
            final(self).current == current,
            final(self).total == total,
            final(self).filename@ == filename@,
            !final(self).done && !final(self).ok,
            final(self).uploaded == old(self).uploaded,
            final(self).skipped == old(self).skipped,
            final(self).uploaded_names@ == old(self).uploaded_names@,
            final(self).skipped_names@ == old(self).skipped_names@,
            final(self).errors@ == old(self).errors@,
    {
        self.active = true;
        self.phase = "uploading".to_string();
        self.current = current;
        self.total = total;
        self.filename = filename.to_string();
        self.done = false;
        self.ok = false;
    }

    /// One jar's outcome: uploaded, skipped, and/or an error.
    pub fn add_result(&mut self, uploaded: bool, skipped: bool, filename: &str, error: Option<String>)
        requires
            old(self).uploaded < 0xffff_ffff,
            old(self).skipped < 0xffff_ffff,
        ensures
            final(self).uploaded == old(self).uploaded + if uploaded {
                1int
            } else {
                0
            },
            final(self).skipped == old(self).skipped + if skipped {
                1int
            } else {
                0
            },
            string_views(final(self).uploaded_names@) == if uploaded {
                string_views(old(self).uploaded_names@).push(filename@)
            } else {
                string_views(old(self).uploaded_names@)
            },
            string_views(final(self).skipped_names@) == if skipped {
                string_views(old(self).skipped_names@).push(filename@)
            } else {
                string_views(old(self).skipped_names@)
            },
            string_views(final(self).errors@) == match error {
                Some(m) => string_views(old(self).errors@).push(m@),
                None => string_views(old(self).errors@),
            },
            final(self).active == old(self).active,
            final(self).done == old(self).done,
            final(self).current == old(self).current,
            final(self).total == old(self).total,
    {
        if uploaded {
            self.uploaded = self.uploaded + 1;
            let ghost before = self.uploaded_names@;
            self.uploaded_names.push(filename.to_string());
            assert(string_views(self.uploaded_names@) =~= string_views(before).push(filename@));
        }
        if skipped {
            self.skipped = self.skipped + 1;
            let ghost before = self.skipped_names@;
            self.skipped_names.push(filename.to_string());
            assert(string_views(self.skipped_names@) =~= string_views(before).push(filename@));
        }
        match error {
            Some(m) => {
                let ghost before = self.errors@;
                let ghost mv = m@;
                self.errors.push(m);
                assert(string_views(self.errors@) =~= string_views(before).push(mv));
            },
            None => {},
        }
    }

    /// What the pruning removed or replaced.
    pub fn set_prune_details(
        &mut self,
        deleted: u32,
        deleted_extra: u32,
        replaced_remote: u32,
        delete_names: Vec<String>,
        delete_items: Vec<ServerSyncDeleteItem>,
        update_pairs: Vec<ServerSyncUpdatePair>,
    )
        ensures
            final(self).deleted == deleted,
            final(self).deleted_extra == deleted_extra,
            final(self).replaced_remote == replaced_remote,
            final(self).deleted_names@ == delete_names@,
            final(self).deleted_items@ == delete_items@,
            final(self).update_pairs@ == update_pairs@,
            final(self).uploaded == old(self).uploaded,
            final(self).skipped == old(self).skipped,
            final(self).active == old(self).active,
            final(self).done == old(self).done,
            final(self).errors@ == old(self).errors@,
    {
        self.deleted = deleted;
        self.deleted_extra = deleted_extra;
        self.replaced_remote = replaced_remote;
        self.deleted_names = delete_names;
        self.deleted_items = delete_items;
        self.update_pairs = update_pairs;
    }

    /// The run is over: counts and names stay, the step is cleared.
    pub fn finish(&mut self, ok: bool)
        ensures
            !final(self).active,
            final(self).done,
            final(self).ok == ok,
            final(self).phase@.len() == 0,
            final(self).filename@.len() == 0,
            final(self).current == 0,
            final(self).total == 0,
            final(self).uploaded == old(self).uploaded,
            final(self).skipped == old(self).skipped,
            final(self).deleted == old(self).deleted,
            final(self).uploaded_names@ == old(self).uploaded_names@,
            final(self).skipped_names@ == old(self).skipped_names@,
            final(self).errors@ == old(self).errors@,
    {
        self.active = false;
        self.done = true;
        self.ok = ok;
        self.phase = String::new();
        self.filename = String::new();
        self.current = 0;
        self.total = 0;
    }

    /// A run that could not start: done, failed, with its one error.
    pub fn failed_start(message: String) -> (r: Self)
        ensures
            !r.active,
            r.done,
            !r.ok,
            string_views(r.errors@) == seq![message@],
            r.uploaded == 0 && r.skipped == 0 && r.deleted == 0 && r.total == 0 && r.current == 0,
    {
        let mut p = Self::idle();
        p.done = true;
        let ghost mv = message@;
        p.errors.push(message);
        assert(string_views(p.errors@) =~= seq![mv]);
        p
    }
}

/// Whether a lane is running and whether it was asked to stop.
pub struct LaneRunState {
    pub running: bool,
    pub cancelled: bool,
}

/// Trying to start a run: it starts unless one is going, and a new run is
/// not cancelled.
pub open spec fn acquired(s: LaneRunState) -> (bool, LaneRunState) {
    if s.running {
        (false, s)
    } else {
        (true, LaneRunState { running: true, cancelled: false })
    }
}

/// The run ended (finished, failed or reset).
pub open spec fn released(s: LaneRunState) -> LaneRunState {
    LaneRunState { running: false, ..s }
}

impl LaneRunState {
    pub fn new() -> (r: Self)
        ensures
            !r.running,
            !r.cancelled,
    {
        LaneRunState { running: false, cancelled: false }
    }

    pub fn try_acquire(&mut self) -> (started: bool)
        ensures
            (started, *final(self)) == acquired(*old(self)),
    {
        if self.running {
            return false;
        }
        self.running = true;
        self.cancelled = false;
        true
    }

    pub fn request_cancel(&mut self)
        ensures
            final(self).cancelled,
            final(self).running == old(self).running,
    {
        self.cancelled = true;
    }

    pub fn release(&mut self)
        ensures
            *final(self) == released(*old(self)),
    {
        self.running = false;
    }
}

/// A lane runs one synchronisation at a time: once a run has started,
/// another cannot start until it is released, and then one can.
pub proof fn lemma_one_run_at_a_time(s: LaneRunState)
    ensures
        acquired(s).0 ==> !acquired(acquired(s).1).0,
        acquired(released(s)).0,
        !acquired(s).0 ==> acquired(s).1 == s,
{
}

// ---------------------------------------------------------------------------
// Side of a mod when syncing
// ---------------------------------------------------------------------------

/// The side a mod is synced by: the one its tag resolves to, unknown without
/// a tag.
pub open spec fn sync_side(tag: Option<ModTags>) -> Seq<char> {
    match tag {
        Some(t) => resolved_side(t),
        None => unknown_side(),
    }
}

pub fn mod_side(tag: Option<&ModTags>) -> (r: String)
    ensures
        r@ == sync_side(match tag {
            Some(t) => Some(*t),
            None => None,
        }),
{
    match tag {
        Some(t) => resolve_side(t),
        None => unknown_side_string(),
    }
}

pub open spec fn linked_source(source: Seq<char>) -> bool {
    source == "modrinth"@ || source == "curseforge"@
}

/// A linked mod whose provider labels were never fetched.
pub open spec fn labels_missing(tag: Option<ModTags>) -> bool {
    match tag {
        Some(t) => t.provider_labels.fetched_at@.len() == 0 && linked_source(t.source@),
        None => false,
    }
}

/// Before a mod is synced, its labels are fetched when it is linked and
/// has none yet.
pub fn sync_labels_needed(tag: Option<&ModTags>) -> (r: bool)
    ensures
        r == labels_missing(match tag {
            Some(t) => Some(*t),
            None => None,
        }),
{
    match tag {
        Some(t) => {
            let s = chars_of(t.source.as_str());
            t.provider_labels.fetched_at.as_str().is_empty() && (eq_str(&s, "modrinth") || eq_str(&s, "curseforge"))
        },
        None => false,
    }
}

/// The upload to the server waits while the side is unknown, or while a
/// universal side is only the scan's guess for a linked mod without labels.
pub open spec fn defers_server_upload(tag: Option<ModTags>, side: Seq<char>) -> bool {
    if side == "unknown"@ {
        true
    } else if side != "universal"@ {
        false
    } else {
        labels_missing(tag)
    }
}

pub fn should_defer_server_upload(tag: Option<&ModTags>, side: &str) -> (r: bool)
    ensures
        r == defers_server_upload(match tag {
            Some(t) => Some(*t),
            None => None,
        }, side@),
{
    let sv = chars_of(side);
    if eq_str(&sv, "unknown") {
        return true;
    }
    if !eq_str(&sv, "universal") {
        return false;
    }
    sync_labels_needed(tag)
}

/// The side a mod is uploaded as: the client side while the upload to the
/// server waits, else its own.
pub fn sync_upload_side(tag: Option<&ModTags>, side: &str) -> (r: String)
    ensures
        r@ == if defers_server_upload(match tag {
            Some(t) => Some(*t),
            None => None,
        }, side@) {
            "client"@
        } else {
            side@
        },
{
    if should_defer_server_upload(tag, side) {
        "client".to_string()
    } else {
        side.to_string()
    }
}

// ---------------------------------------------------------------------------
// Matching remote jars to mods
// ---------------------------------------------------------------------------

/// The first mod with this file name.
pub open spec fn exact_file(mods: Seq<ModEntry>, filename: Seq<char>) -> Option<int>
    decreases mods.len(),
{
    if mods.len() == 0 {
        None
    } else {
        match exact_file(mods.drop_last(), filename) {
            Some(i) => Some(i),
            None => if mods.last().filename@ == filename {
                Some(mods.len() - 1)
            } else {
                None
            },
        }
    }
}

/// The first mod whose file name has this identity.
pub open spec fn same_identity_file(mods: Seq<ModEntry>, key: Seq<char>) -> Option<int>
    decreases mods.len(),
{
    if mods.len() == 0 {
        None
    } else {
        match same_identity_file(mods.drop_last(), key) {
            Some(i) => Some(i),
            None => if sync_identity(mods.last().filename@) == key {
                Some(mods.len() - 1)
            } else {
                None
            },
        }
    }
}

/// The mod a remote jar belongs to: the one with its file name, else the
/// first with the same identity.
pub open spec fn mod_for_remote_file(mods: Seq<ModEntry>, filename: Seq<char>) -> Option<int> {
    match exact_file(mods, filename) {
        Some(i) => Some(i),
        None => same_identity_file(mods, sync_identity(filename)),
    }
}

pub fn mod_entry_for_sync_filename(mods: &[ModEntry], filename: &str) -> (r: Option<usize>)
    ensures
        match r {
            Some(i) => mod_for_remote_file(mods@, filename@) == Some(i as int) && i < mods@.len(),
            None => mod_for_remote_file(mods@, filename@) is None,
        },
{
    let fv = chars_of(filename);
    let mut i: usize = 0;
    while i < mods.len()
        invariant
            i <= mods@.len(),
            fv@ == filename@,
            exact_file(mods@.take(i as int), filename@) is None,
        decreases mods@.len() - i,
    {
        assert(mods@.take(i + 1).drop_last() =~= mods@.take(i as int));
        if eq_str(&fv, mods[i].filename.as_str()) {
            proof {
                lemma_first_found(mods@, i as int, filename@, true);
            }
            return Some(i);
        }
        i = i + 1;
    }
    assert(mods@.take(mods@.len() as int) =~= mods@);
    let key = mod_sync_identity_key(filename);
    let kv = chars_of(key.as_str());
    let mut j: usize = 0;
    while j < mods.len()
        invariant
            j <= mods@.len(),
            kv@ == sync_identity(filename@),
            exact_file(mods@, filename@) is None,
            same_identity_file(mods@.take(j as int), kv@) is None,
        decreases mods@.len() - j,
    {
        assert(mods@.take(j + 1).drop_last() =~= mods@.take(j as int));
        let other = mod_sync_identity_key(mods[j].filename.as_str());
        if eq_str(&kv, other.as_str()) {
            proof {
                lemma_first_found(mods@, j as int, kv@, false);
            }
            return Some(j);
        }
        j = j + 1;
    }
    assert(mods@.take(mods@.len() as int) =~= mods@);
    None
}

proof fn lemma_first_found(mods: Seq<ModEntry>, i: int, x: Seq<char>, exact: bool)
    requires
        0 <= i < mods.len(),
        exact ==> exact_file(mods.take(i), x) is None && mods[i].filename@ == x,
        !exact ==> same_identity_file(mods.take(i), x) is None && sync_identity(mods[i].filename@) == x,
    ensures
        exact ==> exact_file(mods, x) == Some(i),
        !exact ==> same_identity_file(mods, x) == Some(i),
    decreases mods.len() - i,
{
    assert(mods.take(i + 1).drop_last() =~= mods.take(i));
    lemma_found_stays(mods, i, i + 1, x, exact);
}

proof fn lemma_found_stays(mods: Seq<ModEntry>, i: int, n: int, x: Seq<char>, exact: bool)
    requires
        0 <= i < n <= mods.len(),
        exact ==> exact_file(mods.take(n), x) == Some(i),
        !exact ==> same_identity_file(mods.take(n), x) == Some(i),
    ensures
        exact ==> exact_file(mods, x) == Some(i),
        !exact ==> same_identity_file(mods, x) == Some(i),
    decreases mods.len() - n,
{
    if n == mods.len() {
        assert(mods.take(n) =~= mods);
    } else {
        assert(mods.take(n + 1).drop_last() =~= mods.take(n));
        lemma_found_stays(mods, i, n + 1, x, exact);
    }
}

/// The remote jars that are not wanted, sorted against the jars the lane
/// carries.
pub fn classify_lane_orphans(mods: &[ModEntry], lane: SyncLane, pending: &[String], orphans: &[String]) -> (r:
    SyncChangeDetails)
    requires
        orphans@.len() <= 0xffff_ffff,
        pending@.len() <= 0xffff_ffff,
    ensures
        ({
            let (p, u, d) = classify_fold(string_views(pending@), string_views(orphans@), lane_names_fold(mods@, lane));
            &&& string_views(r.upload_names@) == p
            &&& pair_views(r.update_pairs@) == u
            &&& string_views(r.delete_names@) == d
            &&& r.to_upload == p.len()
            &&& r.to_delete == d.len()
            &&& r.to_update == u.len()
        }),
{
    let local = lane_allowed_names(mods, lane);
    classify_sync_changes(pending, orphans, local.as_slice())
}

// ---------------------------------------------------------------------------
// Remote jars that are not wanted
// ---------------------------------------------------------------------------

/// The listed remote jars whose names are not among the allowed ones, in
/// listing order.
pub open spec fn orphans_of(listed: Seq<Seq<char>>, allowed: Seq<Seq<char>>) -> Seq<Seq<char>>
    decreases listed.len(),
{
    if listed.len() == 0 {
        Seq::empty()
    } else if allowed.contains(listed.last()) {
        orphans_of(listed.drop_last(), allowed)
    } else {
        orphans_of(listed.drop_last(), allowed).push(listed.last())
    }
}

fn has_name(list: &[String], x: &str) -> (r: bool)
    ensures
        r == string_views(list@).contains(x@),
{
    let xv = chars_of(x);
    let mut i: usize = 0;
    while i < list.len()
        invariant
            i <= list@.len(),
            xv@ == x@,
            forall|j: int| 0 <= j < i ==> string_views(list@)[j] != x@,
        decreases list@.len() - i,
    {
        if eq_str(&xv, list[i].as_str()) {
            assert(string_views(list@)[i as int] == x@);
            return true;
        }
        i = i + 1;
    }
    false
}

pub fn orphan_names(listed: &[String], allowed: &[String]) -> (r: Vec<String>)
    ensures
        string_views(r@) == orphans_of(string_views(listed@), string_views(allowed@)),
{
    let ghost lv = string_views(listed@);
    let mut out: Vec<String> = Vec::new();
    let mut i: usize = 0;
    while i < listed.len()
        invariant
            i <= listed@.len(),
            lv == string_views(listed@),
            string_views(out@) == orphans_of(lv.take(i as int), string_views(allowed@)),
        decreases listed@.len() - i,
    {
        assert(lv.take(i + 1).drop_last() =~= lv.take(i as int));
        assert(lv.take(i + 1).last() == listed@[i as int]@);
        if !has_name(allowed, listed[i].as_str()) {
            let ghost before = out@;
            out.push(listed[i].clone());
            assert(string_views(out@) =~= string_views(before).push(listed@[i as int]@));
        }
        i = i + 1;
    }
    assert(lv.take(lv.len() as int) =~= lv);
    out
}

/// At most this many files go in one remote delete command.
pub const DELETE_BATCH: usize = 50;

/// The quoted, comma-separated paths of a delete command.
pub open spec fn quoted_list(paths: Seq<Seq<char>>) -> Seq<char>
    decreases paths.len(),
{
    if paths.len() == 0 {
        Seq::empty()
    } else if paths.len() == 1 {
        "'"@ + crate::server_control::powershell_escaped(paths[0]) + "'"@
    } else {
        quoted_list(paths.drop_last()) + ","@ + "'"@ + crate::server_control::powershell_escaped(paths.last()) + "'"@
    }
}

/// The PowerShell command that deletes remote files, missing ones quietly.
pub open spec fn delete_files_script(paths: Seq<Seq<char>>) -> Seq<char> {
    "powershell -NoProfile -Command \"Remove-Item -LiteralPath "@ + quoted_list(paths)
        + " -Force -ErrorAction SilentlyContinue\""@
}

pub fn delete_files_command(paths: &[String]) -> (r: String)
    ensures
        r@ == delete_files_script(string_views(paths@)),
{
    let ghost pv = string_views(paths@);
    let mut list = String::new();
    let mut i: usize = 0;
    while i < paths.len()
        invariant
            i <= paths@.len(),
            pv == string_views(paths@),
            list@ == quoted_list(pv.take(i as int)),
        decreases paths@.len() - i,
    {
        assert(pv.take(i + 1).drop_last() =~= pv.take(i as int));
        assert(pv.take(i + 1).last() == paths@[i as int]@);
        if i > 0 {
            list.append(",");
        } else {
            assert(pv.take(1)[0] == paths@[0]@);
        }
        list.append("'");
        list.append(crate::server_control::powershell_literal(paths[i].as_str()).as_str());
        list.append("'");
        i = i + 1;
    }
    assert(pv.take(pv.len() as int) =~= pv);
    let mut out = "powershell -NoProfile -Command \"Remove-Item -LiteralPath ".to_string();
    out.append(list.as_str());
    out.append(" -Force -ErrorAction SilentlyContinue\"");
    out
}

/// The bounds of the delete batch that starts at `start`.
pub fn delete_batch_end(start: usize, total: usize) -> (r: usize)
    requires
        start < total,
    ensures
        r == if total - start > DELETE_BATCH {
            start + DELETE_BATCH
        } else {
            total as int
        },
{
    if total - start > DELETE_BATCH {
        start + DELETE_BATCH
    } else {
        total
    }
}

/// A failed delete command still counts its files as deleted when the
/// files were already gone; otherwise its error text (or a fixed one) is the
/// error.
pub fn delete_failure(stderr: &str) -> (r: Result<(), String>)
    ensures
        (contains(trim(stderr@), "Cannot find path"@) || contains(trim(stderr@), "does not exist"@)) ==> r is Ok,
        !(contains(trim(stderr@), "Cannot find path"@) || contains(trim(stderr@), "does not exist"@)) ==> (r matches Err(e)
            && e@ == if trim(stderr@).len() == 0 {
            "Не удалено."@
        } else {
            trim(stderr@)
        }),
{
    let t = trimmed(stderr);
    if contains_str(&t, "Cannot find path") || contains_str(&t, "does not exist") {
        return Ok(());
    }
    if t.len() == 0 {
        Err("Не удалено.".to_string())
    } else {
        Err(string_of(&t))
    }
}

// ---------------------------------------------------------------------------
// A lane sync run
// ---------------------------------------------------------------------------

/// The number of characters of `s`, from `k` on, whose UTF-8 encoding is
/// exactly `n` bytes; none where `n` falls inside a character.
pub open spec fn boundary_from(s: Seq<char>, n: nat, k: int) -> Option<int>
    decreases s.len() - k,
{
    if k < 0 || k > s.len() || crate::text::byte_len(s.take(k)) > n {
        None
    } else if crate::text::byte_len(s.take(k)) == n {
        Some(k)
    } else if k == s.len() {
        None
    } else {
        boundary_from(s, n, k + 1)
    }
}

/// What a failed upload is reported as: the file name and the error,
/// trimmed and, past 48 bytes, cut to 47 bytes and an ellipsis; none where the
/// cut falls inside a character.
pub open spec fn upload_error_text(filename: Seq<char>, error: Seq<char>) -> Option<Seq<char>> {
    let t = trim(filename + ": "@ + error);
    if crate::text::byte_len(t) <= 48 {
        Some(t)
    } else {
        match boundary_from(t, 47, 0) {
            Some(k) => Some(t.take(k) + "…"@),
            None => None,
        }
    }
}

pub fn upload_error_message(filename: &str, error: &str) -> (r: Option<String>)
    ensures
        opt_view(r) == upload_error_text(filename@, error@),
{
    let mut all = filename.to_string();
    all.append(": ");
    all.append(error);
    let t = trimmed(all.as_str());
    assert(all@ =~= filename@ + ": "@ + error@);
    if crate::text::byte_len_at_most(&t, 48) {
        return Some(string_of(&t));
    }
    let mut total: usize = 0;
    let mut k: usize = 0;
    assert(t@.take(0) =~= Seq::<char>::empty());
    while k < t.len() && total < 47
        invariant
            k <= t@.len(),
            total == crate::text::byte_len(t@.take(k as int)),
            total <= 47,
            t@ == trim(filename@ + ": "@ + error@),
            crate::text::byte_len(t@) > 48,
            boundary_from(t@, 47, 0) == boundary_from(t@, 47, k as int),
        decreases t@.len() - k,
    {
        let n = t[k] as u32;
        let w: usize = if n < 0x80 {
            1
        } else if n < 0x800 {
            2
        } else if n < 0x10000 {
            3
        } else {
            4
        };
        assert(t@.take(k + 1).drop_last() =~= t@.take(k as int));
        assert(t@.take(k + 1).last() == t@[k as int]);
        assert(w == crate::text::utf8_width(t@[k as int]));
        assert(crate::text::byte_len(t@.take(k + 1)) == total + w);
        if total + w > 47 {
            assert(boundary_from(t@, 47, k + 1) is None);
            assert(boundary_from(t@, 47, k as int) == boundary_from(t@, 47, k + 1));
            return None;
        }
        total = total + w;
        k = k + 1;
    }
    if total == 47 {
        let mut out = string_of(&slice_chars(&t, 0, k));
        out.append("…");
        assert(t@.subrange(0, k as int) =~= t@.take(k as int));
        Some(out)
    } else {
        assert(t@.take(t@.len() as int) =~= t@);
        None
    }
}

/// What a lane sync reports.
pub struct ServerSyncBulkResult {
    pub uploaded: usize,
    pub skipped: usize,
    pub deleted: usize,
    pub errors: Vec<String>,
}

#[derive(PartialEq, Eq, Structural, Clone, Copy)]
pub enum LanePhase {
    Uploading,
    Pruning,
    Done,
}

/// Where a lane sync stands: how many of the pending uploads ran, what
/// they came to, and the deletions.
pub struct LaneRun {
    pub total: usize,
    pub next: usize,
    pub uploaded: usize,
    pub skipped: usize,
    pub deleted: usize,
    pub errors: Vec<String>,
    pub phase: LanePhase,
}

/// What happened since the last step.
pub enum LaneEvent {
    /// The user cancelled.
    Cancelled,
    /// Upload number `next` ran: uploaded (`true`), already there
    /// (`false`), or failed with this message.
    Uploaded(Result<bool, String>),
    /// The remote jars that are not wanted were deleted (how many), or
    /// the deletion failed.
    Pruned(Result<usize, String>),
}

/// What the caller does next.
pub enum LaneAction {
    /// Upload pending mod number `i`.
    Upload(usize),
    /// Delete the remote jars that are not wanted.
    Prune,
    /// Report the run; it went well when there were no errors.
    Finish(bool),
    /// Stop: the run was cancelled.
    Abort,
}

/// The start of a run over `total` pending uploads, with `already_synced`
/// jars already on the server; a run cancelled before it starts reports
/// only that.
pub fn lane_run_start(total: usize, already_synced: usize, cancelled: bool) -> (r: (LaneRun, LaneAction))
    ensures
        r.0.total == total,
        r.0.next == 0,
        r.0.uploaded == 0,
        r.0.deleted == 0,
        cancelled ==> r.0.skipped == 0 && string_views(r.0.errors@) == seq!["Отменено."@] && r.0.phase == LanePhase::Done
            && r.1 is Abort,
        !cancelled ==> r.0.skipped == already_synced && r.0.errors@.len() == 0,
        !cancelled && total == 0 ==> r.0.phase == LanePhase::Pruning && r.1 is Prune,
        !cancelled && total > 0 ==> r.0.phase == LanePhase::Uploading && r.1 == LaneAction::Upload(0),
{
    if cancelled {
        let errors = vec!["Отменено.".to_string()];
        assert(string_views(errors@) =~= seq!["Отменено."@]);
        return (LaneRun { total, next: 0, uploaded: 0, skipped: 0, deleted: 0, errors, phase: LanePhase::Done }, LaneAction::Abort);
    }
    if total == 0 {
        (LaneRun { total, next: 0, uploaded: 0, skipped: already_synced, deleted: 0, errors: Vec::new(), phase: LanePhase::Pruning }, LaneAction::Prune)
    } else {
        (LaneRun { total, next: 0, uploaded: 0, skipped: already_synced, deleted: 0, errors: Vec::new(), phase: LanePhase::Uploading }, LaneAction::Upload(0))
    }
}

/// One step of a lane sync. While uploading, each result is counted and the
/// next upload follows; after the last, the deletions. A cancel while
/// uploading is recorded and ends the run; so does one during the deletions,
/// which then count for nothing. The run ends well when it collected no
/// errors.
pub fn lane_step(run: &mut LaneRun, event: LaneEvent) -> (r: LaneAction)
    requires
        old(run).phase != LanePhase::Done,
        old(run).phase == LanePhase::Uploading ==> old(run).next < old(run).total,
        old(run).uploaded + old(run).skipped + 1 <= usize::MAX,
    ensures
        final(run).total == old(run).total,
        match (old(run).phase, event) {
            (LanePhase::Uploading, LaneEvent::Cancelled) => {
                &&& final(run).phase == LanePhase::Done
                &&& string_views(final(run).errors@) == seq!["Отменено."@]
                &&& final(run).deleted == 0
                &&& final(run).uploaded == old(run).uploaded
                &&& final(run).skipped == old(run).skipped
                &&& r is Abort
            },
            (LanePhase::Uploading, LaneEvent::Uploaded(res)) => {
                &&& final(run).next == old(run).next + 1
                &&& final(run).uploaded == old(run).uploaded + (if res == Ok::<bool, String>(true) { 1int } else { 0 })
                &&& final(run).skipped == old(run).skipped + (if res == Ok::<bool, String>(false) { 1int } else { 0 })
                &&& final(run).errors@ == match res {
                    Err(m) => old(run).errors@.push(m),
                    Ok(_) => old(run).errors@,
                }
                &&& final(run).deleted == old(run).deleted
                &&& if final(run).next < final(run).total {
                    final(run).phase == LanePhase::Uploading && r == LaneAction::Upload(final(run).next)
                } else {
                    final(run).phase == LanePhase::Pruning && r is Prune
                }
            },
            (LanePhase::Pruning, LaneEvent::Cancelled) => {
                &&& final(run).phase == LanePhase::Done
                &&& string_views(final(run).errors@) == seq!["Отменено."@]
                &&& final(run).deleted == 0
                &&& final(run).uploaded == old(run).uploaded
                &&& final(run).skipped == old(run).skipped
                &&& r is Abort
            },
            (LanePhase::Pruning, LaneEvent::Pruned(res)) => {
                &&& final(run).phase == LanePhase::Done
                &&& final(run).uploaded == old(run).uploaded
                &&& final(run).skipped == old(run).skipped
                &&& final(run).deleted == match res {
                    Ok(n) => n,
                    Err(_) => old(run).deleted,
                }
                &&& final(run).errors@ == match res {
                    Err(m) => old(run).errors@.push(m),
                    Ok(_) => old(run).errors@,
                }
                &&& r == LaneAction::Finish(final(run).errors@.len() == 0)
            },
            _ => *final(run) == *old(run) && r == LaneAction::Finish(old(run).errors@.len() == 0),
        },
{
    match (run.phase, event) {
        (LanePhase::Uploading, LaneEvent::Uploaded(res)) => {
            match res {
                Ok(true) => {
                    run.uploaded = run.uploaded + 1;
                },
                Ok(false) => {
                    run.skipped = run.skipped + 1;
                },
                Err(m) => {
                    run.errors.push(m);
                },
            }
            run.next = run.next + 1;
            if run.next < run.total {
                LaneAction::Upload(run.next)
            } else {
                run.phase = LanePhase::Pruning;
                LaneAction::Prune
            }
        },
        (LanePhase::Pruning, LaneEvent::Pruned(res)) => {
            match res {
                Ok(n) => {
                    run.deleted = n;
                },
                Err(m) => {
                    run.errors.push(m);
                },
            }
            run.phase = LanePhase::Done;
            LaneAction::Finish(run.errors.len() == 0)
        },
        (LanePhase::Uploading, LaneEvent::Cancelled) | (LanePhase::Pruning, LaneEvent::Cancelled) => {
            let errors = vec!["Отменено.".to_string()];
            assert(string_views(errors@) =~= seq!["Отменено."@]);
            run.errors = errors;
            run.deleted = 0;
            run.phase = LanePhase::Done;
            LaneAction::Abort
        },
        _ => LaneAction::Finish(run.errors.len() == 0),
    }
}

/// What a finished or cancelled run reports.
pub fn lane_result(run: LaneRun) -> (r: ServerSyncBulkResult)
    ensures
        r.uploaded == run.uploaded,
        r.skipped == run.skipped,
        r.deleted == run.deleted,
        r.errors@ == run.errors@,
{
    ServerSyncBulkResult { uploaded: run.uploaded, skipped: run.skipped, deleted: run.deleted, errors: run.errors }
}

} // verus!
