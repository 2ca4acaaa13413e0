//! Checking the mods for newer versions on their providers: which projects
//! to ask, when to retry, and which mods have an update.
use vstd::prelude::*;
use vstd::string::StringExecFns;
use crate::text::{chars_of, contains, contains_str, eq_str, join, join_strings, lemma_seq_lt_asymmetric, lemma_seq_lt_total, lemma_seq_lt_transitive, lower, opt_view, seq_lt, str_lt, string_of, string_views, to_lower, trim, trim_string, trimmed};
use crate::mods::{ModEntry};

verus! {

/// A file of a project on Modrinth or CurseForge.
pub struct ProviderVersion {
    pub id: String,
    pub file_id: Option<String>,
    pub version_number: String,
    pub name: String,
    pub filename: String,
    pub download_url: Option<String>,
    pub game_versions: Vec<String>,
    pub loaders: Vec<String>,
    pub date_published: Option<String>,
    pub downloads: Option<u64>,
    pub size: Option<u64>,
    pub release_type: Option<String>,
}

/// An error worth another try: rate limits, timeouts and network trouble.
pub open spec fn retryable(error: Seq<char>) -> bool {
    let l = lower(error);
    contains(l, "429"@) || contains(l, "too many"@) || contains(l, "rate limit"@) || contains(
        l,
        "timeout"@,
    ) || contains(l, "timed out"@) || contains(l, "connection"@) || contains(l, "network"@)
}

pub fn is_retryable_fetch_error(error: &str) -> (r: bool)
    ensures
        r == retryable(error@),
{
    let v = chars_of(error);
    let l = to_lower(&v);
    contains_str(&l, "429") || contains_str(&l, "too many") || contains_str(&l, "rate limit")
        || contains_str(&l, "timeout") || contains_str(&l, "timed out") || contains_str(&l, "connection")
        || contains_str(&l, "network")
}

/// The provider and project a mod is checked against: its source's id,
/// trimmed, when there is one.
pub open spec fn provider_of(item: ModEntry) -> Option<(Seq<char>, Seq<char>)> {
    if item.source@ == "modrinth"@ {
        match opt_view(item.modrinth_id) {
            Some(id) => if trim(id).len() > 0 {
                Some(("modrinth"@, trim(id)))
            } else {
                None
            },
            None => None,
        }
    } else if item.source@ == "curseforge"@ {
        match opt_view(item.curseforge_id) {
            Some(id) => if trim(id).len() > 0 {
                Some(("curseforge"@, trim(id)))
            } else {
                None
            },
            None => None,
        }
    } else {
        None
    }
}

pub fn provider_for(item: &ModEntry) -> (r: Option<(String, String)>)
    ensures
        match r {
            Some((s, p)) => provider_of(*item) == Some((s@, p@)),
            None => provider_of(*item) is None,
        },
{
    let source = chars_of(item.source.as_str());
    proof {
        reveal_strlit("modrinth");
        reveal_strlit("curseforge");
        assert("modrinth"@.len() != "curseforge"@.len());
    }
    if eq_str(&source, "modrinth") {
        return match &item.modrinth_id {
            Some(id) => {
                let t = trim_string(id.as_str());
                if t.as_str().is_empty() {
                    None
                } else {
                    Some(("modrinth".to_string(), t))
                }
            },
            None => None,
        };
    }
    if eq_str(&source, "curseforge") {
        return match &item.curseforge_id {
            Some(id) => {
                let t = trim_string(id.as_str());
                if t.as_str().is_empty() {
                    None
                } else {
                    Some(("curseforge".to_string(), t))
                }
            },
            None => None,
        };
    }
    None
}

/// The installed file is this version: by the provider's version or file
/// id, or by its file name.
pub open spec fn installed_is(item: ModEntry, version: ProviderVersion) -> bool {
    ||| item.source@ == "modrinth"@ && opt_view(item.modrinth_version_id) == Some(version.id@)
    ||| item.source@ == "curseforge"@ && opt_view(item.curseforge_file_id) == Some(
        match opt_view(version.file_id) {
            Some(f) => f,
            None => version.id@,
        },
    )
    ||| item.filename@.len() > 0 && item.filename@ == version.filename@
}

pub fn is_installed_version(item: &ModEntry, version: &ProviderVersion) -> (r: bool)
    ensures
        r == installed_is(*item, *version),
{
    let source = chars_of(item.source.as_str());
    if eq_str(&source, "modrinth") {
        match &item.modrinth_version_id {
            Some(id) => {
                let iv = chars_of(id.as_str());
                if eq_str(&iv, version.id.as_str()) {
                    return true;
                }
            },
            None => {},
        }
    }
    if eq_str(&source, "curseforge") {
        match &item.curseforge_file_id {
            Some(id) => {
                let iv = chars_of(id.as_str());
                let file_id = match &version.file_id {
                    Some(f) => f.as_str(),
                    None => version.id.as_str(),
                };
                if eq_str(&iv, file_id) {
                    return true;
                }
            },
            None => {},
        }
    }
    let fv = chars_of(item.filename.as_str());
    fv.len() > 0 && eq_str(&fv, version.filename.as_str())
}

/// A project to look up once.
pub struct ProjectRef {
    pub source: String,
    pub project_id: String,
}

pub open spec fn ref_views(v: Seq<ProjectRef>) -> Seq<(Seq<char>, Seq<char>)> {
    v.map_values(|p: ProjectRef| (p.source@, p.project_id@))
}

/// The projects to check, each once, in list order; CurseForge ones only
/// with an API key.
pub open spec fn version_jobs(mods: Seq<ModEntry>, has_cf_key: bool) -> Seq<(Seq<char>, Seq<char>)>
    decreases mods.len(),
{
    if mods.len() == 0 {
        Seq::<(Seq<char>, Seq<char>)>::empty()
    } else {
        let prev = version_jobs(mods.drop_last(), has_cf_key);
        match provider_of(mods.last()) {
            Some(p) => if (p.0 == "curseforge"@ && !has_cf_key) || prev.contains(p) {
                prev
            } else {
                prev.push(p)
            },
            None => prev,
        }
    }
}

fn has_ref(jobs: &Vec<ProjectRef>, source: &str, project_id: &str) -> (r: bool)
    ensures
        r == ref_views(jobs@).contains((source@, project_id@)),
{
    let sv = chars_of(source);
    let pv = chars_of(project_id);
    let mut i: usize = 0;
    while i < jobs.len()
        invariant
            i <= jobs@.len(),
            sv@ == source@,
            pv@ == project_id@,
            forall|j: int| 0 <= j < i ==> ref_views(jobs@)[j] != (source@, project_id@),
        decreases jobs@.len() - i,
    {
        if eq_str(&sv, jobs[i].source.as_str()) && eq_str(&pv, jobs[i].project_id.as_str()) {
            assert(ref_views(jobs@)[i as int] == (source@, project_id@));
            return true;
        }
        i = i + 1;
    }
    false
}

pub fn collect_version_jobs(mods: &[ModEntry], has_cf_key: bool) -> (r: Vec<ProjectRef>)
    ensures
        ref_views(r@) == version_jobs(mods@, has_cf_key),
{
    let mut jobs: Vec<ProjectRef> = Vec::new();
    let mut i: usize = 0;
    assert(mods@.take(0) =~= Seq::<ModEntry>::empty());
    while i < mods.len()
        invariant
            i <= mods@.len(),
            ref_views(jobs@) == version_jobs(mods@.take(i as int), has_cf_key),
        decreases mods@.len() - i,
    {
        assert(mods@.take(i + 1).drop_last() =~= mods@.take(i as int));
        match provider_for(&mods[i]) {
            Some((source, project_id)) => {
                let sv = chars_of(source.as_str());
                let skip = eq_str(&sv, "curseforge") && !has_cf_key;
                if !skip && !has_ref(&jobs, source.as_str(), project_id.as_str()) {
                    let ghost before = jobs@;
                    let ghost p = (source@, project_id@);
                    jobs.push(ProjectRef { source, project_id });
                    assert(ref_views(jobs@) =~= ref_views(before).push(p));
                }
            },
            None => {},
        }
        i = i + 1;
    }
    assert(mods@.take(mods@.len() as int) =~= mods@);
    jobs
}

pub struct ModUpdateCandidate {
    pub key: String,
    pub id: String,
    pub title: String,
    pub summary: Option<String>,
    pub source: String,
    pub project_id: String,
    pub filename: String,
}

/// The installed version as shown: a dash when unknown or blank.
pub open spec fn current_label(installed: Option<Seq<char>>) -> Seq<char> {
    match installed {
        Some(v) => if trim(v).len() > 0 {
            v
        } else {
            "—"@
        },
        None => "—"@,
    }
}

/// The file id a provider version stands for: its file id, else its id.
pub open spec fn version_file_id(version: ProviderVersion) -> Seq<char> {
    if version.file_id is Some {
        version.file_id->0@
    } else {
        version.id@
    }
}

/// A version that is the stored file of the mod is the installed one,
/// whatever the file names say: for a CurseForge mod whose stored file id is
/// the version's file id (its id when it gives none), and for a Modrinth mod
/// whose stored version id is the version's id. No update is then offered
/// (see `candidate_for_mod`).
pub proof fn lemma_stored_file_is_installed(item: ModEntry, version: ProviderVersion)
    requires
        (item.source@ == "curseforge"@ && item.curseforge_file_id is Some && item.curseforge_file_id->0@
            == version_file_id(version)) || (item.source@ == "modrinth"@ && item.modrinth_version_id is Some
            && item.modrinth_version_id->0@ == version.id@),
    ensures
        installed_is(item, version),
{
}

/// A version is offered as an update unless it is the stored file of the
/// mod's source or carries the jar's own file name.
pub proof fn lemma_other_file_is_not_installed(item: ModEntry, version: ProviderVersion)
    requires
        !(item.source@ == "curseforge"@ && item.curseforge_file_id is Some && item.curseforge_file_id->0@
            == version_file_id(version)),
        !(item.source@ == "modrinth"@ && item.modrinth_version_id is Some && item.modrinth_version_id->0@
            == version.id@),
        item.filename@.len() == 0 || item.filename@ != version.filename@,
    ensures
        !installed_is(item, version),
{
}

/// A jar whose file name is the version's is that version, whatever the ids.
pub proof fn lemma_same_name_is_installed(item: ModEntry, version: ProviderVersion)
    requires
        item.filename@.len() > 0,
        item.filename@ == version.filename@,
    ensures
        installed_is(item, version),
{
}

/// The update offered for a mod, unless the latest version is the one
/// installed.
pub fn candidate_for_mod(item: &ModEntry, source: String, project_id: String, latest: &ProviderVersion) -> (r:
    Option<ModUpdateCandidate>)
    ensures
        installed_is(*item, *latest) <==> r is None,
        r matches Some(c) ==> {
            &&& c.key@ == item.key@
            &&& c.id@ == item.key@
            &&& c.title@ == item.display_name@
            &&& opt_view(c.summary) == Some(
                current_label(opt_view(item.installed_version)) + " → "@ + latest.version_number@,
            )
            &&& c.source@ == source@
            &&& c.project_id@ == project_id@
            &&& c.filename@ == item.filename@
        },
{
    if is_installed_version(item, latest) {
        return None;
    }
    let mut summary = match &item.installed_version {
        Some(v) => {
            let t = trimmed(v.as_str());
            if t.len() > 0 {
                v.clone()
            } else {
                "—".to_string()
            }
        },
        None => "—".to_string(),
    };
    summary.append(" → ");
    summary.append(latest.version_number.as_str());
    Some(
        ModUpdateCandidate {
            key: item.key.clone(),
            id: item.key.clone(),
            title: item.display_name.clone(),
            summary: Some(summary),
            source,
            project_id,
            filename: item.filename.clone(),
        },
    )
}

// ---------------------------------------------------------------------------
// Fetching with retries
// ---------------------------------------------------------------------------

/// At most this many version lookups run at once.
pub const VERSION_FETCH_WORKERS: usize = 5;

/// Lookups start at least this far apart.
pub const VERSION_FETCH_MIN_INTERVAL_MS: u64 = 180;

/// A failed lookup is tried this many times in all.
pub const VERSION_FETCH_MAX_ATTEMPTS: usize = 3;

/// The wait before a second attempt; later attempts wait that many times longer.
pub const VERSION_FETCH_RETRY_BASE_MS: u64 = 450;

/// The pause between the retried projects.
pub const VERSION_FETCH_RETRY_GAP_MS: u64 = 250;

/// How many workers look versions up for a number of projects.
pub fn worker_count(projects: usize) -> (r: usize)
    ensures
        r == if projects < 1 {
            1
        } else if projects > 5 {
            5
        } else {
            projects
        },
{
    let n = if projects < 1 {
        1
    } else {
        projects
    };
    if n > VERSION_FETCH_WORKERS {
        VERSION_FETCH_WORKERS
    } else {
        n
    }
}

/// What one lookup came to.
pub enum FetchResult {
    Found,
    NotAvailable,
    Error(String),
}

/// What to do after a lookup in the retry round.
pub enum RetryStep {
    Success,
    NotAvailable,
    Wait(u64),
    Failed,
}

/// After attempt `attempt` (from zero): a found or missing version ends the
/// round; a retryable error before the last attempt waits longer each time;
/// any other error fails.
pub fn retry_step(attempt: usize, result: &FetchResult) -> (r: RetryStep)
    requires
        attempt < VERSION_FETCH_MAX_ATTEMPTS,
    ensures
        match result {
            FetchResult::Found => r is Success,
            FetchResult::NotAvailable => r is NotAvailable,
            FetchResult::Error(e) => if retryable(e@) && attempt + 1 < 3 {
                r matches RetryStep::Wait(ms) && ms == 450 * (attempt + 1)
            } else {
                r is Failed
            },
        },
{
    match result {
        FetchResult::Found => RetryStep::Success,
        FetchResult::NotAvailable => RetryStep::NotAvailable,
        FetchResult::Error(e) => {
            if is_retryable_fetch_error(e.as_str()) && attempt + 1 < VERSION_FETCH_MAX_ATTEMPTS {
                RetryStep::Wait(VERSION_FETCH_RETRY_BASE_MS * (attempt as u64 + 1))
            } else {
                RetryStep::Failed
            }
        },
    }
}

/// In the first round, a retryable error puts the project in the retry
/// round; other errors are dropped.
pub fn first_round_retries(result: &FetchResult) -> (r: bool)
    ensures
        r == match result {
            FetchResult::Error(e) => retryable(e@),
            _ => false,
        },
{
    match result {
        FetchResult::Error(e) => is_retryable_fetch_error(e.as_str()),
        _ => false,
    }
}

/// The title as sorted: lower-cased the way `str::to_lowercase` does it.
pub uninterp spec fn unicode_lowercase(s: Seq<char>) -> Seq<char>;

/// `str::to_lowercase`: full Unicode lower-casing; the result is named, not
/// stated.
#[verifier::external_body]
fn to_lowercase(s: &str) -> (r: String)
    ensures
        r@ == unicode_lowercase(s@),
{
    s.to_lowercase()
}

pub open spec fn title_key(c: ModUpdateCandidate) -> Seq<char> {
    unicode_lowercase(c.title@)
}

/// `out[k]` is `input[idx[k]]`, each input position is used once, and of two
/// entries with the same title key the one that came first stays first.
pub open spec fn stable_order(input: Seq<ModUpdateCandidate>, out: Seq<ModUpdateCandidate>, idx: Seq<int>) -> bool {
    &&& idx.len() == out.len()
    &&& forall|k: int| 0 <= k < out.len() ==> 0 <= #[trigger] idx[k] < input.len() && out[k] == input[idx[k]]
    &&& forall|a: int, b: int|
        0 <= a < b < out.len() ==> #[trigger] idx[a] != #[trigger] idx[b] && (title_key(out[a]) == title_key(out[b])
            ==> idx[a] < idx[b])
}

/// The offered updates sorted by title, without regard to case; equal
/// titles keep their order.
pub fn sort_candidates_by_title(candidates: Vec<ModUpdateCandidate>) -> (r: Vec<ModUpdateCandidate>)
    ensures
        r@.len() == candidates@.len(),
        r@.to_multiset() == candidates@.to_multiset(),
        exists|idx: Seq<int>| #[trigger] stable_order(candidates@, r@, idx),
        forall|i: int, j: int|
            0 <= i < j < r@.len() ==> !seq_lt(
                unicode_lowercase((#[trigger] r@[j]).title@),
                unicode_lowercase((#[trigger] r@[i]).title@),
            ),
{
    broadcast use vstd::seq_lib::group_to_multiset_ensures;

    let mut rest = candidates;
    let ghost all = rest@;
    let n = rest.len();
    let mut out: Vec<ModUpdateCandidate> = Vec::new();
    let mut keys: Vec<String> = Vec::new();
    let mut done: usize = 0;
    let ghost mut idx: Seq<int> = Seq::empty();
    assert(all.take(0) =~= Seq::<ModUpdateCandidate>::empty());
    while rest.len() > 0
        invariant
            done + rest@.len() == n,
            stable_order(all, out@, idx),
            forall|k: int| 0 <= k < idx.len() ==> #[trigger] idx[k] < done,
            out@.len() == done,
            keys@.len() == done,
            n == all.len(),
            rest@ == all.subrange(done as int, n as int),
            out@.to_multiset() == all.take(done as int).to_multiset(),
            forall|k: int| 0 <= k < done ==> (#[trigger] keys@[k])@ == unicode_lowercase(out@[k].title@),
            forall|a: int, b: int|
                0 <= a < b < out@.len() ==> !seq_lt(
                    unicode_lowercase((#[trigger] out@[b]).title@),
                    unicode_lowercase((#[trigger] out@[a]).title@),
                ),
        decreases rest@.len(),
    {
        let x = rest.remove(0);
        let key = to_lowercase(x.title.as_str());
        let mut pos: usize = 0;
        while pos < out.len() && !str_lt(key.as_str(), keys[pos].as_str())
            invariant
                pos <= out@.len(),
                keys@.len() == out@.len(),
                forall|k: int| 0 <= k < out@.len() ==> (#[trigger] keys@[k])@ == unicode_lowercase(out@[k].title@),
                forall|k: int| 0 <= k < pos ==> !seq_lt(key@, unicode_lowercase((#[trigger] out@[k]).title@)),
            decreases out@.len() - pos,
        {
            pos = pos + 1;
        }
        let ghost before = out@;
        let ghost before_keys = keys@;
        let ghost xv = x;
        let ghost kv = key@;
        proof {
            assert(x == all[done as int]);
            assert(all.take(done + 1) =~= all.take(done as int).push(x));
        }
        out.insert(pos, x);
        keys.insert(pos, key);
        proof {
            assert(out@ == before.insert(pos as int, xv));
            let old_idx = idx;
            idx = old_idx.insert(pos as int, done as int);
            assert forall|k: int| 0 <= k < out@.len() implies 0 <= #[trigger] idx[k] < all.len() && out@[k] == all[idx[k]] by {
                if k > pos {
                    assert(idx[k] == old_idx[k - 1]);
                }
            }
            assert forall|k: int| 0 <= k < idx.len() implies #[trigger] idx[k] < done + 1 by {
                if k > pos {
                    assert(idx[k] == old_idx[k - 1]);
                }
            }
            assert forall|a: int, b: int| 0 <= a < b < out@.len() implies #[trigger] idx[a] != #[trigger] idx[b] && (
            title_key(out@[a]) == title_key(out@[b]) ==> idx[a] < idx[b]) by {
                assert(kv == title_key(xv));
                if b < pos {
                    assert(idx[a] == old_idx[a] && idx[b] == old_idx[b]);
                    assert(out@[a] == before[a] && out@[b] == before[b]);
                    assert(old_idx[a] != old_idx[b]);
                } else if a < pos && b == pos {
                    assert(idx[a] == old_idx[a]);
                    assert(old_idx[a] < done);
                } else if a < pos && b > pos {
                    assert(idx[a] == old_idx[a]);
                    assert(idx[b] == old_idx[b - 1]);
                    assert(out@[a] == before[a] && out@[b] == before[b - 1]);
                    assert(old_idx[a] != old_idx[b - 1]);
                } else if a == pos && b > pos {
                    assert(idx[b] == old_idx[b - 1]);
                    assert(old_idx[b - 1] < done);
                    assert(out@[b] == before[b - 1]);
                    let kp = unicode_lowercase(before[pos as int].title@);
                    assert(seq_lt(kv, kp));
                    if b - 1 > pos {
                        assert(!seq_lt(unicode_lowercase(before[b - 1].title@), kp));
                    } else {
                        crate::text::lemma_seq_lt_irreflexive(kv);
                    }
                } else {
                    assert(idx[a] == old_idx[a - 1]);
                    assert(idx[b] == old_idx[b - 1]);
                    assert(out@[a] == before[a - 1]);
                    assert(out@[b] == before[b - 1]);
                    assert(old_idx[a - 1] != old_idx[b - 1]);
                }
            }
            assert(stable_order(all, out@, idx));
            vstd::seq_lib::to_multiset_insert(before, pos as int, xv);
            vstd::seq_lib::to_multiset_build(all.take(done as int), xv);
            assert forall|k: int| 0 <= k < out@.len() implies (#[trigger] keys@[k])@ == unicode_lowercase(out@[k].title@) by {
                if k < pos {
                } else if k == pos {
                } else {
                    assert(keys@[k] == before_keys[k - 1]);
                    assert(out@[k] == before[k - 1]);
                }
            }
            assert forall|a: int, b: int| 0 <= a < b < out@.len() implies !seq_lt(
                unicode_lowercase((#[trigger] out@[b]).title@),
                unicode_lowercase((#[trigger] out@[a]).title@),
            ) by {
                let ka = unicode_lowercase(out@[a].title@);
                let kb = unicode_lowercase(out@[b].title@);
                if b < pos {
                } else if a < pos && b == pos {
                } else if a < pos && b > pos {
                    assert(out@[b] == before[b - 1]);
                } else if a == pos && b > pos {
                    assert(out@[b] == before[b - 1]);
                    let kp = unicode_lowercase(before[pos as int].title@);
                    assert(seq_lt(kv, kp));
                    if seq_lt(kb, kv) {
                        if b - 1 > pos {
                            lemma_seq_lt_transitive(kb, kv, kp);
                        } else {
                            lemma_seq_lt_asymmetric(kb, kv);
                        }
                    }
                } else {
                    assert(out@[a] == before[a - 1]);
                    assert(out@[b] == before[b - 1]);
                }
            }
        }
        done = done + 1;
        assert(rest@ =~= all.subrange(done as int, n as int));
    }
    assert(all.take(n as int) =~= all);
    assert(stable_order(candidates@, out@, idx));
    out
}

/// The latest version found for a project.
pub struct LatestVersion {
    pub project: ProjectRef,
    pub version: ProviderVersion,
}

/// The first latest version found for `(source, project)`.
pub open spec fn latest_for(latest: Seq<LatestVersion>, key: (Seq<char>, Seq<char>)) -> Option<int>
    decreases latest.len(),
{
    if latest.len() == 0 {
        None
    } else {
        match latest_for(latest.drop_last(), key) {
            Some(i) => Some(i),
            None => if (latest.last().project.source@, latest.last().project.project_id@) == key {
                Some(latest.len() - 1)
            } else {
                None
            },
        }
    }
}

proof fn lemma_latest_for(latest: Seq<LatestVersion>, key: (Seq<char>, Seq<char>))
    ensures
        match latest_for(latest, key) {
            Some(i) => 0 <= i < latest.len() && (latest[i].project.source@, latest[i].project.project_id@) == key,
            None => true,
        },
    decreases latest.len(),
{
    if latest.len() > 0 {
        lemma_latest_for(latest.drop_last(), key);
    }
}

/// The update a mod is offered: the latest version of its project, where
/// one was found, its provider may be asked, and it is not the installed one.
pub open spec fn offer_for(item: ModEntry, has_cf_key: bool, latest: Seq<LatestVersion>) -> Option<ProviderVersion> {
    match provider_of(item) {
        Some((s, p)) => if s == "curseforge"@ && !has_cf_key {
            None
        } else {
            match latest_for(latest, (s, p)) {
                Some(i) => if installed_is(item, latest[i].version) {
                    None
                } else {
                    Some(latest[i].version)
                },
                None => None,
            }
        },
        None => None,
    }
}

/// The mods, by position, that are offered an update, in scan order.
pub open spec fn offered(mods: Seq<ModEntry>, has_cf_key: bool, latest: Seq<LatestVersion>) -> Seq<int>
    decreases mods.len(),
{
    if mods.len() == 0 {
        Seq::empty()
    } else if offer_for(mods.last(), has_cf_key, latest) is Some {
        offered(mods.drop_last(), has_cf_key, latest).push(mods.len() - 1)
    } else {
        offered(mods.drop_last(), has_cf_key, latest)
    }
}

/// `c` is the update offered for `item` to `v`.
pub open spec fn offer_is(item: ModEntry, v: ProviderVersion, c: ModUpdateCandidate) -> bool {
    &&& c.key@ == item.key@
    &&& c.id@ == item.key@
    &&& c.title@ == item.display_name@
    &&& opt_view(c.summary) == Some(current_label(opt_view(item.installed_version)) + " → "@ + v.version_number@)
    &&& Some((c.source@, c.project_id@)) == provider_of(item)
    &&& c.filename@ == item.filename@
}

/// `u` holds, in scan order, the update offered to each mod that has one.
pub open spec fn offers(mods: Seq<ModEntry>, has_cf_key: bool, latest: Seq<LatestVersion>, u: Seq<ModUpdateCandidate>) -> bool {
    let idx = offered(mods, has_cf_key, latest);
    &&& u.len() == idx.len()
    &&& forall|t: int| 0 <= t < u.len() ==> offer_is(mods[idx[t]], offer_for(mods[idx[t]], has_cf_key, latest).unwrap(), #[trigger] u[t])
}

proof fn lemma_offered_bounds(mods: Seq<ModEntry>, has_cf_key: bool, latest: Seq<LatestVersion>)
    ensures
        forall|t: int| 0 <= t < offered(mods, has_cf_key, latest).len() ==> 0 <= #[trigger] offered(mods, has_cf_key, latest)[t] < mods.len(),
    decreases mods.len(),
{
    if mods.len() > 0 {
        let prev = offered(mods.drop_last(), has_cf_key, latest);
        lemma_offered_bounds(mods.drop_last(), has_cf_key, latest);
        let cur = offered(mods, has_cf_key, latest);
        assert forall|t: int| 0 <= t < cur.len() implies 0 <= #[trigger] cur[t] < mods.len() by {
            if t < prev.len() {
                assert(cur[t] == prev[t]);
            }
        }
    }
}

pub(crate) fn find_latest(latest: &Vec<LatestVersion>, source: &str, project_id: &str) -> (r: Option<usize>)
    ensures
        match r {
            Some(i) => latest_for(latest@, (source@, project_id@)) == Some(i as int) && i < latest@.len(),
            None => latest_for(latest@, (source@, project_id@)) is None,
        },
{
    let sv = chars_of(source);
    let pv = chars_of(project_id);
    let ghost key = (source@, project_id@);
    let mut i: usize = 0;
    while i < latest.len()
        invariant
            i <= latest@.len(),
            sv@ == source@,
            pv@ == project_id@,
            key == (source@, project_id@),
            latest_for(latest@.take(i as int), key) is None,
        decreases latest@.len() - i,
    {
        assert(latest@.take(i + 1).drop_last() =~= latest@.take(i as int));
        if eq_str(&sv, latest[i].project.source.as_str()) && eq_str(&pv, latest[i].project.project_id.as_str()) {
            proof {
                lemma_latest_prefix(latest@, key, i as int);
            }
            return Some(i);
        }
        i = i + 1;
    }
    assert(latest@.take(latest@.len() as int) =~= latest@);
    None
}

proof fn lemma_latest_prefix(latest: Seq<LatestVersion>, key: (Seq<char>, Seq<char>), i: int)
    requires
        0 <= i < latest.len(),
        latest_for(latest.take(i), key) is None,
        (latest[i].project.source@, latest[i].project.project_id@) == key,
    ensures
        latest_for(latest, key) == Some(i),
    decreases latest.len() - i,
{
    if i + 1 == latest.len() {
        assert(latest.drop_last() =~= latest.take(i));
    } else {
        assert(latest.take(i + 1).drop_last() =~= latest.take(i));
        lemma_latest_prefix_extend(latest, key, i, i + 1);
    }
}

proof fn lemma_latest_prefix_extend(latest: Seq<LatestVersion>, key: (Seq<char>, Seq<char>), i: int, n: int)
    requires
        0 <= i < n <= latest.len(),
        latest_for(latest.take(n), key) == Some(i),
    ensures
        latest_for(latest, key) == Some(i),
    decreases latest.len() - n,
{
    if n == latest.len() {
        assert(latest.take(n) =~= latest);
    } else {
        assert(latest.take(n + 1).drop_last() =~= latest.take(n));
        lemma_latest_prefix_extend(latest, key, i, n + 1);
    }
}

/// The updates offered for a scan, sorted by title without regard to case;
/// offers with equal titles keep the order of their mods.
pub fn build_update_candidates(mods: &[ModEntry], has_cf_key: bool, latest: &Vec<LatestVersion>) -> (r: Vec<ModUpdateCandidate>)
    ensures
        exists|u: Seq<ModUpdateCandidate>|
            #[trigger] offers(mods@, has_cf_key, latest@, u) && r@.to_multiset() == u.to_multiset() && exists|
                idx: Seq<int>,
            | #[trigger] stable_order(u, r@, idx),
        forall|i: int, j: int|
            0 <= i < j < r@.len() ==> !seq_lt(
                unicode_lowercase((#[trigger] r@[j]).title@),
                unicode_lowercase((#[trigger] r@[i]).title@),
            ),
{
    let mut found: Vec<ModUpdateCandidate> = Vec::new();
    let mut i: usize = 0;
    while i < mods.len()
        invariant
            i <= mods@.len(),
            offers(mods@.take(i as int), has_cf_key, latest@, found@),
        decreases mods@.len() - i,
    {
        let ghost pre = mods@.take(i as int);
        let ghost next = mods@.take(i + 1);
        proof {
            assert(next.drop_last() =~= pre);
            assert(next.last() == mods@[i as int]);
            lemma_offered_bounds(pre, has_cf_key, latest@);
            assert forall|k: int| 0 <= k < pre.len() implies next[k] == #[trigger] pre[k] by {}
        }
        let mut pushed = false;
        match provider_for(&mods[i]) {
            Some((source, project_id)) => {
                let sv = chars_of(source.as_str());
                let skip = eq_str(&sv, "curseforge") && !has_cf_key;
                if !skip {
                    match find_latest(latest, source.as_str(), project_id.as_str()) {
                        Some(li) => {
                            proof {
                                lemma_latest_for(latest@, (source@, project_id@));
                            }
                            match candidate_for_mod(&mods[i], source, project_id, &latest[li].version) {
                                Some(c) => {
                                    let ghost before = found@;
                                    found.push(c);
                                    pushed = true;
                                    proof {
                                        let idx = offered(next, has_cf_key, latest@);
                                        assert(idx == offered(pre, has_cf_key, latest@).push(i as int));
                                        assert forall|t: int| 0 <= t < found@.len() implies offer_is(
                                            next[idx[t]],
                                            offer_for(next[idx[t]], has_cf_key, latest@).unwrap(),
                                            #[trigger] found@[t],
                                        ) by {
                                            if t < before.len() {
                                                assert(found@[t] == before[t]);
                                                assert(idx[t] == offered(pre, has_cf_key, latest@)[t]);
                                            }
                                        }
                                    }
                                },
                                None => {},
                            }
                        },
                        None => {},
                    }
                }
            },
            None => {},
        }
        proof {
            if !pushed {
                let idx = offered(next, has_cf_key, latest@);
                assert(offer_for(mods@[i as int], has_cf_key, latest@) is None);
                assert(idx == offered(pre, has_cf_key, latest@));
                assert forall|t: int| 0 <= t < found@.len() implies offer_is(
                    next[idx[t]],
                    offer_for(next[idx[t]], has_cf_key, latest@).unwrap(),
                    #[trigger] found@[t],
                ) by {
                    assert(idx[t] == offered(pre, has_cf_key, latest@)[t]);
                }
            }
        }
        i = i + 1;
    }
    assert(mods@.take(mods@.len() as int) =~= mods@);
    let ghost u = found@;
    let r = sort_candidates_by_title(found);
    assert(offers(mods@, has_cf_key, latest@, u));
    r
}

/// The line that stands for a linked mod in the fingerprint of a check.
pub open spec fn fingerprint_line(item: ModEntry) -> Seq<char> {
    let (s, p) = provider_of(item).unwrap();
    let or_empty = |o: Option<Seq<char>>| match o {
        Some(x) => x,
        None => Seq::<char>::empty(),
    };
    item.key@ + "|"@ + item.filename@ + "|"@ + s + "|"@ + p + "|"@ + or_empty(opt_view(item.modrinth_version_id)) + "|"@
        + or_empty(opt_view(item.curseforge_file_id))
}

/// The lines of the linked mods, in scan order.
pub open spec fn fingerprint_lines(mods: Seq<ModEntry>) -> Seq<Seq<char>>
    decreases mods.len(),
{
    if mods.len() == 0 {
        Seq::empty()
    } else if provider_of(mods.last()) is Some {
        fingerprint_lines(mods.drop_last()).push(fingerprint_line(mods.last()))
    } else {
        fingerprint_lines(mods.drop_last())
    }
}

pub open spec fn text_sorted(s: Seq<Seq<char>>) -> bool {
    forall|a: int, b: int| 0 <= a < b < s.len() ==> !seq_lt(#[trigger] s[b], #[trigger] s[a])
}

fn opt_text(o: &Option<String>) -> (r: String)
    ensures
        r@ == match opt_view(*o) {
            Some(x) => x,
            None => Seq::<char>::empty(),
        },
{
    match o {
        Some(x) => x.clone(),
        None => String::new(),
    }
}

pub(crate) fn sort_texts(v: Vec<String>) -> (r: Vec<String>)
    ensures
        string_views(r@).to_multiset() == string_views(v@).to_multiset(),
        text_sorted(string_views(r@)),
{
    broadcast use vstd::seq_lib::group_to_multiset_ensures;

    let ghost all = string_views(v@);
    let mut out: Vec<String> = Vec::new();
    let mut i: usize = 0;
    while i < v.len()
        invariant
            i <= v@.len(),
            all == string_views(v@),
            string_views(out@).to_multiset() == all.take(i as int).to_multiset(),
            text_sorted(string_views(out@)),
        decreases v@.len() - i,
    {
        let x = v[i].clone();
        let mut pos: usize = 0;
        while pos < out.len() && !str_lt(x.as_str(), out[pos].as_str())
            invariant
                pos <= out@.len(),
                forall|t: int| 0 <= t < pos ==> !seq_lt(x@, #[trigger] out@[t]@),
            decreases out@.len() - pos,
        {
            pos = pos + 1;
        }
        let ghost sv = string_views(out@);
        let ghost before = out@;
        out.insert(pos, x);
        proof {
            let ov = string_views(out@);
            assert(all.take(i + 1) =~= all.take(i as int).push(v@[i as int]@));
            assert(ov =~= sv.insert(pos as int, v@[i as int]@));
            vstd::seq_lib::to_multiset_insert(sv, pos as int, v@[i as int]@);
            vstd::seq_lib::to_multiset_build(all.take(i as int), v@[i as int]@);
            assert forall|a: int, b: int| 0 <= a < b < ov.len() implies !seq_lt(#[trigger] ov[b], #[trigger] ov[a]) by {
                if b < pos {
                    assert(ov[a] == sv[a] && ov[b] == sv[b]);
                } else if a < pos && b == pos {
                    assert(ov[a] == before[a]@);
                } else if a < pos && b > pos {
                    assert(ov[a] == sv[a] && ov[b] == sv[b - 1]);
                } else if a == pos && b > pos {
                    assert(ov[b] == sv[b - 1]);
                    assert(sv[pos as int] == before[pos as int]@);
                    assert(seq_lt(x@, sv[pos as int]));
                    if b - 1 > pos {
                        assert(!seq_lt(sv[b - 1], sv[pos as int]));
                        lemma_seq_lt_total(sv[pos as int], sv[b - 1]);
                        if sv[pos as int] != sv[b - 1] {
                            lemma_seq_lt_transitive(x@, sv[pos as int], sv[b - 1]);
                        }
                    }
                    lemma_seq_lt_asymmetric(x@, ov[b]);
                } else {
                    assert(ov[a] == sv[a - 1] && ov[b] == sv[b - 1]);
                }
            }
        }
        i = i + 1;
    }
    assert(all.take(all.len() as int) =~= all);
    out
}

/// The text a check's cache is keyed by: the lines of the linked mods,
/// sorted, one per line.
pub fn updates_fingerprint_text(mods: &[ModEntry]) -> (r: String)
    ensures
        exists|p: Seq<Seq<char>>|
            #[trigger] text_sorted(p) && p.to_multiset() == fingerprint_lines(mods@).to_multiset() && r@ == join(p, "\n"@),
{
    let mut lines: Vec<String> = Vec::new();
    let mut i: usize = 0;
    while i < mods.len()
        invariant
            i <= mods@.len(),
            string_views(lines@) == fingerprint_lines(mods@.take(i as int)),
        decreases mods@.len() - i,
    {
        assert(mods@.take(i + 1).drop_last() =~= mods@.take(i as int));
        match provider_for(&mods[i]) {
            Some((source, project_id)) => {
                let item = &mods[i];
                let mut line = item.key.clone();
                line.append("|");
                line.append(item.filename.as_str());
                line.append("|");
                line.append(source.as_str());
                line.append("|");
                line.append(project_id.as_str());
                line.append("|");
                line.append(opt_text(&item.modrinth_version_id).as_str());
                line.append("|");
                line.append(opt_text(&item.curseforge_file_id).as_str());
                let ghost before = lines@;
                lines.push(line);
                assert(string_views(lines@) =~= string_views(before).push(fingerprint_line(mods@[i as int])));
            },
            None => {},
        }
        i = i + 1;
    }
    assert(mods@.take(mods@.len() as int) =~= mods@);
    let sorted = sort_texts(lines);
    let r = join_strings(&sorted, "\n");
    assert(text_sorted(string_views(sorted@)));
    r
}

/// Whether a lookup may start now, `elapsed_ms` after the last one started:
/// `None` when its turn has come, else how long it still waits.
pub fn turn_wait(elapsed_ms: u64, min_interval_ms: u64) -> (r: Option<u64>)
    ensures
        elapsed_ms >= min_interval_ms ==> r is None,
        elapsed_ms < min_interval_ms ==> r == Some((min_interval_ms - elapsed_ms) as u64),
{
    if elapsed_ms >= min_interval_ms {
        None
    } else {
        Some(min_interval_ms - elapsed_ms)
    }
}

/// Where a check's version lookups stand: the first round takes projects
/// from the end of `queue`; projects whose lookup failed in a way worth
/// retrying wait in `retries` for a second round, where each is tried up to
/// three times unless it was found meanwhile.
pub struct LatestFetchRun {
    pub queue: Vec<ProjectRef>,
    pub retries: Vec<ProjectRef>,
    pub in_retry: bool,
    pub next_retry: usize,
    pub attempt: usize,
    pub gap_done: bool,
    pub results: Vec<LatestVersion>,
    pub failed: u32,
}

/// What a lookup came to.
pub enum FetchReply {
    Found(ProviderVersion),
    NotAvailable,
    Error(String),
}

/// What the caller does next.
pub enum FetchJob {
    /// Look this project up in the first round (after its turn comes).
    First(ProjectRef),
    /// Pause between two projects of the retry round.
    Pause(u64),
    /// Look this project up again after waiting so long.
    Retry(ProjectRef, u64),
    /// All lookups are done.
    Done,
}

pub open spec fn ref_key(p: ProjectRef) -> (Seq<char>, Seq<char>) {
    (p.source@, p.project_id@)
}

pub fn latest_fetch_start(projects: Vec<ProjectRef>) -> (r: LatestFetchRun)
    ensures
        r.queue@ == projects@,
        r.retries@.len() == 0,
        !r.in_retry,
        r.next_retry == 0,
        r.attempt == 0,
        !r.gap_done,
        r.results@.len() == 0,
        r.failed == 0,
{
    LatestFetchRun {
        queue: projects,
        retries: Vec::new(),
        in_retry: false,
        next_retry: 0,
        attempt: 0,
        gap_done: false,
        results: Vec::new(),
        failed: 0,
    }
}

fn copy_ref(p: &ProjectRef) -> (r: ProjectRef)
    ensures
        ref_key(r) == ref_key(*p),
{
    ProjectRef { source: p.source.clone(), project_id: p.project_id.clone() }
}

/// The next lookup. The first round hands out its projects from the end of
/// the queue; then the retry round goes through the collected projects in
/// order, pausing 250 ms before each but the first and passing over one
/// already found; a later attempt waits 450 ms times its number.
pub fn latest_fetch_next(run: &mut LatestFetchRun) -> (r: FetchJob)
    requires
        old(run).next_retry <= old(run).retries@.len(),
        old(run).attempt < VERSION_FETCH_MAX_ATTEMPTS,
    ensures
        final(run).results == old(run).results,
        final(run).failed == old(run).failed,
        final(run).retries == old(run).retries,
        final(run).next_retry <= final(run).retries@.len(),
        final(run).attempt == old(run).attempt,
        !old(run).in_retry && old(run).queue@.len() > 0 ==> {
            &&& r matches FetchJob::First(p) && ref_key(p) == ref_key(old(run).queue@.last())
            &&& final(run).queue@ == old(run).queue@.drop_last()
            &&& !final(run).in_retry
        },
        (old(run).in_retry || old(run).queue@.len() == 0) ==> {
            &&& final(run).in_retry
            &&& final(run).queue@.len() == 0 || final(run).queue == old(run).queue
            &&& final(run).next_retry >= old(run).next_retry
            &&& forall|i: int| old(run).next_retry <= i < final(run).next_retry ==> #[trigger] latest_for(
                old(run).results@,
                ref_key(old(run).retries@[i]),
            ) is Some
            &&& match r {
                FetchJob::Done => final(run).next_retry == final(run).retries@.len(),
                FetchJob::Pause(ms) => ms == VERSION_FETCH_RETRY_GAP_MS && final(run).next_retry > 0
                    && final(run).next_retry < final(run).retries@.len() && final(run).gap_done,
                FetchJob::Retry(p, ms) => {
                    &&& final(run).next_retry < final(run).retries@.len()
                    &&& ref_key(p) == ref_key(final(run).retries@[final(run).next_retry as int])
                    &&& ms == VERSION_FETCH_RETRY_BASE_MS * final(run).attempt
                    &&& (final(run).next_retry == 0 || final(run).gap_done)
                    &&& final(run).next_retry > 0 ==> old(run).gap_done && final(run).next_retry == old(run).next_retry
                    &&& final(run).attempt == 0 ==> latest_for(final(run).results@, ref_key(p)) is None
                },
                FetchJob::First(_) => false,
            }
        },
{
    if !run.in_retry {
        match run.queue.pop() {
            Some(p) => {
                return FetchJob::First(p);
            },
            None => {
                run.in_retry = true;
            },
        }
    }
    let ghost start = run.next_retry;
    while run.next_retry < run.retries.len()
        invariant
            run.in_retry,
            start <= run.next_retry <= run.retries@.len(),
            run.results == old(run).results,
            run.retries == old(run).retries,
            run.failed == old(run).failed,
            run.attempt == old(run).attempt,
            run.attempt < VERSION_FETCH_MAX_ATTEMPTS,
            run.queue@.len() == 0 || run.queue == old(run).queue,
            start == old(run).next_retry,
            old(run).in_retry || old(run).queue@.len() == 0,
            run.next_retry == start ==> run.gap_done == old(run).gap_done,
            run.next_retry > start ==> !run.gap_done,
            forall|i: int| start <= i < run.next_retry ==> #[trigger] latest_for(
                old(run).results@,
                ref_key(old(run).retries@[i]),
            ) is Some,
        decreases run.retries@.len() - run.next_retry,
    {
        if run.next_retry > 0 && !run.gap_done {
            run.gap_done = true;
            return FetchJob::Pause(VERSION_FETCH_RETRY_GAP_MS);
        }
        let i = run.next_retry;
        if run.attempt == 0 {
            let p = &run.retries[i];
            match find_latest(&run.results, p.source.as_str(), p.project_id.as_str()) {
                Some(_) => {
                    run.next_retry = i + 1;
                    run.gap_done = false;
                    continue;
                },
                None => {},
            }
        }
        let p = copy_ref(&run.retries[i]);
        let wait = VERSION_FETCH_RETRY_BASE_MS * run.attempt as u64;
        return FetchJob::Retry(p, wait);
    }
    FetchJob::Done
}

/// What a first-round lookup leaves behind: a found version is kept, an error
/// worth retrying queues the project for the retry round, anything else is
/// dropped.
pub fn latest_fetch_first(run: &mut LatestFetchRun, job: ProjectRef, reply: FetchReply)
    ensures
        final(run).queue == old(run).queue,
        final(run).in_retry == old(run).in_retry,
        final(run).next_retry == old(run).next_retry,
        final(run).attempt == old(run).attempt,
        final(run).gap_done == old(run).gap_done,
        final(run).failed == old(run).failed,
        match reply {
            FetchReply::Found(v) => final(run).results@ == old(run).results@.push(LatestVersion { project: job, version: v })
                && final(run).retries == old(run).retries,
            FetchReply::Error(e) => final(run).results == old(run).results && if retryable(e@) {
                final(run).retries@ == old(run).retries@.push(job)
            } else {
                final(run).retries == old(run).retries
            },
            FetchReply::NotAvailable => final(run).results == old(run).results && final(run).retries == old(run).retries,
        },
{
    match reply {
        FetchReply::Found(v) => {
            run.results.push(LatestVersion { project: job, version: v });
        },
        FetchReply::Error(e) => {
            if is_retryable_fetch_error(e.as_str()) {
                run.retries.push(job);
            }
        },
        FetchReply::NotAvailable => {},
    }
}

/// What a retry-round lookup of the current project leaves behind: a found
/// version is kept and a missing one noted, both ending the project; an
/// error worth retrying before the last attempt tries again; any other error
/// counts the project as failed.
pub fn latest_fetch_retry(run: &mut LatestFetchRun, job: ProjectRef, reply: FetchReply)
    requires
        old(run).next_retry < old(run).retries@.len(),
        old(run).attempt < VERSION_FETCH_MAX_ATTEMPTS,
        old(run).failed < u32::MAX,
    ensures
        final(run).queue == old(run).queue,
        final(run).in_retry == old(run).in_retry,
        final(run).retries == old(run).retries,
        final(run).attempt < VERSION_FETCH_MAX_ATTEMPTS,
        ({
            let next_project = final(run).next_retry == old(run).next_retry + 1 && final(run).attempt == 0
                && !final(run).gap_done;
            match reply {
                FetchReply::Found(v) => next_project && final(run).failed == old(run).failed && final(run).results@
                    == old(run).results@.push(LatestVersion { project: job, version: v }),
                FetchReply::NotAvailable => next_project && final(run).failed == old(run).failed && final(run).results
                    == old(run).results,
                FetchReply::Error(e) => final(run).results == old(run).results && if retryable(e@) && old(run).attempt
                    + 1 < VERSION_FETCH_MAX_ATTEMPTS {
                    &&& final(run).next_retry == old(run).next_retry
                    &&& final(run).attempt == old(run).attempt + 1
                    &&& final(run).gap_done == old(run).gap_done
                    &&& final(run).failed == old(run).failed
                } else {
                    next_project && final(run).failed == old(run).failed + 1
                },
            }
        }),
{
    let n = run.next_retry;
    let len = run.retries.len();
    assert(n < len);
    match reply {
        FetchReply::Found(v) => {
            run.results.push(LatestVersion { project: job, version: v });
        },
        FetchReply::NotAvailable => {},
        FetchReply::Error(e) => {
            if is_retryable_fetch_error(e.as_str()) && run.attempt + 1 < VERSION_FETCH_MAX_ATTEMPTS {
                run.attempt = run.attempt + 1;
                return;
            }
            run.failed = run.failed + 1;
        },
    }
    run.next_retry = n + 1;
    run.attempt = 0;
    run.gap_done = false;
}

// ---------------------------------------------------------------------------
// Provider metadata
// ---------------------------------------------------------------------------

/// A loader name as CurseForge numbers it.
pub open spec fn curseforge_loader_type_of(loader: Seq<char>) -> Option<u8> {
    let l = lower(trim(loader));
    if l == "forge"@ {
        Some(1u8)
    } else if l == "fabric"@ {
        Some(4u8)
    } else if l == "quilt"@ {
        Some(5u8)
    } else if l == "neoforge"@ {
        Some(6u8)
    } else {
        None
    }
}

pub fn curseforge_loader_type(loader: &str) -> (r: Option<u8>)
    ensures
        r == curseforge_loader_type_of(loader@),
{
    let t = trimmed(loader);
    let l = to_lower(&t);
    if eq_str(&l, "forge") {
        Some(1)
    } else if eq_str(&l, "fabric") {
        Some(4)
    } else if eq_str(&l, "quilt") {
        Some(5)
    } else if eq_str(&l, "neoforge") {
        Some(6)
    } else {
        None
    }
}

pub fn is_loader_name(value: &str) -> (r: bool)
    ensures
        r == (curseforge_loader_type_of(value@) is Some),
{
    curseforge_loader_type(value).is_some()
}

/// The loader names among CurseForge's game versions, each once.
pub open spec fn loaders_from_versions(versions: Seq<Seq<char>>) -> Seq<Seq<char>>
    decreases versions.len(),
{
    if versions.len() == 0 {
        Seq::<Seq<char>>::empty()
    } else {
        let prev = loaders_from_versions(versions.drop_last());
        let l = lower(trim(versions.last()));
        if curseforge_loader_type_of(versions.last()) is Some && !prev.contains(l) {
            prev.push(l)
        } else {
            prev
        }
    }
}

pub fn curseforge_loaders_from_versions(versions: &[String]) -> (r: Vec<String>)
    ensures
        string_views(r@) == loaders_from_versions(string_views(versions@)),
{
    let ghost vv = string_views(versions@);
    let mut out: Vec<String> = Vec::new();
    let mut i: usize = 0;
    assert(vv.take(0) =~= Seq::<Seq<char>>::empty());
    while i < versions.len()
        invariant
            i <= versions@.len(),
            vv == string_views(versions@),
            string_views(out@) == loaders_from_versions(vv.take(i as int)),
        decreases versions@.len() - i,
    {
        assert(vv.take(i + 1).drop_last() =~= vv.take(i as int));
        assert(vv.take(i + 1).last() == versions@[i as int]@);
        if is_loader_name(versions[i].as_str()) {
            let t = trimmed(versions[i].as_str());
            let l = to_lower(&t);
            let ls = string_of(&l);
            let mut found = false;
            let mut k: usize = 0;
            while k < out.len()
                invariant
                    k <= out@.len(),
                    found == string_views(out@).take(k as int).contains(l@),
                decreases out@.len() - k,
            {
                proof {
                    assert(string_views(out@).take(k + 1) =~= string_views(out@).take(k as int).push(
                        out@[k as int]@,
                    ));
                    if string_views(out@).take(k as int).push(out@[k as int]@).contains(l@) {
                        let j = choose|j: int|
                            0 <= j < k + 1 && string_views(out@).take(k as int).push(out@[k as int]@)[j]
                                == l@;
                        if j < k {
                            assert(string_views(out@).take(k as int)[j] == l@);
                        }
                    }
                    if string_views(out@).take(k as int).contains(l@) {
                        let j = choose|j: int| 0 <= j < k && string_views(out@).take(k as int)[j] == l@;
                        assert(string_views(out@).take(k as int).push(out@[k as int]@)[j] == l@);
                    }
                }
                if eq_str(&l, out[k].as_str()) {
                    assert(string_views(out@).take(k as int).push(out@[k as int]@)[k as int] == l@);
                    found = true;
                }
                k = k + 1;
            }
            assert(string_views(out@).take(out@.len() as int) =~= string_views(out@));
            if !found {
                let ghost before = out@;
                out.push(ls);
                assert(string_views(out@) =~= string_views(before).push(l@));
            }
        }
        i = i + 1;
    }
    assert(vv.take(versions@.len() as int) =~= vv);
    out
}

pub open spec fn release_type_of(value: u64) -> Seq<char> {
    if value == 1 {
        "release"@
    } else if value == 2 {
        "beta"@
    } else if value == 3 {
        "alpha"@
    } else {
        "unknown"@
    }
}

pub fn curseforge_release_type(value: u64) -> (r: String)
    ensures
        r@ == release_type_of(value),
{
    if value == 1 {
        "release".to_string()
    } else if value == 2 {
        "beta".to_string()
    } else if value == 3 {
        "alpha".to_string()
    } else {
        "unknown".to_string()
    }
}

/// Versions are listed for Modrinth and CurseForge only.
pub fn normalize_source(source: &str) -> (r: Result<String, String>)
    ensures
        ({
            let s = lower(trim(source@));
            &&& (s == "modrinth"@ || s == "curseforge"@) ==> (r matches Ok(v) && v@ == s)
            &&& !(s == "modrinth"@ || s == "curseforge"@) ==> (r matches Err(e) && e@
                == "Версии доступны только для Modrinth или CurseForge."@)
        }),
{
    let t = trimmed(source);
    let l = to_lower(&t);
    if eq_str(&l, "modrinth") || eq_str(&l, "curseforge") {
        Ok(string_of(&l))
    } else {
        Err("Версии доступны только для Modrinth или CurseForge.".to_string())
    }
}

} // verus!
