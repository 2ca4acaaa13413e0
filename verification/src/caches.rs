//! The small keyed caches kept on disk: update checks per instance, and
//! project details and install previews per catalog project.
use vstd::prelude::*;
use crate::text::{chars_of, eq_str, lower, opt_view, trim, trim_string, trimmed, to_lower, string_of};
use crate::instance_meta::InstanceTarget;
use crate::updates::ModUpdateCandidate;

verus! {

// ---------------------------------------------------------------------------
// Entries by key
// ---------------------------------------------------------------------------

/// The position of the first entry under `key`.
pub open spec fn key_index<V>(entries: Seq<(String, V)>, key: Seq<char>) -> Option<int>
    decreases entries.len(),
{
    if entries.len() == 0 {
        None
    } else {
        match key_index(entries.drop_last(), key) {
            Some(i) => Some(i),
            None => if entries.last().0@ == key {
                Some(entries.len() - 1)
            } else {
                None
            },
        }
    }
}

/// The value stored under `key`.
pub open spec fn lookup<V>(entries: Seq<(String, V)>, key: Seq<char>) -> Option<V> {
    match key_index(entries, key) {
        Some(i) => Some(entries[i].1),
        None => None,
    }
}

/// The entries after `v` is stored under `key`: the entry under the key is
/// replaced, or a new one is added at the end.
pub open spec fn put<V>(entries: Seq<(String, V)>, key: String, v: V) -> Seq<(String, V)> {
    match key_index(entries, key@) {
        Some(i) => entries.update(i, (key, v)),
        None => entries.push((key, v)),
    }
}

/// The entries without any under `key`.
pub open spec fn without<V>(entries: Seq<(String, V)>, key: Seq<char>) -> Seq<(String, V)> {
    entries.filter(not_under(key))
}

pub open spec fn not_under<V>(key: Seq<char>) -> spec_fn((String, V)) -> bool {
    |e: (String, V)| e.0@ != key
}

pub proof fn lemma_key_index<V>(entries: Seq<(String, V)>, key: Seq<char>)
    ensures
        match key_index(entries, key) {
            Some(i) => 0 <= i < entries.len() && entries[i].0@ == key && forall|j: int| 0 <= j < i ==> (#[trigger] entries[j]).0@ != key,
            None => forall|j: int| 0 <= j < entries.len() ==> (#[trigger] entries[j]).0@ != key,
        },
    decreases entries.len(),
{
    if entries.len() > 0 {
        lemma_key_index(entries.drop_last(), key);
        let prev = entries.drop_last();
        assert forall|j: int| 0 <= j < prev.len() implies prev[j] == #[trigger] entries[j] by {}
    }
}

proof fn lemma_key_index_is<V>(entries: Seq<(String, V)>, key: Seq<char>, i: int)
    requires
        0 <= i < entries.len(),
        entries[i].0@ == key,
        forall|j: int| 0 <= j < i ==> (#[trigger] entries[j]).0@ != key,
    ensures
        key_index(entries, key) == Some(i),
{
    lemma_key_index(entries, key);
    match key_index(entries, key) {
        Some(p) => {
            if p < i {
            } else if p > i {
            }
        },
        None => {},
    }
}

pub fn find_key<V>(entries: &Vec<(String, V)>, key: &str) -> (r: Option<usize>)
    ensures
        match r {
            Some(i) => key_index(entries@, key@) == Some(i as int) && i < entries@.len(),
            None => key_index(entries@, key@) is None,
        },
{
    let kv = chars_of(key);
    let mut i: usize = 0;
    while i < entries.len()
        invariant
            i <= entries@.len(),
            kv@ == key@,
            forall|j: int| 0 <= j < i ==> (#[trigger] entries@[j]).0@ != key@,
        decreases entries@.len() - i,
    {
        if eq_str(&kv, entries[i].0.as_str()) {
            proof {
                lemma_key_index_is(entries@, key@, i as int);
            }
            return Some(i);
        }
        i = i + 1;
    }
    proof {
        lemma_key_index(entries@, key@);
        if let Some(p) = key_index(entries@, key@) {
            assert(entries@[p].0@ != key@);
        }
    }
    None
}

/// The value stored under `key`.
pub fn get_entry<'a, V>(entries: &'a Vec<(String, V)>, key: &str) -> (r: Option<&'a V>)
    ensures
        match lookup(entries@, key@) {
            Some(v) => r == Some(&v),
            None => r is None,
        },
{
    match find_key(entries, key) {
        Some(i) => Some(&entries[i].1),
        None => None,
    }
}

/// Stores `v` under `key`.
pub fn put_entry<V>(entries: &mut Vec<(String, V)>, key: String, v: V)
    ensures
        final(entries)@ == put(old(entries)@, key, v),
{
    match find_key(entries, key.as_str()) {
        Some(i) => {
            entries.set(i, (key, v));
        },
        None => {
            entries.push((key, v));
        },
    }
}

/// Drops what is stored under `key`.
pub fn remove_entry<V>(entries: &mut Vec<(String, V)>, key: &str)
    ensures
        final(entries)@ == without(old(entries)@, key@),
{
    let kv = chars_of(key);
    let mut rest: Vec<(String, V)> = Vec::new();
    std::mem::swap(entries, &mut rest);
    let ghost all = rest@;
    let n = rest.len();
    let mut k: usize = 0;
    while k < n
        invariant
            k <= n,
            n == all.len(),
            kv@ == key@,
            rest@ == all.subrange(k as int, n as int),
            entries@ == without(all.take(k as int), key@),
        decreases n - k,
    {
        let e = rest.remove(0);
        proof {
            assert(e == all[k as int]);
            assert(all.take(k + 1) =~= all.take(k as int).push(e));
            all.take(k as int).lemma_filter_push(e, not_under::<V>(key@));
            assert(rest@ =~= all.subrange(k + 1, n as int));
        }
        if !eq_str(&kv, e.0.as_str()) {
            entries.push(e);
        }
        k = k + 1;
    }
    assert(all.take(n as int) =~= all);
}

/// What is stored under a key can be read back.
pub proof fn lemma_put_then_lookup<V>(entries: Seq<(String, V)>, key: String, v: V)
    ensures
        lookup(put(entries, key, v), key@) == Some(v),
{
    lemma_key_index(entries, key@);
    let after = put(entries, key, v);
    match key_index(entries, key@) {
        Some(i) => {
            assert forall|j: int| 0 <= j < i implies (#[trigger] after[j]).0@ != key@ by {
                assert(after[j] == entries[j]);
            }
            lemma_key_index_is(after, key@, i);
        },
        None => {
            assert forall|j: int| 0 <= j < entries.len() implies (#[trigger] after[j]).0@ != key@ by {
                assert(after[j] == entries[j]);
            }
            lemma_key_index_is(after, key@, entries.len() as int);
        },
    }
}

/// Storing under one key leaves what is stored under the others.
pub proof fn lemma_put_keeps_others<V>(entries: Seq<(String, V)>, key: String, v: V, other: Seq<char>)
    requires
        other != key@,
    ensures
        lookup(put(entries, key, v), other) == lookup(entries, other),
{
    lemma_key_index(entries, key@);
    lemma_key_index(entries, other);
    let after = put(entries, key, v);
    lemma_key_index(after, other);
    match key_index(entries, other) {
        Some(p) => {
            assert(after[p] == entries[p]);
            assert forall|j: int| 0 <= j < p implies (#[trigger] after[j]).0@ != other by {
                assert(after[j].0@ == entries[j].0@ || after[j].0@ == key@);
            }
            lemma_key_index_is(after, other, p);
        },
        None => {
            match key_index(after, other) {
                Some(q) => {
                    if q < entries.len() {
                        assert(after[q].0@ == entries[q].0@ || after[q].0@ == key@);
                    }
                },
                None => {},
            }
        },
    }
}

/// Nothing is stored under a key after it is dropped.
pub proof fn lemma_remove_then_lookup<V>(entries: Seq<(String, V)>, key: Seq<char>)
    ensures
        lookup(without(entries, key), key) is None,
{
    let after = without(entries, key);
    lemma_key_index(after, key);
    if let Some(i) = key_index(after, key) {
        entries.lemma_filter_pred(not_under::<V>(key), i);
    }
}

// ---------------------------------------------------------------------------
// The update check cache
// ---------------------------------------------------------------------------

/// An update check is reused for a day.
pub const UPDATES_CACHE_TTL_MS: u64 = 86400000;

/// A check made at `checked_at_ms` is still fresh at `now_ms`; a check from
/// the future counts as fresh.
pub open spec fn fresh_at(now_ms: u64, checked_at_ms: u64) -> bool {
    now_ms <= checked_at_ms || now_ms - checked_at_ms <= UPDATES_CACHE_TTL_MS
}

pub fn updates_cache_fresh(now_ms: u64, checked_at_ms: u64) -> (r: bool)
    ensures
        r == fresh_at(now_ms, checked_at_ms),
{
    now_ms.saturating_sub(checked_at_ms) <= UPDATES_CACHE_TTL_MS
}

/// A finished update check as it is kept.
pub struct UpdatesCacheEntry {
    pub checked_at_ms: u64,
    pub mods_fingerprint: String,
    pub target: InstanceTarget,
    pub candidates: Vec<ModUpdateCandidate>,
    pub checked_projects: u32,
    pub failed_projects: u32,
}

pub open spec fn same_target(a: InstanceTarget, b: InstanceTarget) -> bool {
    opt_view(a.minecraft_version) == opt_view(b.minecraft_version) && opt_view(a.loader) == opt_view(b.loader)
}

/// The kept check for an instance (its root, trimmed) that can stand in for a
/// new one: made for the same mods and target, and fresh.
pub open spec fn reusable_check(
    entries: Seq<(String, UpdatesCacheEntry)>,
    scope: Seq<char>,
    fingerprint: Seq<char>,
    target: InstanceTarget,
    now_ms: u64,
) -> Option<UpdatesCacheEntry> {
    match lookup(entries, trim(scope)) {
        Some(e) => if e.mods_fingerprint@ == fingerprint && same_target(e.target, target) && fresh_at(now_ms, e.checked_at_ms) {
            Some(e)
        } else {
            None
        },
        None => None,
    }
}

fn opt_eq(a: &Option<String>, b: &Option<String>) -> (r: bool)
    ensures
        r == (opt_view(*a) == opt_view(*b)),
{
    match (a, b) {
        (Some(x), Some(y)) => {
            let xv = chars_of(x.as_str());
            eq_str(&xv, y.as_str())
        },
        (None, None) => true,
        _ => false,
    }
}

pub fn cached_updates<'a>(
    entries: &'a Vec<(String, UpdatesCacheEntry)>,
    scope: &str,
    fingerprint: &str,
    target: &InstanceTarget,
    now_ms: u64,
) -> (r: Option<&'a UpdatesCacheEntry>)
    ensures
        match reusable_check(entries@, scope@, fingerprint@, *target, now_ms) {
            Some(e) => r == Some(&e),
            None => r is None,
        },
{
    let key = trim_string(scope);
    match get_entry(entries, key.as_str()) {
        Some(e) => {
            let fv = chars_of(fingerprint);
            if eq_str(&fv, e.mods_fingerprint.as_str()) && opt_eq(&e.target.minecraft_version, &target.minecraft_version)
                && opt_eq(&e.target.loader, &target.loader) && updates_cache_fresh(now_ms, e.checked_at_ms) {
                Some(e)
            } else {
                None
            }
        },
        None => None,
    }
}

/// Keeps a finished check for an instance.
pub fn store_updates(entries: &mut Vec<(String, UpdatesCacheEntry)>, scope: &str, entry: UpdatesCacheEntry)
    ensures
        exists|k: String| k@ == trim(scope@) && #[trigger] put(old(entries)@, k, entry) == final(entries)@,
{
    let key = trim_string(scope);
    put_entry(entries, key, entry);
}

/// Forgets the kept check of an instance.
pub fn invalidate_updates(entries: &mut Vec<(String, UpdatesCacheEntry)>, scope: &str)
    ensures
        final(entries)@ == without(old(entries)@, trim(scope@)),
{
    let key = trim_string(scope);
    remove_entry(entries, key.as_str());
}

/// A kept check is found again while it is fresh, for the same mods and
/// target.
pub proof fn lemma_stored_check_is_reused(
    entries: Seq<(String, UpdatesCacheEntry)>,
    key: String,
    scope: Seq<char>,
    entry: UpdatesCacheEntry,
    target: InstanceTarget,
    now_ms: u64,
)
    requires
        key@ == trim(scope),
        same_target(entry.target, target),
        fresh_at(now_ms, entry.checked_at_ms),
    ensures
        reusable_check(put(entries, key, entry), scope, entry.mods_fingerprint@, target, now_ms) == Some(entry),
{
    lemma_put_then_lookup(entries, key, entry);
}

/// A forgotten check is not reused.
pub proof fn lemma_invalidated_check_is_not_reused(
    entries: Seq<(String, UpdatesCacheEntry)>,
    scope: Seq<char>,
    fingerprint: Seq<char>,
    target: InstanceTarget,
    now_ms: u64,
)
    ensures
        reusable_check(without(entries, trim(scope)), scope, fingerprint, target, now_ms) is None,
{
    lemma_remove_then_lookup(entries, trim(scope));
}

/// The answer to an update check.
pub struct CheckModUpdatesResponse {
    pub target: InstanceTarget,
    pub candidates: Vec<ModUpdateCandidate>,
    pub checked_projects: u32,
    pub failed_projects: u32,
    pub checked_at_ms: u64,
    pub cached: bool,
}

/// A kept check answers again, marked as coming from the cache.
pub fn response_from_cache_hit(entry: UpdatesCacheEntry) -> (r: CheckModUpdatesResponse)
    ensures
        r.target == entry.target,
        r.candidates == entry.candidates,
        r.checked_projects == entry.checked_projects,
        r.failed_projects == entry.failed_projects,
        r.checked_at_ms == entry.checked_at_ms,
        r.cached,
{
    CheckModUpdatesResponse {
        target: entry.target,
        candidates: entry.candidates,
        checked_projects: entry.checked_projects,
        failed_projects: entry.failed_projects,
        checked_at_ms: entry.checked_at_ms,
        cached: true,
    }
}

/// A fresh check, made at `now_ms` over `projects` projects.
pub fn fresh_response(
    target: InstanceTarget,
    candidates: Vec<ModUpdateCandidate>,
    projects: usize,
    failed_projects: u32,
    now_ms: u64,
) -> (r: CheckModUpdatesResponse)
    ensures
        r.target == target,
        r.candidates == candidates,
        r.checked_projects == projects as u32,
        r.failed_projects == failed_projects,
        r.checked_at_ms == now_ms,
        !r.cached,
{
    CheckModUpdatesResponse {
        target,
        candidates,
        checked_projects: projects as u32,
        failed_projects,
        checked_at_ms: now_ms,
        cached: false,
    }
}

/// A check is kept only when no project failed; otherwise what was kept is
/// forgotten.
pub fn keep_check(response: &CheckModUpdatesResponse) -> (r: bool)
    ensures
        r == (response.failed_projects == 0),
{
    response.failed_projects == 0
}

/// What is kept of a finished check, for the mods it was made for; the
/// answer itself stays with the caller.
pub fn cache_entry_for(response: CheckModUpdatesResponse, fingerprint: String) -> (r: (UpdatesCacheEntry, bool))
    ensures
        r.0.checked_at_ms == response.checked_at_ms,
        r.0.mods_fingerprint == fingerprint,
        r.0.target == response.target,
        r.0.candidates == response.candidates,
        r.0.checked_projects == response.checked_projects,
        r.0.failed_projects == response.failed_projects,
        r.1 == response.cached,
{
    (
        UpdatesCacheEntry {
            checked_at_ms: response.checked_at_ms,
            mods_fingerprint: fingerprint,
            target: response.target,
            candidates: response.candidates,
            checked_projects: response.checked_projects,
            failed_projects: response.failed_projects,
        },
        response.cached,
    )
}

// ---------------------------------------------------------------------------
// The catalog cache
// ---------------------------------------------------------------------------

/// The key of a catalog project: the instance, the provider in lower case and
/// the project id, each trimmed, apart by NUL characters.
pub open spec fn catalog_key(scope: Seq<char>, source: Seq<char>, project_id: Seq<char>) -> Seq<char> {
    trim(scope) + seq!['\0'] + lower(trim(source)) + seq!['\0'] + trim(project_id)
}

pub fn catalog_cache_key(scope: &str, source: &str, project_id: &str) -> (r: String)
    ensures
        r@ == catalog_key(scope@, source@, project_id@),
{
    let mut out = trim_string(scope);
    let nul = string_of(&vec!['\0']);
    out.append(nul.as_str());
    let s = to_lower(&trimmed(source));
    out.append(string_of(&s).as_str());
    out.append(nul.as_str());
    out.append(trim_string(project_id).as_str());
    out
}

/// What is kept for a catalog project.
pub struct CatalogCacheEntry<D, P> {
    pub details: Option<D>,
    pub preview: Option<P>,
}

/// Keeps a project's details, beside its install preview if there is one.
pub fn put_details<D, P>(entries: &mut Vec<(String, CatalogCacheEntry<D, P>)>, key: String, details: D)
    ensures
        final(entries)@.len() >= old(entries)@.len(),
        lookup(final(entries)@, key@) matches Some(e) && e.details == Some(details) && e.preview == match lookup(
            old(entries)@,
            key@,
        ) {
            Some(o) => o.preview,
            None => None,
        },
        forall|other: Seq<char>| other != key@ ==> lookup(final(entries)@, other) == #[trigger] lookup(old(entries)@, other),
{
    let preview = match find_key(entries, key.as_str()) {
        Some(i) => {
            let (_k, old_entry) = entries.remove(i);
            let ghost removed = (_k, old_entry);
            proof {
                lemma_key_index(old(entries)@, key@);
            }
            let p = old_entry.preview;
            let e = CatalogCacheEntry { details: Some(details), preview: p };
            entries.insert(i, (key, e));
            proof {
                assert(entries@ =~= old(entries)@.update(i as int, entries@[i as int]));
                assert(entries@ == put(old(entries)@, entries@[i as int].0, entries@[i as int].1));
                lemma_put_then_lookup(old(entries)@, entries@[i as int].0, entries@[i as int].1);
                assert forall|other: Seq<char>| other != key@ implies lookup(entries@, other) == #[trigger] lookup(old(entries)@, other) by {
                    lemma_put_keeps_others(old(entries)@, entries@[i as int].0, entries@[i as int].1, other);
                }
            }
            return;
        },
        None => None,
    };
    let e = CatalogCacheEntry { details: Some(details), preview };
    let ghost k = key;
    let ghost ev = e;
    put_entry(entries, key, e);
    proof {
        lemma_put_then_lookup(old(entries)@, k, ev);
        assert forall|other: Seq<char>| other != k@ implies lookup(entries@, other) == #[trigger] lookup(old(entries)@, other) by {
            lemma_put_keeps_others(old(entries)@, k, ev, other);
        }
    }
}

/// Keeps a project's install preview, beside its details if there are any.
pub fn put_preview<D, P>(entries: &mut Vec<(String, CatalogCacheEntry<D, P>)>, key: String, preview: P)
    ensures
        final(entries)@.len() >= old(entries)@.len(),
        lookup(final(entries)@, key@) matches Some(e) && e.preview == Some(preview) && e.details == match lookup(
            old(entries)@,
            key@,
        ) {
            Some(o) => o.details,
            None => None,
        },
        forall|other: Seq<char>| other != key@ ==> lookup(final(entries)@, other) == #[trigger] lookup(old(entries)@, other),
{
    let details = match find_key(entries, key.as_str()) {
        Some(i) => {
            let (_k, old_entry) = entries.remove(i);
            proof {
                lemma_key_index(old(entries)@, key@);
            }
            let d = old_entry.details;
            let e = CatalogCacheEntry { details: d, preview: Some(preview) };
            entries.insert(i, (key, e));
            proof {
                assert(entries@ =~= old(entries)@.update(i as int, entries@[i as int]));
                assert(entries@ == put(old(entries)@, entries@[i as int].0, entries@[i as int].1));
                lemma_put_then_lookup(old(entries)@, entries@[i as int].0, entries@[i as int].1);
                assert forall|other: Seq<char>| other != key@ implies lookup(entries@, other) == #[trigger] lookup(old(entries)@, other) by {
                    lemma_put_keeps_others(old(entries)@, entries@[i as int].0, entries@[i as int].1, other);
                }
            }
            return;
        },
        None => None,
    };
    let e = CatalogCacheEntry { details, preview: Some(preview) };
    let ghost k = key;
    let ghost ev = e;
    put_entry(entries, key, e);
    proof {
        lemma_put_then_lookup(old(entries)@, k, ev);
        assert forall|other: Seq<char>| other != k@ implies lookup(entries@, other) == #[trigger] lookup(old(entries)@, other) by {
            lemma_put_keeps_others(old(entries)@, k, ev, other);
        }
    }
}

/// A project's kept details.
pub fn cached_details<'a, D, P>(entries: &'a Vec<(String, CatalogCacheEntry<D, P>)>, key: &str) -> (r: Option<&'a D>)
    ensures
        match lookup(entries@, key@) {
            Some(e) => match e.details {
                Some(d) => r == Some(&d),
                None => r is None,
            },
            None => r is None,
        },
{
    match get_entry(entries, key) {
        Some(e) => match &e.details {
            Some(d) => Some(d),
            None => None,
        },
        None => None,
    }
}

/// A project's kept install preview.
pub fn cached_preview<'a, D, P>(entries: &'a Vec<(String, CatalogCacheEntry<D, P>)>, key: &str) -> (r: Option<&'a P>)
    ensures
        match lookup(entries@, key@) {
            Some(e) => match e.preview {
                Some(p) => r == Some(&p),
                None => r is None,
            },
            None => r is None,
        },
{
    match get_entry(entries, key) {
        Some(e) => match &e.preview {
            Some(p) => Some(p),
            None => None,
        },
        None => None,
    }
}

/// A cache file of another format version is read as empty.
pub fn usable_cache_version(found: u8, expected: u8) -> (r: bool)
    ensures
        r == (found == expected),
{
    found == expected
}

} // verus!
