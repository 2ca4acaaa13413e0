//! The decisions of one pass over the mod list that fetches provider data:
//! which ids to fetch, which labels and dependencies to keep, which covers to
//! download.
use vstd::prelude::*;
use crate::text::{chars_of, eq_str, opt_view, string_views, trim, trim_string};
use crate::mods::{holds_nonempty_of, merge_two, sorted_strict, ModEntry};
use crate::tags::ProviderLabelsStore;
use crate::provider_payloads::{
    build_curseforge_labels, build_modrinth_labels, is_curseforge_labels, is_modrinth_labels, CurseforgeFile,
    CurseforgeProject, ModrinthProjectFields, ModrinthVersionFields,
};
use crate::dependencies::{
    filter_reverse_jar_dependency_keys, jar_deps_view, lookup_last, same_dependency_list, without_pointing_back,
};

verus! {

/// What a pass fetches.
pub struct SyncFlags {
    pub labels: bool,
    pub covers: bool,
    pub dependencies: bool,
    pub force_covers: bool,
    pub force_labels: bool,
}

/// What a pass achieved.
pub struct UnifiedSyncReport {
    pub covers_downloaded: u32,
    pub labels_refreshed: u32,
    pub dependencies_updated: u32,
}

impl UnifiedSyncReport {
    pub fn empty() -> (r: UnifiedSyncReport)
        ensures
            r.covers_downloaded == 0,
            r.labels_refreshed == 0,
            r.dependencies_updated == 0,
    {
        UnifiedSyncReport { covers_downloaded: 0, labels_refreshed: 0, dependencies_updated: 0 }
    }
}

/// A pass does anything at all.
pub fn sync_requested(flags: &SyncFlags) -> (r: bool)
    ensures
        r == (flags.labels || flags.covers || flags.dependencies),
{
    flags.labels || flags.covers || flags.dependencies
}

/// Labels and dependencies need the installed versions (or files) too.
pub fn versions_needed(flags: &SyncFlags) -> (r: bool)
    ensures
        r == (flags.labels || flags.dependencies),
{
    flags.labels || flags.dependencies
}

/// Covers are downloaded by at most eight workers.
pub fn cover_worker_count(total: usize) -> (r: usize)
    ensures
        r == if total < 8 {
            total
        } else {
            8
        },
{
    if total < 8 {
        total
    } else {
        8
    }
}

// ---------------------------------------------------------------------------
// Ids to fetch and keys to find
// ---------------------------------------------------------------------------

/// The values that are there, in order.
pub open spec fn present(values: Seq<Option<String>>) -> Seq<Seq<char>>
    decreases values.len(),
{
    if values.len() == 0 {
        Seq::empty()
    } else {
        match values.last() {
            Some(v) => present(values.drop_last()).push(v@),
            None => present(values.drop_last()),
        }
    }
}

pub open spec fn modrinth_ids(mods: Seq<ModEntry>) -> Seq<Option<String>> {
    mods.map_values(|m: ModEntry| m.modrinth_id)
}

pub open spec fn modrinth_version_ids(mods: Seq<ModEntry>) -> Seq<Option<String>> {
    mods.map_values(|m: ModEntry| m.modrinth_version_id)
}

pub open spec fn curseforge_ids(mods: Seq<ModEntry>) -> Seq<Option<String>> {
    mods.map_values(|m: ModEntry| m.curseforge_id)
}

pub open spec fn curseforge_file_ids(mods: Seq<ModEntry>) -> Seq<Option<String>> {
    mods.map_values(|m: ModEntry| m.curseforge_file_id)
}

/// Which field of a mod an id list is made of.
pub enum IdField {
    ModrinthProject,
    ModrinthVersion,
    CurseforgeProject,
    CurseforgeFile,
}

pub open spec fn ids_of(mods: Seq<ModEntry>, field: IdField) -> Seq<Option<String>> {
    match field {
        IdField::ModrinthProject => modrinth_ids(mods),
        IdField::ModrinthVersion => modrinth_version_ids(mods),
        IdField::CurseforgeProject => curseforge_ids(mods),
        IdField::CurseforgeFile => curseforge_file_ids(mods),
    }
}

fn id_field<'a>(m: &'a ModEntry, field: &IdField) -> (r: &'a Option<String>)
    ensures
        *r == match *field {
            IdField::ModrinthProject => m.modrinth_id,
            IdField::ModrinthVersion => m.modrinth_version_id,
            IdField::CurseforgeProject => m.curseforge_id,
            IdField::CurseforgeFile => m.curseforge_file_id,
        },
{
    match field {
        IdField::ModrinthProject => &m.modrinth_id,
        IdField::ModrinthVersion => &m.modrinth_version_id,
        IdField::CurseforgeProject => &m.curseforge_id,
        IdField::CurseforgeFile => &m.curseforge_file_id,
    }
}

/// The ids the mods have in one field, in list order.
pub fn present_ids(mods: &Vec<ModEntry>, field: IdField) -> (r: Vec<String>)
    ensures
        string_views(r@) == present(ids_of(mods@, field)),
{
    let ghost all = ids_of(mods@, field);
    let mut r: Vec<String> = Vec::new();
    let mut i: usize = 0;
    while i < mods.len()
        invariant
            i <= mods@.len(),
            all == ids_of(mods@, field),
            all.len() == mods@.len(),
            string_views(r@) == present(all.take(i as int)),
        decreases mods@.len() - i,
    {
        assert(all.take(i + 1).drop_last() =~= all.take(i as int));
        let f = id_field(&mods[i], &field);
        assert(all.take(i + 1).last() == *f);
        if let Some(id) = f {
            let ghost before = r@;
            r.push(id.clone());
            assert(string_views(r@) =~= string_views(before).push(id@));
        }
        i = i + 1;
    }
    assert(all.take(all.len() as int) =~= all);
    r
}

/// The ids a pass fetches in one batch for each kind of payload.
pub struct PrefetchIds {
    pub modrinth_projects: Vec<String>,
    pub modrinth_versions: Vec<String>,
    pub curseforge_mods: Vec<String>,
    pub curseforge_files: Vec<String>,
}

/// Modrinth projects always; versions when they are needed; CurseForge mods
/// with an API key, and their files when versions are needed too.
pub fn prefetch_ids(mods: &Vec<ModEntry>, has_curseforge_key: bool, need_versions: bool) -> (r: PrefetchIds)
    ensures
        string_views(r.modrinth_projects@) == present(modrinth_ids(mods@)),
        string_views(r.modrinth_versions@) == if need_versions {
            present(modrinth_version_ids(mods@))
        } else {
            Seq::empty()
        },
        string_views(r.curseforge_mods@) == if has_curseforge_key {
            present(curseforge_ids(mods@))
        } else {
            Seq::empty()
        },
        string_views(r.curseforge_files@) == if has_curseforge_key && need_versions {
            present(curseforge_file_ids(mods@))
        } else {
            Seq::empty()
        },
{
    let none: Vec<String> = Vec::new();
    assert(string_views(none@) =~= Seq::<Seq<char>>::empty());
    PrefetchIds {
        modrinth_projects: present_ids(mods, IdField::ModrinthProject),
        modrinth_versions: if need_versions {
            present_ids(mods, IdField::ModrinthVersion)
        } else {
            Vec::new()
        },
        curseforge_mods: if has_curseforge_key {
            present_ids(mods, IdField::CurseforgeProject)
        } else {
            Vec::new()
        },
        curseforge_files: if has_curseforge_key && need_versions {
            present_ids(mods, IdField::CurseforgeFile)
        } else {
            Vec::new()
        },
    }
}

/// Each provider id with the key of the mod that has it, in list order.
pub open spec fn id_pairs(mods: Seq<ModEntry>, ids: Seq<Option<String>>) -> Seq<(Seq<char>, Seq<char>)>
    decreases mods.len(),
{
    if mods.len() == 0 || ids.len() != mods.len() {
        Seq::empty()
    } else {
        let rest = id_pairs(mods.drop_last(), ids.drop_last());
        match ids.last() {
            Some(id) => rest.push((id@, mods.last().key@)),
            None => rest,
        }
    }
}

pub open spec fn pair_views(v: Seq<(String, String)>) -> Seq<(Seq<char>, Seq<char>)> {
    v.map_values(|p: (String, String)| (p.0@, p.1@))
}

/// The mods by one of their provider ids, to find a dependency's mod; where
/// two mods share an id, the later one wins.
pub fn id_lookup(mods: &Vec<ModEntry>, field: IdField) -> (r: Vec<(String, String)>)
    ensures
        pair_views(r@) == id_pairs(mods@, ids_of(mods@, field)),
{
    let ghost all = ids_of(mods@, field);
    let mut r: Vec<(String, String)> = Vec::new();
    let mut i: usize = 0;
    while i < mods.len()
        invariant
            i <= mods@.len(),
            all == ids_of(mods@, field),
            all.len() == mods@.len(),
            pair_views(r@) == id_pairs(mods@.take(i as int), all.take(i as int)),
        decreases mods@.len() - i,
    {
        assert(all.take(i + 1).drop_last() =~= all.take(i as int));
        assert(mods@.take(i + 1).drop_last() =~= mods@.take(i as int));
        let f = id_field(&mods[i], &field);
        assert(all.take(i + 1).last() == *f);
        if let Some(id) = f {
            let ghost before = r@;
            r.push((id.clone(), mods[i].key.clone()));
            assert(pair_views(r@) =~= pair_views(before).push((id@, mods@[i as int].key@)));
        }
        i = i + 1;
    }
    assert(all.take(all.len() as int) =~= all);
    assert(mods@.take(mods@.len() as int) =~= mods@);
    r
}

/// The key of the mod with the given id.
pub fn lookup_key(lookup: &Vec<(String, String)>, id: &str) -> (r: Option<String>)
    ensures
        opt_view(r) == lookup_last(pair_views(lookup@), id@),
{
    let ghost pv = pair_views(lookup@);
    let idv = chars_of(id);
    let mut n: usize = lookup.len();
    assert(pv.take(n as int) =~= pv);
    while n > 0
        invariant
            n <= lookup@.len(),
            pv == pair_views(lookup@),
            idv@ == id@,
            lookup_last(pv, id@) == lookup_last(pv.take(n as int), id@),
        decreases n,
    {
        assert(pv.take(n as int).drop_last() =~= pv.take(n - 1));
        if eq_str(&idv, lookup[n - 1].0.as_str()) {
            return Some(lookup[n - 1].1.clone());
        }
        n = n - 1;
    }
    None
}

// ---------------------------------------------------------------------------
// Dependencies reported by the providers
// ---------------------------------------------------------------------------

/// A dependency of a Modrinth version: its kind and project, where given.
pub struct ModrinthDependency {
    pub dependency_type: Option<String>,
    pub project_id: Option<String>,
}

/// A dependency of a CurseForge file: its relation type and mod id, where given.
pub struct CurseforgeDependency {
    pub relation_type: Option<i64>,
    pub mod_id: Option<i64>,
}

/// The keys of the installed mods that a Modrinth version requires.
pub open spec fn modrinth_required_keys(deps: Seq<ModrinthDependency>, lookup: Seq<(Seq<char>, Seq<char>)>) -> Seq<Seq<char>>
    decreases deps.len(),
{
    if deps.len() == 0 {
        Seq::empty()
    } else {
        let rest = modrinth_required_keys(deps.drop_last(), lookup);
        let d = deps.last();
        if d.dependency_type matches Some(t) && t@ == "required"@ && d.project_id is Some
            && lookup_last(lookup, d.project_id.unwrap()@) is Some {
            rest.push(lookup_last(lookup, d.project_id.unwrap()@).unwrap())
        } else {
            rest
        }
    }
}

pub fn modrinth_dependencies_from_payload(deps: &Vec<ModrinthDependency>, lookup: &Vec<(String, String)>) -> (r: Vec<String>)
    ensures
        string_views(r@) == modrinth_required_keys(deps@, pair_views(lookup@)),
{
    let ghost lv = pair_views(lookup@);
    let mut r: Vec<String> = Vec::new();
    let mut i: usize = 0;
    while i < deps.len()
        invariant
            i <= deps@.len(),
            lv == pair_views(lookup@),
            string_views(r@) == modrinth_required_keys(deps@.take(i as int), lv),
        decreases deps@.len() - i,
    {
        assert(deps@.take(i + 1).drop_last() =~= deps@.take(i as int));
        assert(deps@.take(i + 1).last() == deps@[i as int]);
        let d = &deps[i];
        let required = match &d.dependency_type {
            Some(t) => {
                let tv = chars_of(t.as_str());
                eq_str(&tv, "required")
            },
            None => false,
        };
        if required {
            if let Some(pid) = &d.project_id {
                if let Some(key) = lookup_key(lookup, pid.as_str()) {
                    let ghost before = r@;
                    r.push(key);
                    assert(string_views(r@) =~= string_views(before).push(r@.last()@));
                }
            }
        }
        i = i + 1;
    }
    assert(deps@.take(deps@.len() as int) =~= deps@);
    r
}

/// `n.to_string()` for a signed number.
pub open spec fn i64_text(n: i64) -> Seq<char> {
    if n < 0 {
        "-"@ + crate::text::decimal((0 - n) as nat)
    } else {
        crate::text::decimal(n as nat)
    }
}

pub fn i64_string(n: i64) -> (r: String)
    ensures
        r@ == i64_text(n),
{
    if n < 0 {
        let m: u64 = if n == i64::MIN {
            9223372036854775808u64
        } else {
            (0 - n) as u64
        };
        let mut out = "-".to_string();
        out.append(crate::text::decimal_string(m).as_str());
        proof {
            reveal_strlit("-");
        }
        out
    } else {
        crate::text::decimal_string(n as u64)
    }
}

/// The keys of the installed mods that a CurseForge file requires (relation
/// type 3).
pub open spec fn curseforge_required_keys(deps: Seq<CurseforgeDependency>, lookup: Seq<(Seq<char>, Seq<char>)>) -> Seq<Seq<char>>
    decreases deps.len(),
{
    if deps.len() == 0 {
        Seq::empty()
    } else {
        let rest = curseforge_required_keys(deps.drop_last(), lookup);
        let d = deps.last();
        if d.relation_type == Some(3i64) && d.mod_id is Some && lookup_last(lookup, i64_text(d.mod_id.unwrap()))
            is Some {
            rest.push(lookup_last(lookup, i64_text(d.mod_id.unwrap())).unwrap())
        } else {
            rest
        }
    }
}

pub fn curseforge_dependencies_from_payload(deps: &Vec<CurseforgeDependency>, lookup: &Vec<(String, String)>) -> (r: Vec<String>)
    ensures
        string_views(r@) == curseforge_required_keys(deps@, pair_views(lookup@)),
{
    let ghost lv = pair_views(lookup@);
    let mut r: Vec<String> = Vec::new();
    let mut i: usize = 0;
    while i < deps.len()
        invariant
            i <= deps@.len(),
            lv == pair_views(lookup@),
            string_views(r@) == curseforge_required_keys(deps@.take(i as int), lv),
        decreases deps@.len() - i,
    {
        assert(deps@.take(i + 1).drop_last() =~= deps@.take(i as int));
        assert(deps@.take(i + 1).last() == deps@[i as int]);
        let d = &deps[i];
        if d.relation_type == Some(3i64) {
            if let Some(id) = d.mod_id {
                let text = i64_string(id);
                if let Some(key) = lookup_key(lookup, text.as_str()) {
                    let ghost before = r@;
                    r.push(key);
                    assert(string_views(r@) =~= string_views(before).push(r@.last()@));
                }
            }
        }
        i = i + 1;
    }
    assert(deps@.take(deps@.len() as int) =~= deps@);
    r
}

/// The dependencies a mod ends up with: the stored ones merged with the
/// provider keys that do not point back at it (each once, sorted).
pub open spec fn merged_dependencies(previous: Seq<Seq<char>>, kept: Seq<Seq<char>>, r: Seq<Seq<char>>) -> bool {
    sorted_strict(r) && holds_nonempty_of(r, previous + kept)
}

/// The provider keys a mod keeps: those not pointing back at it.
pub open spec fn kept_keys(item: ModEntry, keys: Seq<Seq<char>>, jar_dependencies: Seq<(Seq<char>, Seq<Seq<char>>)>) -> Seq<Seq<char>> {
    without_pointing_back(item.key@, string_views(item.jar_dependencies@), keys, jar_dependencies)
}

/// New dependencies for a mod from the provider keys found in one pass:
/// none where no key is left or nothing changes, else the merged list.
pub fn dependency_update(
    item: &ModEntry,
    keys: &Vec<String>,
    jar_dependencies: &Vec<(String, Vec<String>)>,
    previous: &Vec<String>,
) -> (r: Option<Vec<String>>)
    ensures
        ({
            let kept = kept_keys(*item, string_views(keys@), jar_deps_view(jar_dependencies@));
            match r {
                Some(m) => {
                    &&& kept.len() > 0
                    &&& merged_dependencies(string_views(previous@), kept, string_views(m@))
                    &&& string_views(m@) != string_views(previous@)
                },
                None => kept.len() == 0 || merged_dependencies(
                    string_views(previous@),
                    kept,
                    string_views(previous@),
                ),
            }
        }),
{
    if keys.len() == 0 {
        proof {
            assert(string_views(keys@).len() == 0);
            reveal(Seq::filter);
            assert(string_views(keys@).filter(
                |k: Seq<char>|
                    !crate::dependencies::points_back(
                        item.key@,
                        string_views(item.jar_dependencies@),
                        k,
                        jar_deps_view(jar_dependencies@),
                    ),
            ).len() == 0);
        }
        return None;
    }
    let kept = filter_reverse_jar_dependency_keys(item.key.as_str(), item.jar_dependencies.as_slice(), keys.as_slice(), jar_dependencies);
    if kept.len() == 0 {
        return None;
    }
    let merged = merge_two(previous, &kept);
    if same_dependency_list(previous.as_slice(), merged.as_slice()) {
        return None;
    }
    Some(merged)
}

/// The dependencies of a mod refreshed on request: the stored ones merged
/// with the kept provider keys, and whether they changed.
pub fn refreshed_dependencies(previous: &Vec<String>, kept: &Vec<String>) -> (r: (Vec<String>, bool))
    ensures
        merged_dependencies(string_views(previous@), string_views(kept@), string_views(r.0@)),
        r.1 == (string_views(r.0@) != string_views(previous@)),
{
    let merged = merge_two(previous, kept);
    let same = same_dependency_list(previous.as_slice(), merged.as_slice());
    (merged, !same)
}

// ---------------------------------------------------------------------------
// Labels and covers of one mod
// ---------------------------------------------------------------------------

/// Which provider's labels a mod takes.
pub enum LabelSource {
    Modrinth,
    Curseforge,
    Neither,
}

/// CurseForge where the mod comes from there and it is reachable, else
/// Modrinth where the mod is known there, else CurseForge where reachable.
pub fn active_label_source(prefer_curseforge: bool, has_modrinth: bool, has_curseforge: bool) -> (r: LabelSource)
    ensures
        r == if prefer_curseforge && has_curseforge {
            LabelSource::Curseforge
        } else if has_modrinth {
            LabelSource::Modrinth
        } else if has_curseforge {
            LabelSource::Curseforge
        } else {
            LabelSource::Neither
        },
{
    if prefer_curseforge && has_curseforge {
        LabelSource::Curseforge
    } else if has_modrinth {
        LabelSource::Modrinth
    } else if has_curseforge {
        LabelSource::Curseforge
    } else {
        LabelSource::Neither
    }
}

/// A mod comes from CurseForge.
pub fn prefers_curseforge(item: &ModEntry) -> (r: bool)
    ensures
        r == (item.source@ == "curseforge"@),
{
    let s = chars_of(item.source.as_str());
    eq_str(&s, "curseforge")
}

/// How a pass can reach a mod: through Modrinth where it has a Modrinth id,
/// through CurseForge where it has a CurseForge id and there is an API key.
pub fn reachable_sources(item: &ModEntry, has_curseforge_key: bool) -> (r: (bool, bool))
    ensures
        r == (item.modrinth_id is Some, item.curseforge_id is Some && has_curseforge_key),
{
    (item.modrinth_id.is_some(), item.curseforge_id.is_some() && has_curseforge_key)
}

/// A non-empty id, where there is one.
pub open spec fn non_empty(o: Option<String>) -> Option<Seq<char>> {
    match o {
        Some(s) => if s@.len() > 0 {
            Some(s@)
        } else {
            None
        },
        None => None,
    }
}

pub fn non_empty_id(o: &Option<String>) -> (r: Option<&str>)
    ensures
        match r {
            Some(s) => non_empty(*o) == Some(s@),
            None => non_empty(*o) is None,
        },
{
    match o {
        Some(s) => if s.as_str().is_empty() {
            None
        } else {
            Some(s.as_str())
        },
        None => None,
    }
}

/// A pass downloads a cover for a mod: covers are asked for, the mod has
/// none yet (or covers are forced) and its cover was not set by hand.
pub fn wants_cover(flags: &SyncFlags, item: &ModEntry) -> (r: bool)
    ensures
        r == (flags.covers && (flags.force_covers || item.cover_path is None) && !item.cover_manual),
{
    let already_has_cover = !flags.force_covers && item.cover_path.is_some();
    flags.covers && !already_has_cover && !item.cover_manual
}

/// Where a cover comes from.
pub enum CoverPick {
    Url(String),
    SearchByName,
    Nothing,
}

pub open spec fn cover_pick_is(r: CoverPick, url: Seq<char>) -> bool {
    r matches CoverPick::Url(u) && u@ == url
}

/// The cover of the preferred provider, else the other's; without one from
/// Modrinth, a mod known on CurseForge is looked up on Modrinth by name.
pub fn pick_cover_url(
    prefer_curseforge: bool,
    modrinth_url: Option<String>,
    curseforge_url: Option<String>,
    has_curseforge_id: bool,
) -> (r: CoverPick)
    ensures
        ({
            let first = if prefer_curseforge {
                curseforge_url
            } else {
                modrinth_url
            };
            let second = if prefer_curseforge {
                modrinth_url
            } else {
                curseforge_url
            };
            if first is Some {
                cover_pick_is(r, first.unwrap()@)
            } else if second is Some {
                cover_pick_is(r, second.unwrap()@)
            } else if has_curseforge_id {
                r is SearchByName
            } else {
                r is Nothing
            }
        }),
{
    let (first, second) = if prefer_curseforge {
        (curseforge_url, modrinth_url)
    } else {
        (modrinth_url, curseforge_url)
    };
    if let Some(u) = first {
        return CoverPick::Url(u);
    }
    if let Some(u) = second {
        return CoverPick::Url(u);
    }
    if has_curseforge_id {
        CoverPick::SearchByName
    } else {
        CoverPick::Nothing
    }
}

/// A Modrinth project's icon: its `icon_url`, unless empty.
pub fn modrinth_cover_url_from_payload(icon_url: Option<String>) -> (r: Option<String>)
    ensures
        opt_view(r) == match icon_url {
            Some(u) => if u@.len() > 0 {
                Some(u@)
            } else {
                None
            },
            None => None,
        },
{
    match icon_url {
        Some(u) => if u.as_str().is_empty() {
            None
        } else {
            Some(u)
        },
        None => None,
    }
}

/// The logo of a CurseForge project: its thumbnail and full-size addresses.
pub struct CurseforgeLogo {
    pub thumbnail_url: Option<String>,
    pub url: Option<String>,
}

/// A text, trimmed, unless that leaves nothing.
pub open spec fn trimmed_text(o: Option<String>) -> Option<Seq<char>> {
    match o {
        Some(s) => if trim(s@).len() > 0 {
            Some(trim(s@))
        } else {
            None
        },
        None => None,
    }
}

fn trimmed_text_exec(o: &Option<String>) -> (r: Option<String>)
    ensures
        opt_view(r) == trimmed_text(*o),
{
    match o {
        Some(s) => {
            let t = trim_string(s.as_str());
            if t.as_str().is_empty() {
                None
            } else {
                Some(t)
            }
        },
        None => None,
    }
}

/// A CurseForge project's cover: the logo's thumbnail, else the logo itself.
pub fn curseforge_cover_url_from_payload(logo: Option<&CurseforgeLogo>) -> (r: Option<String>)
    ensures
        opt_view(r) == match logo {
            Some(l) => if trimmed_text(l.thumbnail_url) is Some {
                trimmed_text(l.thumbnail_url)
            } else {
                trimmed_text(l.url)
            },
            None => None,
        },
{
    match logo {
        Some(l) => match trimmed_text_exec(&l.thumbnail_url) {
            Some(u) => Some(u),
            None => trimmed_text_exec(&l.url),
        },
        None => None,
    }
}

/// The labels a pass stores for a mod: built from the payloads of the
/// provider it takes labels from, none where that payload is missing.
pub fn labels_for_item(
    source: &LabelSource,
    modrinth_project: Option<&ModrinthProjectFields>,
    modrinth_version: Option<&ModrinthVersionFields>,
    curseforge_project: Option<&CurseforgeProject>,
    curseforge_file: Option<&CurseforgeFile>,
    now: &str,
) -> (r: Option<ProviderLabelsStore>)
    ensures
        r is Some <==> match *source {
            LabelSource::Modrinth => modrinth_project is Some,
            LabelSource::Curseforge => curseforge_project is Some,
            LabelSource::Neither => false,
        },
        r matches Some(s) ==> match *source {
            LabelSource::Modrinth => is_modrinth_labels(s, *modrinth_project.unwrap(), modrinth_version, now@),
            LabelSource::Curseforge => is_curseforge_labels(s, *curseforge_project.unwrap(), curseforge_file, now@),
            LabelSource::Neither => false,
        },
{
    match source {
        LabelSource::Modrinth => match modrinth_project {
            Some(p) => Some(build_modrinth_labels(p, modrinth_version, now)),
            None => None,
        },
        LabelSource::Curseforge => build_curseforge_labels(curseforge_project, curseforge_file, now),
        LabelSource::Neither => None,
    }
}

// ---------------------------------------------------------------------------
// Requests for one mod
// ---------------------------------------------------------------------------

/// A request for the dependencies a provider reports for an installed file.
pub enum DependencyRequest {
    ModrinthVersion(String),
    CurseforgeFile(String, String),
}

pub open spec fn dependency_request_is(r: DependencyRequest, modrinth_version: Option<Seq<char>>, curseforge_file: Option<(Seq<char>, Seq<char>)>) -> bool {
    match r {
        DependencyRequest::ModrinthVersion(v) => modrinth_version == Some(v@),
        DependencyRequest::CurseforgeFile(p, f) => curseforge_file == Some((p@, f@)),
    }
}

/// The requests, in order, that fetch a mod's provider dependencies (when
/// fetching them is switched on): its Modrinth version first unless it comes
/// from CurseForge, its CurseForge file, and its Modrinth version last when it
/// comes from CurseForge. A Modrinth version needs the Modrinth project id too.
pub open spec fn dependency_requests_of(item: ModEntry, enabled: bool) -> Seq<(Option<Seq<char>>, Option<(Seq<char>, Seq<char>)>)> {
    let prefer_cf = item.source@ == "curseforge"@;
    let mr = if enabled && item.modrinth_id is Some && item.modrinth_version_id is Some {
        seq![(Some(item.modrinth_version_id.unwrap()@), None::<(Seq<char>, Seq<char>)>)]
    } else {
        Seq::empty()
    };
    let cf = if enabled && item.curseforge_id is Some && item.curseforge_file_id is Some {
        seq![(None::<Seq<char>>, Some((item.curseforge_id.unwrap()@, item.curseforge_file_id.unwrap()@)))]
    } else {
        Seq::empty()
    };
    if prefer_cf {
        cf + mr
    } else {
        mr + cf
    }
}

pub fn api_dependency_requests(item: &ModEntry, enabled: bool) -> (r: Vec<DependencyRequest>)
    ensures
        r@.len() == dependency_requests_of(*item, enabled).len(),
        forall|i: int|
            0 <= i < r@.len() ==> dependency_request_is(
                #[trigger] r@[i],
                dependency_requests_of(*item, enabled)[i].0,
                dependency_requests_of(*item, enabled)[i].1,
            ),
{
    let prefer_cf = prefers_curseforge(item);
    let mut r: Vec<DependencyRequest> = Vec::new();
    let mr_ok = enabled && item.modrinth_id.is_some() && item.modrinth_version_id.is_some();
    let cf_ok = enabled && item.curseforge_id.is_some() && item.curseforge_file_id.is_some();
    if !prefer_cf && mr_ok {
        r.push(DependencyRequest::ModrinthVersion(item.modrinth_version_id.clone().unwrap()));
    }
    if cf_ok {
        r.push(
            DependencyRequest::CurseforgeFile(
                item.curseforge_id.clone().unwrap(),
                item.curseforge_file_id.clone().unwrap(),
            ),
        );
    }
    if prefer_cf && mr_ok {
        r.push(DependencyRequest::ModrinthVersion(item.modrinth_version_id.clone().unwrap()));
    }
    r
}

/// What a provider answered to one dependency request (an empty list where
/// the request failed or the answer held no dependencies).
pub enum DependencyReply {
    Modrinth(Vec<ModrinthDependency>),
    Curseforge(Vec<CurseforgeDependency>),
}

pub open spec fn reply_keys(
    reply: DependencyReply,
    modrinth_lookup: Seq<(Seq<char>, Seq<char>)>,
    curseforge_lookup: Seq<(Seq<char>, Seq<char>)>,
) -> Seq<Seq<char>> {
    match reply {
        DependencyReply::Modrinth(d) => modrinth_required_keys(d@, modrinth_lookup),
        DependencyReply::Curseforge(d) => curseforge_required_keys(d@, curseforge_lookup),
    }
}

/// The keys of all replies, in order.
pub open spec fn replies_keys(
    replies: Seq<DependencyReply>,
    modrinth_lookup: Seq<(Seq<char>, Seq<char>)>,
    curseforge_lookup: Seq<(Seq<char>, Seq<char>)>,
) -> Seq<Seq<char>>
    decreases replies.len(),
{
    if replies.len() == 0 {
        Seq::empty()
    } else {
        replies_keys(replies.drop_last(), modrinth_lookup, curseforge_lookup) + reply_keys(
            replies.last(),
            modrinth_lookup,
            curseforge_lookup,
        )
    }
}

/// The keys of the installed mods that the providers say a mod requires, from
/// the replies to its dependency requests.
pub fn fetch_api_dependencies(
    replies: &Vec<DependencyReply>,
    modrinth_lookup: &Vec<(String, String)>,
    curseforge_lookup: &Vec<(String, String)>,
) -> (r: Vec<String>)
    ensures
        string_views(r@) == replies_keys(replies@, pair_views(modrinth_lookup@), pair_views(curseforge_lookup@)),
{
    let ghost ml = pair_views(modrinth_lookup@);
    let ghost cl = pair_views(curseforge_lookup@);
    let mut r: Vec<String> = Vec::new();
    let mut i: usize = 0;
    while i < replies.len()
        invariant
            i <= replies@.len(),
            ml == pair_views(modrinth_lookup@),
            cl == pair_views(curseforge_lookup@),
            string_views(r@) == replies_keys(replies@.take(i as int), ml, cl),
        decreases replies@.len() - i,
    {
        assert(replies@.take(i + 1).drop_last() =~= replies@.take(i as int));
        assert(replies@.take(i + 1).last() == replies@[i as int]);
        let keys = match &replies[i] {
            DependencyReply::Modrinth(d) => modrinth_dependencies_from_payload(d, modrinth_lookup),
            DependencyReply::Curseforge(d) => curseforge_dependencies_from_payload(d, curseforge_lookup),
        };
        let ghost before = string_views(r@);
        let mut j: usize = 0;
        while j < keys.len()
            invariant
                j <= keys@.len(),
                string_views(r@) == before + string_views(keys@).take(j as int),
            decreases keys@.len() - j,
        {
            let ghost prev = r@;
            r.push(keys[j].clone());
            assert(string_views(r@) =~= string_views(prev).push(keys@[j as int]@));
            assert(before + string_views(keys@).take(j + 1) =~= (before + string_views(keys@).take(j as int)).push(
                keys@[j as int]@,
            ));
            j = j + 1;
        }
        assert(string_views(keys@).take(keys@.len() as int) =~= string_views(keys@));
        i = i + 1;
    }
    assert(replies@.take(replies@.len() as int) =~= replies@);
    r
}

/// A request that may find a mod's cover.
pub enum CoverRequest {
    ModrinthProject(String),
    CurseforgeProject(String),
    ModrinthSearch(String),
}

/// The cover requests, in order, for one mod: its Modrinth project first
/// unless it comes from CurseForge; then its CurseForge project and a search
/// on Modrinth by its name; its Modrinth project last when it comes from
/// CurseForge. The first request that finds an address gives the cover.
pub open spec fn cover_requests_of(item: ModEntry) -> Seq<CoverRequest> {
    let prefer_cf = item.source@ == "curseforge"@;
    let mr = if item.modrinth_id is Some {
        seq![CoverRequest::ModrinthProject(item.modrinth_id.unwrap())]
    } else {
        Seq::empty()
    };
    let cf = if item.curseforge_id is Some {
        seq![
            CoverRequest::CurseforgeProject(item.curseforge_id.unwrap()),
            CoverRequest::ModrinthSearch(item.display_name),
        ]
    } else {
        Seq::empty()
    };
    if prefer_cf {
        cf + mr
    } else {
        mr + cf
    }
}

pub open spec fn same_request(a: CoverRequest, b: CoverRequest) -> bool {
    match (a, b) {
        (CoverRequest::ModrinthProject(x), CoverRequest::ModrinthProject(y)) => x@ == y@,
        (CoverRequest::CurseforgeProject(x), CoverRequest::CurseforgeProject(y)) => x@ == y@,
        (CoverRequest::ModrinthSearch(x), CoverRequest::ModrinthSearch(y)) => x@ == y@,
        _ => false,
    }
}

pub fn cover_requests(item: &ModEntry) -> (r: Vec<CoverRequest>)
    ensures
        r@.len() == cover_requests_of(*item).len(),
        forall|i: int| 0 <= i < r@.len() ==> same_request(#[trigger] r@[i], cover_requests_of(*item)[i]),
{
    let prefer_cf = prefers_curseforge(item);
    let mut r: Vec<CoverRequest> = Vec::new();
    if !prefer_cf {
        if let Some(id) = &item.modrinth_id {
            r.push(CoverRequest::ModrinthProject(id.clone()));
        }
    }
    if let Some(id) = &item.curseforge_id {
        r.push(CoverRequest::CurseforgeProject(id.clone()));
        r.push(CoverRequest::ModrinthSearch(item.display_name.clone()));
    }
    if prefer_cf {
        if let Some(id) = &item.modrinth_id {
            r.push(CoverRequest::ModrinthProject(id.clone()));
        }
    }
    r
}

// ---------------------------------------------------------------------------
// One mod of a sync pass
// ---------------------------------------------------------------------------

/// Dependencies are refreshed when the pass asks for them and the settings
/// allow it.
pub fn dependencies_wanted(flags: &SyncFlags, auto_prefetch_dependencies: bool) -> (r: bool)
    ensures
        r == (flags.dependencies && auto_prefetch_dependencies),
{
    flags.dependencies && auto_prefetch_dependencies
}

/// What a pass fetched for one mod (looked up by the mod's ids; none where
/// nothing came back).
pub struct ModPayloads<'a> {
    pub modrinth_project: Option<&'a ModrinthProjectFields>,
    /// The project's `icon_url`.
    pub modrinth_icon: Option<String>,
    pub modrinth_version: Option<&'a ModrinthVersionFields>,
    /// The dependencies of that version.
    pub modrinth_dependencies: &'a Vec<ModrinthDependency>,
    pub curseforge_project: Option<&'a CurseforgeProject>,
    /// The project's `logo`.
    pub curseforge_logo: Option<&'a CurseforgeLogo>,
    pub curseforge_file: Option<&'a CurseforgeFile>,
    /// The dependencies of that file.
    pub curseforge_dependencies: &'a Vec<CurseforgeDependency>,
}

/// What a pass does for one mod: the labels to store, the provider
/// dependency keys to merge, and, where a cover is wanted, where it comes
/// from.
pub struct ModSyncPlan {
    pub labels: Option<ProviderLabelsStore>,
    pub dependency_keys: Vec<String>,
    pub cover: Option<CoverPick>,
}

pub open spec fn label_source_of(prefer_curseforge: bool, has_modrinth: bool, has_curseforge: bool) -> LabelSource {
    if prefer_curseforge && has_curseforge {
        LabelSource::Curseforge
    } else if has_modrinth {
        LabelSource::Modrinth
    } else if has_curseforge {
        LabelSource::Curseforge
    } else {
        LabelSource::Neither
    }
}

/// The labels built from the payloads of `source`: none where its project
/// is missing.
pub open spec fn labels_from(
    r: Option<ProviderLabelsStore>,
    source: LabelSource,
    modrinth_project: Option<&ModrinthProjectFields>,
    modrinth_version: Option<&ModrinthVersionFields>,
    curseforge_project: Option<&CurseforgeProject>,
    curseforge_file: Option<&CurseforgeFile>,
    now: Seq<char>,
) -> bool {
    match source {
        LabelSource::Modrinth => match modrinth_project {
            Some(p) => r matches Some(s) && is_modrinth_labels(s, *p, modrinth_version, now),
            None => r is None,
        },
        LabelSource::Curseforge => match curseforge_project {
            Some(p) => r matches Some(s) && is_curseforge_labels(s, *p, curseforge_file, now),
            None => r is None,
        },
        LabelSource::Neither => r is None,
    }
}

/// The cover URL of a CurseForge logo: its thumbnail, else the full image.
pub open spec fn logo_url(logo: Option<&CurseforgeLogo>) -> Option<Seq<char>> {
    match logo {
        Some(l) => if trimmed_text(l.thumbnail_url) is Some {
            trimmed_text(l.thumbnail_url)
        } else {
            trimmed_text(l.url)
        },
        None => None,
    }
}

/// Where a cover comes from: the preferred provider's URL, else the other's;
/// a mod known on CurseForge without one from Modrinth is searched by name.
pub open spec fn cover_from(
    r: CoverPick,
    prefer_curseforge: bool,
    modrinth_url: Option<Seq<char>>,
    curseforge_url: Option<Seq<char>>,
    has_curseforge_id: bool,
) -> bool {
    let first = if prefer_curseforge {
        curseforge_url
    } else {
        modrinth_url
    };
    let second = if prefer_curseforge {
        modrinth_url
    } else {
        curseforge_url
    };
    if first is Some {
        cover_pick_is(r, first.unwrap())
    } else if second is Some {
        cover_pick_is(r, second.unwrap())
    } else if has_curseforge_id {
        r is SearchByName
    } else {
        r is Nothing
    }
}

/// The provider dependency keys of one mod: those its Modrinth version
/// requires, then those its CurseForge file requires, as installed keys.
pub open spec fn provider_dependency_keys(
    payloads: ModPayloads,
    curseforge_file: Option<&CurseforgeFile>,
    modrinth_lookup: Seq<(Seq<char>, Seq<char>)>,
    curseforge_lookup: Seq<(Seq<char>, Seq<char>)>,
) -> Seq<Seq<char>> {
    (if payloads.modrinth_version is Some {
        modrinth_required_keys(payloads.modrinth_dependencies@, modrinth_lookup)
    } else {
        Seq::empty()
    }) + (if curseforge_file is Some {
        curseforge_required_keys(payloads.curseforge_dependencies@, curseforge_lookup)
    } else {
        Seq::empty()
    })
}

/// What a pass does for one mod. A mod it cannot reach (no Modrinth id, and
/// no CurseForge id or no API key) is passed over. Otherwise: with labels
/// asked for, those of the provider it takes labels from; with dependencies
/// asked for and allowed, the keys its payloads require; with a cover
/// wanted, where it comes from. CurseForge payloads count only where
/// CurseForge is reachable. The caller stores the plan with
/// `sync_mod_tags`.
pub fn mod_sync_plan(
    flags: &SyncFlags,
    auto_prefetch_dependencies: bool,
    has_curseforge_key: bool,
    item: &ModEntry,
    payloads: &ModPayloads,
    modrinth_lookup: &Vec<(String, String)>,
    curseforge_lookup: &Vec<(String, String)>,
    now: &str,
) -> (r: Option<ModSyncPlan>)
    ensures
        ({
            let has_modrinth = item.modrinth_id is Some;
            let has_curseforge = item.curseforge_id is Some && has_curseforge_key;
            let prefer = item.source@ == "curseforge"@;
            let cf_project = if has_curseforge {
                payloads.curseforge_project
            } else {
                None
            };
            let cf_file = if has_curseforge {
                payloads.curseforge_file
            } else {
                None
            };
            let cf_logo = if has_curseforge {
                payloads.curseforge_logo
            } else {
                None
            };
            &&& r is None <==> !has_modrinth && !has_curseforge
            &&& r matches Some(plan) ==> {
                &&& !flags.labels ==> plan.labels is None
                &&& flags.labels ==> labels_from(
                    plan.labels,
                    label_source_of(prefer, has_modrinth, has_curseforge),
                    payloads.modrinth_project,
                    payloads.modrinth_version,
                    cf_project,
                    cf_file,
                    now@,
                )
                &&& string_views(plan.dependency_keys@) == if flags.dependencies && auto_prefetch_dependencies {
                    provider_dependency_keys(*payloads, cf_file, pair_views(modrinth_lookup@), pair_views(curseforge_lookup@))
                } else {
                    Seq::empty()
                }
                &&& plan.cover is Some <==> (flags.covers && (flags.force_covers || item.cover_path is None)
                    && !item.cover_manual)
                &&& plan.cover matches Some(c) ==> cover_from(
                    c,
                    prefer,
                    if payloads.modrinth_project is Some {
                        non_empty(payloads.modrinth_icon)
                    } else {
                        None
                    },
                    logo_url(cf_logo),
                    item.curseforge_id is Some,
                )
            }
        }),
{
    let (has_modrinth, has_curseforge) = reachable_sources(item, has_curseforge_key);
    if !has_modrinth && !has_curseforge {
        return None;
    }
    let prefer = prefers_curseforge(item);
    let cf_project = if has_curseforge {
        payloads.curseforge_project
    } else {
        None
    };
    let cf_file = if has_curseforge {
        payloads.curseforge_file
    } else {
        None
    };
    let cf_logo = if has_curseforge {
        payloads.curseforge_logo
    } else {
        None
    };
    let labels = if flags.labels {
        let source = active_label_source(prefer, has_modrinth, has_curseforge);
        labels_for_item(&source, payloads.modrinth_project, payloads.modrinth_version, cf_project, cf_file, now)
    } else {
        None
    };
    let mut keys: Vec<String> = Vec::new();
    if dependencies_wanted(flags, auto_prefetch_dependencies) {
        if payloads.modrinth_version.is_some() {
            keys = modrinth_dependencies_from_payload(payloads.modrinth_dependencies, modrinth_lookup);
        }
        if cf_file.is_some() {
            let more = curseforge_dependencies_from_payload(payloads.curseforge_dependencies, curseforge_lookup);
            let ghost before = keys@;
            let mut j: usize = 0;
            while j < more.len()
                invariant
                    j <= more@.len(),
                    string_views(keys@) == string_views(before) + string_views(more@.take(j as int)),
                decreases more@.len() - j,
            {
                let ghost prev = keys@;
                keys.push(more[j].clone());
                assert(string_views(more@.take(j + 1)) =~= string_views(more@.take(j as int)).push(more@[j as int]@));
                assert(string_views(keys@) =~= string_views(prev).push(more@[j as int]@));
                j = j + 1;
            }
            assert(more@.take(more@.len() as int) =~= more@);
        }
    }
    proof {
        let empty: Seq<Seq<char>> = Seq::empty();
        assert(empty + empty =~= empty);
        assert(forall|s: Seq<Seq<char>>| s + empty =~= s);
        assert(forall|s: Seq<Seq<char>>| empty + s =~= s);
    }
    let cover = if wants_cover(flags, item) {
        let modrinth_url = if payloads.modrinth_project.is_some() {
            modrinth_cover_url_from_payload(payloads.modrinth_icon.clone())
        } else {
            None
        };
        let curseforge_url = curseforge_cover_url_from_payload(cf_logo);
        Some(pick_cover_url(prefer, modrinth_url, curseforge_url, item.curseforge_id.is_some()))
    } else {
        None
    };
    Some(ModSyncPlan { labels, dependency_keys: keys, cover })
}

/// `after` is `prev` with the new labels, if any, and, where they changed,
/// the dependencies merged with the kept provider keys; stamped `now` where
/// anything changed.
pub open spec fn mod_sync_result(
    prev: crate::tags::ModTags,
    after: crate::tags::ModTags,
    labels: Option<ProviderLabelsStore>,
    kept: Seq<Seq<char>>,
    deps_changed: bool,
    now: Seq<char>,
) -> bool {
    &&& after.provider_labels == match labels {
        Some(s) => s,
        None => prev.provider_labels,
    }
    &&& if deps_changed {
        &&& merged_dependencies(string_views(prev.dependencies@), kept, string_views(after.dependencies@))
        &&& string_views(after.dependencies@) != string_views(prev.dependencies@)
    } else {
        &&& after.dependencies == prev.dependencies
        &&& kept.len() > 0 ==> merged_dependencies(string_views(prev.dependencies@), kept, string_views(prev.dependencies@))
    }
    &&& if labels is Some || deps_changed {
        after.updated_at@ == now
    } else {
        after.updated_at == prev.updated_at
    }
    &&& after == crate::tags::ModTags {
        provider_labels: after.provider_labels,
        dependencies: after.dependencies,
        updated_at: after.updated_at,
        ..prev
    }
}

/// Stores what a sync pass found for one mod: the provider labels built for
/// it, and the dependency keys its provider payloads name (those that point
/// back at it through jar dependencies dropped). Counts what changed in the
/// report and says whether this mod's tag changed (`dirty`): the tag file is
/// then written at once, before the next mod, so that each mod shows its new
/// labels and dependencies as soon as it is done. The tag of a mod that gets
/// neither labels nor kept keys is left alone.
pub fn sync_mod_tags(
    tags: &mut crate::tags::TagFile,
    report: &mut UnifiedSyncReport,
    item: &ModEntry,
    labels: Option<ProviderLabelsStore>,
    dependency_keys: &Vec<String>,
    jar_dependencies: &Vec<(String, Vec<String>)>,
    now: &str,
) -> (dirty: bool)
    requires
        crate::mods::keys_unique(old(tags).mods@),
        old(report).labels_refreshed < u32::MAX,
        old(report).dependencies_updated < u32::MAX,
    ensures
        ({
            let kept = kept_keys(*item, string_views(dependency_keys@), jar_deps_view(jar_dependencies@));
            let changed = final(report).dependencies_updated == old(report).dependencies_updated + 1;
            &&& final(report).covers_downloaded == old(report).covers_downloaded
            &&& final(report).labels_refreshed == old(report).labels_refreshed + (if labels is Some { 1int } else { 0 })
            &&& changed || final(report).dependencies_updated == old(report).dependencies_updated
            &&& changed ==> kept.len() > 0
            &&& dirty == (labels is Some || changed)
            &&& final(tags).version == old(tags).version
            &&& if dirty { final(tags).updated_at@ == now@ } else { final(tags).updated_at == old(tags).updated_at }
            &&& if labels is Some || kept.len() > 0 {
                &&& crate::tag_updates::stored_under(
                    old(tags).mods@,
                    final(tags).mods@,
                    item.key@,
                    crate::mods::tag_for(final(tags).mods@, item.key@),
                )
                &&& exists|prev: crate::tags::ModTags|
                    #[trigger] crate::tag_updates::previous_is(old(tags).mods@, item.key@, prev) && mod_sync_result(
                        prev,
                        crate::mods::tag_for(final(tags).mods@, item.key@),
                        labels,
                        kept,
                        changed,
                        now@,
                    )
            } else {
                final(tags).mods@ == old(tags).mods@
            }
        }),
{
    let kept = filter_reverse_jar_dependency_keys(
        item.key.as_str(),
        item.jar_dependencies.as_slice(),
        dependency_keys.as_slice(),
        jar_dependencies,
    );
    let ghost kv = string_views(kept@);
    if labels.is_none() && kept.len() == 0 {
        return false;
    }
    let ghost before = tags.mods@;
    let (k, mut t, slot) = crate::tag_updates::take_tag(tags, item.key.as_str());
    let ghost prev = t;
    let mut dirty = false;
    match labels {
        Some(store) => {
            t.provider_labels = store;
            t.updated_at = now.to_string();
            dirty = true;
            report.labels_refreshed = report.labels_refreshed + 1;
        },
        None => {},
    }
    let mut changed = false;
    if kept.len() > 0 {
        let (merged, differs) = refreshed_dependencies(&t.dependencies, &kept);
        if differs {
            t.dependencies = merged;
            t.updated_at = now.to_string();
            dirty = true;
            changed = true;
            report.dependencies_updated = report.dependencies_updated + 1;
        }
    }
    let ghost a = t;
    crate::tag_updates::put_tag(tags, slot, k, t);
    proof {
        if let Some(i) = slot {
            assert(tags.mods@ == before.remove(i as int).insert(i as int, (k, a)));
        }
        crate::tag_updates::lemma_take_put(before, tags.mods@, item.key@, k, slot, a);
        assert(crate::tag_updates::previous_is(before, item.key@, prev));
        assert(mod_sync_result(prev, a, labels, kv, changed, now@));
    }
    if dirty {
        tags.updated_at = now.to_string();
    }
    dirty
}

} // verus!
