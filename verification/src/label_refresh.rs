//! Fetching provider labels for mods and linking CurseForge mods to Modrinth.
use vstd::prelude::*;
use crate::text::{chars_of, eq_str, opt_view, string_views, trim};
use crate::tags::{ModTags, ProviderLabelsStore, TagFile};
use crate::mods::{find_tag, has_key, keys_unique, lemma_tag_for, tag_for, ModEntry};
use crate::provider_labels::{provider_labels_of, side_unset, sync_stored_side_from_provider};

verus! {

/// What to fetch to refresh a mod's provider labels.
pub enum LabelRequest {
    Modrinth { project_id: String, version_id: Option<String> },
    Curseforge { project_id: String, file_id: Option<String> },
}

/// Labels come from Modrinth for a mod known there, else from CurseForge for
/// a mod from there (with an API key and a CurseForge id).
pub open spec fn label_request_is(item: ModEntry, has_curseforge_key: bool, r: Result<LabelRequest, String>) -> bool {
    match item.modrinth_id {
        Some(pid) => r matches Ok(LabelRequest::Modrinth { project_id, version_id }) && project_id@ == pid@
            && opt_view(version_id) == match item.modrinth_version_id {
            Some(v) => if v@.len() > 0 {
                Some(v@)
            } else {
                None
            },
            None => None,
        },
        None => if item.source@ == "curseforge"@ {
            if !has_curseforge_key {
                r matches Err(e) && e@ == "Для CurseForge нужен API key."@
            } else {
                match item.curseforge_id {
                    Some(cid) => r matches Ok(LabelRequest::Curseforge { project_id, file_id }) && project_id@
                        == cid@ && opt_view(file_id) == match item.curseforge_file_id {
                        Some(f) => if f@.len() > 0 {
                            Some(f@)
                        } else {
                            None
                        },
                        None => None,
                    },
                    None => r matches Err(e) && e@ == "У мода нет CurseForge ID."@,
                }
            }
        } else {
            r matches Err(e) && e@ == "Метки поставщика доступны только для Modrinth и CurseForge."@
        },
    }
}

fn non_empty_clone(o: &Option<String>) -> (r: Option<String>)
    ensures
        opt_view(r) == match *o {
            Some(v) => if v@.len() > 0 {
                Some(v@)
            } else {
                None
            },
            None => None,
        },
{
    match o {
        Some(v) => if v.as_str().is_empty() {
            None
        } else {
            Some(v.clone())
        },
        None => None,
    }
}

pub fn label_request(item: &ModEntry, has_curseforge_key: bool) -> (r: Result<LabelRequest, String>)
    ensures
        label_request_is(*item, has_curseforge_key, r),
{
    if let Some(pid) = &item.modrinth_id {
        return Ok(LabelRequest::Modrinth { project_id: pid.clone(), version_id: non_empty_clone(&item.modrinth_version_id) });
    }
    let source = chars_of(item.source.as_str());
    if eq_str(&source, "curseforge") {
        if !has_curseforge_key {
            return Err("Для CurseForge нужен API key.".to_string());
        }
        match &item.curseforge_id {
            Some(cid) => Ok(
                LabelRequest::Curseforge { project_id: cid.clone(), file_id: non_empty_clone(&item.curseforge_file_id) },
            ),
            None => Err("У мода нет CurseForge ID.".to_string()),
        }
    } else {
        Err("Метки поставщика доступны только для Modrinth и CurseForge.".to_string())
    }
}

/// `after` is `tag` with fetched labels stamped `now`, whose side, library and
/// optimisation flags follow the provider while they are still the scan's
/// defaults.
pub open spec fn labels_stored(tag: ModTags, after: ModTags, store: ProviderLabelsStore, now: Seq<char>) -> bool {
    let mid = ModTags { provider_labels: store, ..tag };
    &&& after.provider_labels == store
    &&& after.updated_at@ == now
    &&& if side_unset(mid) {
        &&& (after.side@, after.library, after.technical) == provider_labels_of(mid)
        &&& after == ModTags {
            side: after.side,
            library: after.library,
            technical: after.technical,
            updated_at: after.updated_at,
            provider_labels: store,
            ..tag
        }
    } else {
        after == ModTags { updated_at: after.updated_at, provider_labels: store, ..tag }
    }
}

/// Stores freshly fetched provider labels in a tag.
pub fn store_fetched_labels(tag: &mut ModTags, store: ProviderLabelsStore, now: &str)
    ensures
        labels_stored(*old(tag), *final(tag), store, now@),
{
    let ghost before = *tag;
    tag.provider_labels = store;
    let ghost mid = *tag;
    assert(mid == ModTags { provider_labels: store, ..before });
    sync_stored_side_from_provider(tag);
    tag.updated_at = now.to_string();
    proof {
        if side_unset(mid) {
        } else {
        }
    }
}

/// The labels of a tag were fetched.
pub open spec fn fetched_in(mods: Seq<(String, ModTags)>, key: Seq<char>) -> bool {
    has_key(mods, key) && tag_for(mods, key).provider_labels.fetched_at@.len() > 0
}

/// The mods whose labels a bulk refresh fetches: those known to a provider,
/// and, when only missing labels are wanted, whose labels were not fetched.
pub open spec fn refresh_wanted(item: ModEntry, mods: Seq<(String, ModTags)>, only_missing: bool) -> bool {
    (item.modrinth_id is Some || item.curseforge_id is Some) && !(only_missing && fetched_in(mods, item.key@))
}

pub fn label_refresh_candidates(mods: &Vec<ModEntry>, tags: &TagFile, only_missing: bool) -> (r: Vec<usize>)
    requires
        keys_unique(tags.mods@),
    ensures
        forall|i: int| 0 <= i < r@.len() ==> (#[trigger] r@[i]) < mods@.len(),
        forall|i: int, j: int| 0 <= i < j < r@.len() ==> #[trigger] r@[i] < #[trigger] r@[j],
        forall|k: int|
            0 <= k < mods@.len() ==> (r@.contains(k as usize) <==> refresh_wanted(
                #[trigger] mods@[k],
                tags.mods@,
                only_missing,
            )),
{
    let mut r: Vec<usize> = Vec::new();
    let mut k: usize = 0;
    while k < mods.len()
        invariant
            k <= mods@.len(),
            keys_unique(tags.mods@),
            forall|i: int| 0 <= i < r@.len() ==> (#[trigger] r@[i]) < k,
            forall|i: int, j: int| 0 <= i < j < r@.len() ==> #[trigger] r@[i] < #[trigger] r@[j],
            forall|q: int|
                0 <= q < k ==> (r@.contains(q as usize) <==> refresh_wanted(#[trigger] mods@[q], tags.mods@, only_missing)),
        decreases mods@.len() - k,
    {
        let item = &mods[k];
        let mut wanted = item.modrinth_id.is_some() || item.curseforge_id.is_some();
        if wanted && only_missing {
            match find_tag(&tags.mods, item.key.as_str()) {
                Some(i) => {
                    proof {
                        lemma_tag_for(tags.mods@, item.key@, i as int);
                    }
                    if !tags.mods[i].1.provider_labels.fetched_at.as_str().is_empty() {
                        wanted = false;
                    }
                },
                None => {},
            }
        }
        let ghost before = r@;
        if wanted {
            r.push(k);
        }
        proof {
            assert forall|q: int| 0 <= q < k + 1 implies (r@.contains(q as usize) <==> refresh_wanted(
                #[trigger] mods@[q],
                tags.mods@,
                only_missing,
            )) by {
                if q < k {
                    if r@.contains(q as usize) {
                        let j = choose|j: int| 0 <= j < r@.len() && r@[j] == q as usize;
                        if j < before.len() {
                            assert(before[j] == q as usize);
                        }
                    }
                    if before.contains(q as usize) {
                        let j = choose|j: int| 0 <= j < before.len() && before[j] == q as usize;
                        assert(r@[j] == q as usize);
                    }
                } else {
                    if wanted {
                        assert(r@[r@.len() - 1] == k);
                    } else {
                        if r@.contains(q as usize) {
                            let j = choose|j: int| 0 <= j < r@.len() && r@[j] == q as usize;
                        }
                    }
                }
            }
        }
        k = k + 1;
    }
    r
}

// ---------------------------------------------------------------------------
// Linking CurseForge mods to Modrinth
// ---------------------------------------------------------------------------

/// What linking a CurseForge mod to Modrinth does next.
pub enum LinkStep {
    /// Nothing: no CurseForge id, or a Modrinth id is already stored.
    Skip,
    /// Look the stored slug up on Modrinth.
    UseSlug(String),
    /// Fetch the slug from CurseForge first (there is an API key).
    FetchSlug,
}

pub open spec fn link_step_is(r: LinkStep, tag: Option<ModTags>, has_curseforge_id: bool, has_curseforge_key: bool) -> bool {
    let (mid, slug) = match tag {
        Some(t) => (t.modrinth_id@, t.curseforge_slug@),
        None => (Seq::empty(), Seq::empty()),
    };
    if !has_curseforge_id || mid.len() > 0 {
        r is Skip
    } else if slug.len() > 0 {
        r matches LinkStep::UseSlug(s) && s@ == slug
    } else if has_curseforge_key {
        r is FetchSlug
    } else {
        r is Skip
    }
}

pub fn link_step(tag: Option<&ModTags>, has_curseforge_id: bool, has_curseforge_key: bool) -> (r: LinkStep)
    ensures
        link_step_is(
            r,
            match tag {
                Some(t) => Some(*t),
                None => None,
            },
            has_curseforge_id,
            has_curseforge_key,
        ),
{
    if !has_curseforge_id {
        return LinkStep::Skip;
    }
    match tag {
        Some(t) => {
            if !t.modrinth_id.as_str().is_empty() {
                return LinkStep::Skip;
            }
            if !t.curseforge_slug.as_str().is_empty() {
                return LinkStep::UseSlug(t.curseforge_slug.clone());
            }
        },
        None => {},
    }
    if has_curseforge_key {
        LinkStep::FetchSlug
    } else {
        LinkStep::Skip
    }
}

} // verus!
