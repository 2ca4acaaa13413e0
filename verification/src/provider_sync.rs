//! Syncing provider data on request, and the disk space the manager uses.
use vstd::prelude::*;
use crate::text::{chars_of, eq_str};
use crate::mods::ModEntry;
use crate::prefetch::{SyncFlags, UnifiedSyncReport};

verus! {

/// Which kinds of provider data the user asked to sync.
pub struct SyncProviderDataRequest {
    pub identify: bool,
    pub labels: bool,
    pub assets: bool,
}

/// The pass over labels and assets that a request calls for: labels are
/// refreshed by force, and assets are covers and dependencies, covers by
/// force; `None` where only identification was asked for. A request that asks
/// for nothing is refused.
pub fn sync_plan(req: &SyncProviderDataRequest) -> (r: Result<Option<SyncFlags>, String>)
    ensures
        !(req.identify || req.labels || req.assets) <==> r is Err,
        r matches Err(e) ==> e@ == "Выбери хотя бы одну категорию."@,
        r matches Ok(None) ==> req.identify && !req.labels && !req.assets,
        r matches Ok(Some(f)) ==> (req.labels || req.assets) && f.labels == req.labels && f.force_labels == req.labels
            && f.covers == req.assets && f.dependencies == req.assets && f.force_covers == req.assets,
        (req.labels || req.assets) ==> r is Ok && r->Ok_0 is Some,
{
    if !req.identify && !req.labels && !req.assets {
        return Err("Выбери хотя бы одну категорию.".to_string());
    }
    if req.labels || req.assets {
        Ok(Some(SyncFlags {
            labels: req.labels,
            covers: req.assets,
            dependencies: req.assets,
            force_covers: req.assets,
            force_labels: req.labels,
        }))
    } else {
        Ok(None)
    }
}

/// A mod is linked when Modrinth or CurseForge identifies it.
pub open spec fn is_linked(m: ModEntry) -> bool {
    m.source@ == "modrinth"@ || m.source@ == "curseforge"@
}

pub open spec fn count_linked(s: Seq<ModEntry>) -> nat
    decreases s.len(),
{
    if s.len() == 0 {
        0
    } else {
        count_linked(s.drop_last()) + if is_linked(s.last()) {
            1nat
        } else {
            0nat
        }
    }
}

proof fn lemma_count_linked_bounded(s: Seq<ModEntry>)
    ensures
        count_linked(s) <= s.len(),
    decreases s.len(),
{
    if s.len() > 0 {
        lemma_count_linked_bounded(s.drop_last());
    }
}

/// How many mods of a scan are linked to a provider.
pub fn linked_count(mods: &[ModEntry]) -> (r: usize)
    ensures
        r == count_linked(mods@),
{
    let mut n: usize = 0;
    let mut i: usize = 0;
    while i < mods.len()
        invariant
            i <= mods@.len(),
            n == count_linked(mods@.take(i as int)),
        decreases mods@.len() - i,
    {
        proof {
            assert(mods@.take(i + 1).drop_last() =~= mods@.take(i as int));
            lemma_count_linked_bounded(mods@.take(i as int));
        }
        let s = chars_of(mods[i].source.as_str());
        if eq_str(&s, "modrinth") || eq_str(&s, "curseforge") {
            n = n + 1;
        }
        i = i + 1;
    }
    assert(mods@.take(mods@.len() as int) =~= mods@);
    n
}

/// How many mods identification linked: the growth of the linked count, none
/// where it shrank, cut to 32 bits.
pub fn newly_linked(before: usize, after: usize) -> (r: u32)
    ensures
        after <= before ==> r == 0,
        after > before ==> r == (after - before) as u32,
{
    let grown = after.saturating_sub(before);
    grown as u32
}

/// What a sync reports besides the refreshed list.
pub struct SyncCounts {
    pub linked: u32,
    pub labels_refreshed: u32,
    pub assets_refreshed: u32,
}

/// The counts of a sync: assets are the covers downloaded and dependency
/// lists updated; no pass over labels and assets refreshed nothing.
pub fn sync_counts(linked: u32, report: Option<&UnifiedSyncReport>) -> (r: SyncCounts)
    requires
        report matches Some(rep) ==> rep.covers_downloaded + rep.dependencies_updated <= u32::MAX,
    ensures
        r.linked == linked,
        match report {
            Some(rep) => r.labels_refreshed == rep.labels_refreshed && r.assets_refreshed == rep.covers_downloaded
                + rep.dependencies_updated,
            None => r.labels_refreshed == 0 && r.assets_refreshed == 0,
        },
{
    match report {
        Some(rep) => SyncCounts {
            linked,
            labels_refreshed: rep.labels_refreshed,
            assets_refreshed: rep.covers_downloaded + rep.dependencies_updated,
        },
        None => SyncCounts { linked, labels_refreshed: 0, assets_refreshed: 0 },
    }
}

/// The number of refreshed labels the list is shown with, when there are any.
pub fn labels_synced(labels_refreshed: u32) -> (r: Option<usize>)
    ensures
        labels_refreshed == 0 ==> r is None,
        labels_refreshed > 0 ==> r == Some(labels_refreshed as usize),
{
    if labels_refreshed > 0 {
        Some(labels_refreshed as usize)
    } else {
        None
    }
}

// ---------------------------------------------------------------------------
// Disk usage
// ---------------------------------------------------------------------------

pub open spec fn sum_sizes(sizes: Seq<u64>) -> nat
    decreases sizes.len(),
{
    if sizes.len() == 0 {
        0
    } else {
        sum_sizes(sizes.drop_last()) + sizes.last() as nat
    }
}

pub open spec fn capped(n: nat) -> u64 {
    if n > u64::MAX {
        u64::MAX
    } else {
        n as u64
    }
}

/// The size of a folder from the sizes of the files under it, added up and
/// held at the largest `u64`.
pub fn folder_size(sizes: &Vec<u64>) -> (r: u64)
    ensures
        r == capped(sum_sizes(sizes@)),
{
    let mut total: u64 = 0;
    let mut i: usize = 0;
    while i < sizes.len()
        invariant
            i <= sizes@.len(),
            total == capped(sum_sizes(sizes@.take(i as int))),
        decreases sizes@.len() - i,
    {
        assert(sizes@.take(i + 1).drop_last() =~= sizes@.take(i as int));
        total = total.saturating_add(sizes[i]);
        i = i + 1;
    }
    assert(sizes@.take(sizes@.len() as int) =~= sizes@);
    total
}

/// What the manager keeps on disk, by kind, in bytes.
pub struct DataUsageResult {
    pub total: u64,
    pub covers_cache: u64,
    pub covers_manual: u64,
    pub tags_file: u64,
    pub other_cache: u64,
}

/// The covers cache held at the largest `u64` after the catalog's covers are
/// added, when the app's data folder is known.
pub open spec fn covers_cache_size(instance_covers: u64, catalog_covers: Option<u64>) -> u64 {
    match catalog_covers {
        Some(c) => capped(instance_covers as nat + c as nat),
        None => instance_covers,
    }
}

/// The disk usage report; the sizes together fit in a `u64`.
pub fn data_usage(instance_covers: u64, catalog_covers: Option<u64>, covers_manual: u64, tags_file: u64, other_cache: u64) -> (r: DataUsageResult)
    requires
        covers_cache_size(instance_covers, catalog_covers) + covers_manual + tags_file + other_cache <= u64::MAX,
    ensures
        r.covers_cache == covers_cache_size(instance_covers, catalog_covers),
        r.covers_manual == covers_manual,
        r.tags_file == tags_file,
        r.other_cache == other_cache,
        r.total == r.covers_cache + covers_manual + tags_file + other_cache,
{
    let covers_cache = match catalog_covers {
        Some(c) => instance_covers.saturating_add(c),
        None => instance_covers,
    };
    DataUsageResult {
        total: covers_cache + covers_manual + tags_file + other_cache,
        covers_cache,
        covers_manual,
        tags_file,
        other_cache,
    }
}

} // verus!
