//! Changes to the stored labels of one mod, and to all of them.
use vstd::prelude::*;
use crate::text::{chars_of, eq_str, is_ws, string_views, opt_view, trim, trim_end, trim_start, trimmed};
use crate::tags::{LabelOverridesStore, ModTags, ProviderLabelsStore, TagFile};
use crate::mods::{find_tag, has_key, keys_unique, lemma_tag_for, normalize_side, normalized_side, tag_for};
use crate::provider_labels::{
    manual_mode, manual_tags_for, provider_labels_of, provider_tags_for, refresh_result_for, resolved_library,
    resolved_side, resolved_technical, stored,
};

verus! {

/// Two tag files hold the same entries.
pub open spec fn same_file(a: TagFile, b: TagFile) -> bool {
    a.version == b.version && a.updated_at == b.updated_at && a.mods@ == b.mods@
}

/// A tag as a new entry starts: nothing set.
pub open spec fn is_default_tag(t: ModTags) -> bool {
    &&& t.side@.len() == 0
    &&& !t.library
    &&& !t.technical
    &&& t.description@.len() == 0
    &&& t.dependencies@.len() == 0
    &&& t.aliases@.len() == 0
    &&& t.source@.len() == 0
    &&& t.modrinth_id@.len() == 0
    &&& t.modrinth_version_id@.len() == 0
    &&& t.curseforge_id@.len() == 0
    &&& t.curseforge_file_id@.len() == 0
    &&& t.curseforge_slug@.len() == 0
    &&& t.display_name@.len() == 0
    &&& t.provider_title@.len() == 0
    &&& t.updated_at@.len() == 0
    &&& is_empty_store(t.provider_labels)
    &&& t.label_overrides.side_mode@.len() == 0
}

/// Provider labels that were never fetched.
pub open spec fn is_empty_store(s: ProviderLabelsStore) -> bool {
    &&& s.fetched_at@.len() == 0
    &&& s.source@.len() == 0
    &&& s.client_side@.len() == 0
    &&& s.server_side@.len() == 0
    &&& s.categories@.len() == 0
    &&& s.additional_categories@.len() == 0
    &&& s.loaders@.len() == 0
    &&& s.game_versions@.len() == 0
}

/// The tag an update starts from: the one stored under `key`, or a default
/// one where there is none.
pub open spec fn previous_is(mods: Seq<(String, ModTags)>, key: Seq<char>, prev: ModTags) -> bool {
    if has_key(mods, key) {
        prev == tag_for(mods, key)
    } else {
        is_default_tag(prev)
    }
}

/// `after` is `before` with the entry under `key` replaced by `tag`, or
/// extended by it where there is no such entry.
pub open spec fn stored_under(before: Seq<(String, ModTags)>, after: Seq<(String, ModTags)>, key: Seq<char>, tag: ModTags) -> bool {
    &&& keys_unique(after)
    &&& if has_key(before, key) {
        &&& after.len() == before.len()
        &&& forall|j: int|
            0 <= j < before.len() ==> {
                &&& (#[trigger] after[j]).0 == before[j].0
                &&& before[j].0@ == key ==> after[j].1 == tag
                &&& before[j].0@ != key ==> after[j].1 == before[j].1
            }
    } else {
        &&& after.len() == before.len() + 1
        &&& forall|j: int| 0 <= j < before.len() ==> #[trigger] after[j] == before[j]
        &&& after.last().0@ == key
        &&& after.last().1 == tag
    }
}

proof fn lemma_stored_under_has(before: Seq<(String, ModTags)>, after: Seq<(String, ModTags)>, key: Seq<char>, tag: ModTags)
    requires
        keys_unique(before),
        stored_under(before, after, key, tag),
    ensures
        has_key(after, key),
        tag_for(after, key) == tag,
{
    if has_key(before, key) {
        let p = choose|i: int| 0 <= i < before.len() && (#[trigger] before[i]).0@ == key;
        assert(after[p].0@ == key);
        lemma_tag_for(after, key, p);
    } else {
        let p = after.len() - 1;
        assert(after[p].0@ == key);
        lemma_tag_for(after, key, p);
    }
}

/// Takes the entry under `key` out of the file, or makes a default tag where
/// there is none.
pub(crate) fn take_tag(tags: &mut TagFile, key: &str) -> (r: (String, ModTags, Option<usize>))
    requires
        keys_unique(old(tags).mods@),
    ensures
        final(tags).version == old(tags).version,
        final(tags).updated_at == old(tags).updated_at,
        r.0@ == key@,
        previous_is(old(tags).mods@, key@, r.1),
        match r.2 {
            Some(i) => {
                &&& i < old(tags).mods@.len()
                &&& old(tags).mods@[i as int].0 == r.0
                &&& old(tags).mods@[i as int].1 == r.1
                &&& final(tags).mods@ == old(tags).mods@.remove(i as int)
            },
            None => !has_key(old(tags).mods@, key@) && final(tags).mods@ == old(tags).mods@,
        },
{
    match find_tag(&tags.mods, key) {
        Some(i) => {
            let (k, t) = tags.mods.remove(i);
            proof {
                lemma_tag_for(old(tags).mods@, key@, i as int);
            }
            (k, t, Some(i))
        },
        None => {
            let t = ModTags::default();
            (key.to_string(), t, None)
        },
    }
}

/// Puts an entry back where `take_tag` took it, or at the end.
pub(crate) fn put_tag(tags: &mut TagFile, slot: Option<usize>, key: String, t: ModTags)
    requires
        slot matches Some(i) ==> i <= old(tags).mods@.len(),
    ensures
        final(tags).version == old(tags).version,
        final(tags).updated_at == old(tags).updated_at,
        final(tags).mods@ == match slot {
            Some(i) => old(tags).mods@.insert(i as int, (key, t)),
            None => old(tags).mods@.push((key, t)),
        },
{
    match slot {
        Some(i) => tags.mods.insert(i, (key, t)),
        None => tags.mods.push((key, t)),
    }
}

pub(crate) proof fn lemma_take_put(
    before: Seq<(String, ModTags)>,
    after: Seq<(String, ModTags)>,
    key: Seq<char>,
    k: String,
    slot: Option<usize>,
    t: ModTags,
)
    requires
        keys_unique(before),
        k@ == key,
        match slot {
            Some(i) => {
                &&& i < before.len()
                &&& before[i as int].0 == k
                &&& after == before.remove(i as int).insert(i as int, (k, t))
            },
            None => !has_key(before, key) && after == before.push((k, t)),
        },
    ensures
        stored_under(before, after, key, t),
        has_key(after, key),
        tag_for(after, key) == t,
{
    match slot {
        Some(i) => {
            assert(after =~= before.update(i as int, (k, t)));
            assert(has_key(before, key));
            assert forall|a: int, b: int| 0 <= a < b < after.len() implies (#[trigger] after[a]).0@
                != (#[trigger] after[b]).0@ by {
                assert(after[a].0 == before[a].0);
                assert(after[b].0 == before[b].0);
            }
            assert forall|j: int| 0 <= j < before.len() && before[j].0@ == key implies j == i by {
                if j < i {
                    assert(before[j].0@ != before[i as int].0@);
                } else if j > i {
                    assert(before[i as int].0@ != before[j].0@);
                }
            }
        },
        None => {
            assert forall|a: int, b: int| 0 <= a < b < after.len() implies (#[trigger] after[a]).0@
                != (#[trigger] after[b]).0@ by {
                if b == after.len() - 1 {
                    assert(after[a] == before[a]);
                } else {
                    assert(after[a] == before[a]);
                    assert(after[b] == before[b]);
                }
            }
        },
    }
    lemma_stored_under_has(before, after, key, t);
}

// ---------------------------------------------------------------------------
// Labels set in the interface
// ---------------------------------------------------------------------------

/// A change of one mod's labels asked for in the interface; every field that
/// is given replaces the stored one.
pub struct UpdateModTagsRequest {
    pub key: String,
    pub side: Option<String>,
    pub side_mode: Option<String>,
    pub library: Option<bool>,
    pub technical: Option<bool>,
    pub description: Option<String>,
    pub dependencies: Option<Vec<String>>,
}

/// The mode after a change: setting the side, library or optimisation flag
/// makes the labels manual; else a given mode is `manual` when it says so
/// and `auto` otherwise; else the mode stays.
pub open spec fn mode_after(prev: Seq<char>, p: UpdateModTagsRequest) -> Seq<char> {
    if p.side is Some || p.library is Some || p.technical is Some {
        "manual"@
    } else {
        match p.side_mode {
            Some(m) => if trim(m@) == "manual"@ {
                "manual"@
            } else {
                "auto"@
            },
            None => prev,
        }
    }
}

/// `after` is `prev` with the change applied at `now`.
pub open spec fn tags_patched(prev: ModTags, after: ModTags, p: UpdateModTagsRequest, now: String) -> bool {
    &&& after.label_overrides.side_mode@ == mode_after(prev.label_overrides.side_mode@, p)
    &&& after.side@ == match p.side {
        Some(s) => normalized_side(s@),
        None => prev.side@,
    }
    &&& after.library == match p.library {
        Some(b) => b,
        None => prev.library,
    }
    &&& after.technical == match p.technical {
        Some(b) => b,
        None => prev.technical,
    }
    &&& after.description == match p.description {
        Some(d) => d,
        None => prev.description,
    }
    &&& after.dependencies == match p.dependencies {
        Some(d) => d,
        None => prev.dependencies,
    }
    &&& after.updated_at == now
    &&& after == ModTags {
        side: after.side,
        library: after.library,
        technical: after.technical,
        description: after.description,
        dependencies: after.dependencies,
        updated_at: after.updated_at,
        label_overrides: after.label_overrides,
        ..prev
    }
}

fn mode_string(manual: bool) -> (r: String)
    ensures
        r@ == if manual {
            "manual"@
        } else {
            "auto"@
        },
{
    if manual {
        "manual".to_string()
    } else {
        "auto".to_string()
    }
}

/// Applies a change to one tag.
pub fn apply_tags_patch(tag: ModTags, patch: UpdateModTagsRequest, now: String) -> (r: ModTags)
    ensures
        tags_patched(tag, r, patch, now),
{
    let ghost p = patch;
    let mut t = tag;
    let UpdateModTagsRequest { key, side, side_mode, library, technical, description, dependencies } = patch;
    if let Some(m) = side_mode {
        let mv = trimmed(m.as_str());
        t.label_overrides = LabelOverridesStore { side_mode: mode_string(eq_str(&mv, "manual")) };
    }
    if let Some(s) = side {
        t.side = normalize_side(s.as_str());
        t.label_overrides = LabelOverridesStore { side_mode: mode_string(true) };
    }
    if let Some(b) = library {
        t.library = b;
        t.label_overrides = LabelOverridesStore { side_mode: mode_string(true) };
    }
    if let Some(b) = technical {
        t.technical = b;
        t.label_overrides = LabelOverridesStore { side_mode: mode_string(true) };
    }
    if let Some(d) = description {
        t.description = d;
    }
    if let Some(d) = dependencies {
        t.dependencies = d;
    }
    t.updated_at = now;
    t
}

/// The labels of one mod as the interface shows them after a change.
pub struct ModTagsUpdateResult {
    pub key: String,
    pub side: String,
    pub library: bool,
    pub technical: bool,
    pub side_mode: String,
    pub manual_side: String,
    pub manual_library: bool,
    pub manual_technical: bool,
    pub provider_side: String,
    pub provider_library: bool,
    pub provider_technical: bool,
    pub description: Option<String>,
}

/// The labels in effect, those set by hand and those of the provider.
pub open spec fn update_result_of(r: ModTagsUpdateResult, tag: ModTags, key: Seq<char>) -> bool {
    &&& r.key@ == key
    &&& r.side@ == resolved_side(tag)
    &&& r.library == resolved_library(tag)
    &&& r.technical == resolved_technical(tag)
    &&& r.side_mode@ == if manual_mode(tag) {
        "manual"@
    } else {
        "auto"@
    }
    &&& r.manual_side@ == stored(tag)
    &&& r.manual_library == tag.library
    &&& r.manual_technical == tag.technical
    &&& (r.provider_side@, r.provider_library, r.provider_technical) == provider_labels_of(tag)
}

pub fn mod_tags_update_result(tag: &ModTags, key: &str) -> (r: ModTagsUpdateResult)
    ensures
        update_result_of(r, *tag, key@),
        r.description is None,
{
    let resolved = refresh_result_for(tag, key);
    let (manual_side, manual_library, manual_technical) = manual_tags_for(tag);
    let (provider_side, provider_library, provider_technical) = provider_tags_for(tag);
    ModTagsUpdateResult {
        key: key.to_string(),
        side: resolved.side,
        library: resolved.library,
        technical: resolved.technical,
        side_mode: resolved.side_mode,
        manual_side,
        manual_library,
        manual_technical,
        provider_side,
        provider_library,
        provider_technical,
        description: None,
    }
}

/// Applies a change asked for in the interface to the tag file, stamping the
/// entry and the file with `now`, and says what the interface shows after
/// it: the labels, and the description where the change set one.
pub fn update_mod_tags(tags: &mut TagFile, patch: UpdateModTagsRequest, now: String) -> (r: ModTagsUpdateResult)
    requires
        keys_unique(old(tags).mods@),
    ensures
        final(tags).version == old(tags).version,
        final(tags).updated_at == now,
        has_key(final(tags).mods@, patch.key@),
        stored_under(old(tags).mods@, final(tags).mods@, patch.key@, tag_for(final(tags).mods@, patch.key@)),
        exists|prev: ModTags|
            #[trigger] previous_is(old(tags).mods@, patch.key@, prev) && tags_patched(
                prev,
                tag_for(final(tags).mods@, patch.key@),
                patch,
                now,
            ),
        update_result_of(r, tag_for(final(tags).mods@, patch.key@), patch.key@),
        opt_view(r.description) == match patch.description {
            Some(d) => Some(d@),
            None => None,
        },
{
    let ghost p = patch;
    let ghost before = tags.mods@;
    let described = patch.description.is_some();
    let key = patch.key.clone();
    let (k, t, slot) = take_tag(tags, key.as_str());
    let ghost prev = t;
    let after = apply_tags_patch(t, patch, now.clone());
    let ghost a = after;
    let ghost mid = tags.mods@;
    put_tag(tags, slot, k, after);
    proof {
        if let Some(i) = slot {
            assert(tags.mods@ == before.remove(i as int).insert(i as int, (k, a)));
        }
        lemma_take_put(before, tags.mods@, p.key@, k, slot, a);
        assert(previous_is(before, p.key@, prev));
    }
    tags.updated_at = now;
    let i = match find_tag(&tags.mods, key.as_str()) {
        Some(i) => i,
        None => {
            proof {
                assert(false);
            }
            0
        },
    };
    proof {
        lemma_tag_for(tags.mods@, p.key@, i as int);
    }
    let mut r = mod_tags_update_result(&tags.mods[i].1, key.as_str());
    if described {
        r.description = Some(tags.mods[i].1.description.clone());
    }
    r
}

// ---------------------------------------------------------------------------
// Labels and links found by the application
// ---------------------------------------------------------------------------

/// `after` is `prev` with new provider labels, stamped `now`.
pub open spec fn labels_replaced(prev: ModTags, after: ModTags, store: ProviderLabelsStore, now: Seq<char>) -> bool {
    &&& after.updated_at@ == now
    &&& after == ModTags { updated_at: after.updated_at, provider_labels: store, ..prev }
}

/// Stores a provider's labels for the mod under `key` and stamps the entry
/// and the file with `now`.
pub fn store_provider_labels(tags: &mut TagFile, key: &str, store: ProviderLabelsStore, now: &str)
    requires
        keys_unique(old(tags).mods@),
    ensures
        final(tags).version == old(tags).version,
        final(tags).updated_at@ == now@,
        has_key(final(tags).mods@, key@),
        stored_under(old(tags).mods@, final(tags).mods@, key@, tag_for(final(tags).mods@, key@)),
        exists|prev: ModTags|
            #[trigger] previous_is(old(tags).mods@, key@, prev) && labels_replaced(
                prev,
                tag_for(final(tags).mods@, key@),
                store,
                now@,
            ),
{
    let ghost before = tags.mods@;
    let (k, mut t, slot) = take_tag(tags, key);
    let ghost prev = t;
    t.provider_labels = store;
    t.updated_at = now.to_string();
    let ghost a = t;
    put_tag(tags, slot, k, t);
    proof {
        if let Some(i) = slot {
            assert(tags.mods@ == before.remove(i as int).insert(i as int, (k, a)));
        }
        lemma_take_put(before, tags.mods@, key@, k, slot, a);
        assert(previous_is(before, key@, prev));
    }
    tags.updated_at = now.to_string();
}

/// `after` is `prev` with new dependencies, stamped `now`.
pub open spec fn dependencies_replaced(prev: ModTags, after: ModTags, deps: Vec<String>, now: Seq<char>) -> bool {
    &&& after.updated_at@ == now
    &&& after == ModTags { updated_at: after.updated_at, dependencies: deps, ..prev }
}

/// Stores the dependencies of the mod under `key` and stamps the entry and
/// the file with `now`.
pub fn store_dependencies(tags: &mut TagFile, key: &str, deps: Vec<String>, now: &str)
    requires
        keys_unique(old(tags).mods@),
    ensures
        final(tags).version == old(tags).version,
        final(tags).updated_at@ == now@,
        has_key(final(tags).mods@, key@),
        stored_under(old(tags).mods@, final(tags).mods@, key@, tag_for(final(tags).mods@, key@)),
        exists|prev: ModTags|
            #[trigger] previous_is(old(tags).mods@, key@, prev) && dependencies_replaced(
                prev,
                tag_for(final(tags).mods@, key@),
                deps,
                now@,
            ),
{
    let ghost before = tags.mods@;
    let (k, mut t, slot) = take_tag(tags, key);
    let ghost prev = t;
    t.dependencies = deps;
    t.updated_at = now.to_string();
    let ghost a = t;
    put_tag(tags, slot, k, t);
    proof {
        if let Some(i) = slot {
            assert(tags.mods@ == before.remove(i as int).insert(i as int, (k, a)));
        }
        lemma_take_put(before, tags.mods@, key@, k, slot, a);
        assert(previous_is(before, key@, prev));
    }
    tags.updated_at = now.to_string();
}

/// The aliases after making sure `filename` is one of them.
pub open spec fn with_alias_added(aliases: Seq<Seq<char>>, filename: Seq<char>) -> Seq<Seq<char>> {
    if aliases.contains(filename) {
        aliases
    } else {
        aliases.push(filename)
    }
}

fn add_alias(aliases: &mut Vec<String>, filename: &str)
    ensures
        string_views(final(aliases)@) == with_alias_added(string_views(old(aliases)@), filename@),
{
    let f = chars_of(filename);
    let mut i: usize = 0;
    while i < aliases.len()
        invariant
            i <= aliases@.len(),
            aliases@ == old(aliases)@,
            f@ == filename@,
            forall|j: int| 0 <= j < i ==> string_views(aliases@)[j] != filename@,
        decreases aliases@.len() - i,
    {
        if eq_str(&f, aliases[i].as_str()) {
            assert(string_views(aliases@)[i as int] == filename@);
            return;
        }
        i = i + 1;
    }
    let ghost before = aliases@;
    aliases.push(filename.to_string());
    assert(string_views(aliases@) =~= string_views(before).push(filename@));
}

/// `after` is `prev` linked to a Modrinth project and version, with the jar's
/// file name among its aliases, stamped `now`.
pub open spec fn linked_to_modrinth(
    prev: ModTags,
    after: ModTags,
    filename: Seq<char>,
    project_id: String,
    version_id: String,
    now: Seq<char>,
) -> bool {
    &&& after.source@ == "modrinth"@
    &&& string_views(after.aliases@) == with_alias_added(string_views(prev.aliases@), filename)
    &&& after.updated_at@ == now
    &&& after == ModTags {
        source: after.source,
        aliases: after.aliases,
        updated_at: after.updated_at,
        modrinth_id: project_id,
        modrinth_version_id: version_id,
        ..prev
    }
}

/// Records that the jar of the mod under `key` is a known Modrinth version.
pub fn store_modrinth_identity(
    tags: &mut TagFile,
    key: &str,
    filename: &str,
    project_id: String,
    version_id: String,
    now: &str,
)
    requires
        keys_unique(old(tags).mods@),
    ensures
        final(tags).version == old(tags).version,
        final(tags).updated_at@ == now@,
        has_key(final(tags).mods@, key@),
        stored_under(old(tags).mods@, final(tags).mods@, key@, tag_for(final(tags).mods@, key@)),
        exists|prev: ModTags|
            #[trigger] previous_is(old(tags).mods@, key@, prev) && linked_to_modrinth(
                prev,
                tag_for(final(tags).mods@, key@),
                filename@,
                project_id,
                version_id,
                now@,
            ),
{
    let ghost before = tags.mods@;
    let (k, mut t, slot) = take_tag(tags, key);
    let ghost prev = t;
    t.source = "modrinth".to_string();
    t.modrinth_id = project_id;
    t.modrinth_version_id = version_id;
    add_alias(&mut t.aliases, filename);
    t.updated_at = now.to_string();
    let ghost a = t;
    put_tag(tags, slot, k, t);
    proof {
        if let Some(i) = slot {
            assert(tags.mods@ == before.remove(i as int).insert(i as int, (k, a)));
        }
        lemma_take_put(before, tags.mods@, key@, k, slot, a);
        assert(previous_is(before, key@, prev));
    }
    tags.updated_at = now.to_string();
}

/// `after` is `prev` linked to a CurseForge project, file and slug, with the
/// jar's file name among its aliases, stamped `now`.
pub open spec fn linked_to_curseforge(
    prev: ModTags,
    after: ModTags,
    filename: Seq<char>,
    project_id: String,
    file_id: String,
    slug: String,
    now: Seq<char>,
) -> bool {
    &&& after.source@ == "curseforge"@
    &&& string_views(after.aliases@) == with_alias_added(string_views(prev.aliases@), filename)
    &&& after.updated_at@ == now
    &&& after == ModTags {
        source: after.source,
        aliases: after.aliases,
        updated_at: after.updated_at,
        curseforge_id: project_id,
        curseforge_file_id: file_id,
        curseforge_slug: slug,
        ..prev
    }
}

/// Records that the jar of the mod under `key` is a known CurseForge file.
pub fn store_curseforge_identity(
    tags: &mut TagFile,
    key: &str,
    filename: &str,
    project_id: String,
    file_id: String,
    slug: String,
    now: &str,
)
    requires
        keys_unique(old(tags).mods@),
    ensures
        final(tags).version == old(tags).version,
        final(tags).updated_at@ == now@,
        has_key(final(tags).mods@, key@),
        stored_under(old(tags).mods@, final(tags).mods@, key@, tag_for(final(tags).mods@, key@)),
        exists|prev: ModTags|
            #[trigger] previous_is(old(tags).mods@, key@, prev) && linked_to_curseforge(
                prev,
                tag_for(final(tags).mods@, key@),
                filename@,
                project_id,
                file_id,
                slug,
                now@,
            ),
{
    let ghost before = tags.mods@;
    let (k, mut t, slot) = take_tag(tags, key);
    let ghost prev = t;
    t.source = "curseforge".to_string();
    t.curseforge_id = project_id;
    t.curseforge_file_id = file_id;
    t.curseforge_slug = slug;
    add_alias(&mut t.aliases, filename);
    t.updated_at = now.to_string();
    let ghost a = t;
    put_tag(tags, slot, k, t);
    proof {
        if let Some(i) = slot {
            assert(tags.mods@ == before.remove(i as int).insert(i as int, (k, a)));
        }
        lemma_take_put(before, tags.mods@, key@, k, slot, a);
        assert(previous_is(before, key@, prev));
    }
    tags.updated_at = now.to_string();
}

/// Forgets the provider labels of every mod (before fetching them anew);
/// nothing else changes.
pub fn clear_provider_labels(tags: &mut TagFile)
    ensures
        final(tags).version == old(tags).version,
        final(tags).updated_at == old(tags).updated_at,
        final(tags).mods@.len() == old(tags).mods@.len(),
        forall|j: int|
            0 <= j < old(tags).mods@.len() ==> {
                &&& (#[trigger] final(tags).mods@[j]).0 == old(tags).mods@[j].0
                &&& is_empty_store(final(tags).mods@[j].1.provider_labels)
                &&& final(tags).mods@[j].1 == ModTags {
                    provider_labels: final(tags).mods@[j].1.provider_labels,
                    ..old(tags).mods@[j].1
                }
            },
{
    let ghost before = tags.mods@;
    let mut rest: Vec<(String, ModTags)> = Vec::new();
    std::mem::swap(&mut rest, &mut tags.mods);
    let mut done: Vec<(String, ModTags)> = Vec::new();
    while rest.len() > 0
        invariant
            done@.len() + rest@.len() == before.len(),
            rest@ == before.subrange(done@.len() as int, before.len() as int),
            forall|j: int|
                0 <= j < done@.len() ==> {
                    &&& (#[trigger] done@[j]).0 == before[j].0
                    &&& is_empty_store(done@[j].1.provider_labels)
                    &&& done@[j].1 == ModTags { provider_labels: done@[j].1.provider_labels, ..before[j].1 }
                },
        decreases rest@.len(),
    {
        let (k, mut t) = rest.remove(0);
        t.provider_labels = ProviderLabelsStore::default();
        done.push((k, t));
    }
    tags.mods = done;
}

// ---------------------------------------------------------------------------
// Laws
// ---------------------------------------------------------------------------

proof fn lemma_manual_is_trimmed()
    ensures
        trim("manual"@) == "manual"@,
{
    reveal_strlit("manual");
    let m = "manual"@;
    assert(!is_ws(m[0]));
    assert(trim_start(m) == m);
    assert(!is_ws(m.last()));
    assert(trim_end(m) == m);
}

/// Setting a label by hand switches the mod to labels set by hand, and the
/// labels in effect are then the ones set: the side (normalised), the library
/// flag or the optimisation flag.
pub proof fn lemma_hand_set_labels_take_effect(prev: ModTags, after: ModTags, p: UpdateModTagsRequest, now: String)
    requires
        tags_patched(prev, after, p, now),
        p.side is Some || p.library is Some || p.technical is Some,
    ensures
        manual_mode(after),
        p.side matches Some(s) ==> resolved_side(after) == normalized_side(s@),
        p.library matches Some(b) ==> resolved_library(after) == b,
        p.technical matches Some(b) ==> resolved_technical(after) == b,
{
    lemma_manual_is_trimmed();
    if let Some(s) = p.side {
        reveal_strlit("client");
        reveal_strlit("server");
        reveal_strlit("universal");
        assert("universal"@.len() != "client"@.len());
        assert("universal"@.len() != "server"@.len());
        assert("client"@[0] != "server"@[0]);
        assert(after.side@.len() > 0);
    }
}

/// A change that sets none of the labels keeps those in effect, except for a
/// switch of the mode.
pub proof fn lemma_description_change_keeps_labels(prev: ModTags, after: ModTags, p: UpdateModTagsRequest, now: String)
    requires
        tags_patched(prev, after, p, now),
        p.side is None,
        p.library is None,
        p.technical is None,
        p.side_mode is None,
    ensures
        resolved_side(after) == resolved_side(prev),
        resolved_library(after) == resolved_library(prev),
        resolved_technical(after) == resolved_technical(prev),
{
}

} // verus!
