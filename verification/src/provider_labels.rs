//! Side, library and optimisation labels: those the user set by hand, those a
//! provider reports, and which of them applies.
use vstd::prelude::*;
use crate::text::{chars_of, contains, contains_str, eq_chars, eq_ignore_case, eq_ignore_case_chars, eq_str, lower, opt_view, replace_char, replace_char_chars, string_of, string_views, to_lower, trim, trim_string, trimmed};
use crate::tags::{ModTags, ProviderLabelsStore};
use crate::mods::{normalize_side, normalized_side, unknown_side, unknown_side_string};

verus! {

pub struct RefreshProviderLabelsResult {
    pub key: String,
    pub side: String,
    pub library: bool,
    pub technical: bool,
    pub side_mode: String,
    pub manual_side: String,
    pub manual_library: bool,
    pub manual_technical: bool,
    pub provider_side: String,
    pub provider_library: bool,
    pub provider_technical: bool,
}

/// Whether the user chose the labels by hand.
pub open spec fn manual_mode(tag: ModTags) -> bool {
    trim(tag.label_overrides.side_mode@) == "manual"@
}

fn is_manual(tag: &ModTags) -> (r: bool)
    ensures
        r == manual_mode(*tag),
{
    let t = trimmed(tag.label_overrides.side_mode.as_str());
    eq_str(&t, "manual")
}

pub fn side_mode_for(tag: &ModTags) -> (r: String)
    ensures
        r@ == if manual_mode(*tag) {
            "manual"@
        } else {
            "auto"@
        },
{
    if is_manual(tag) {
        "manual".to_string()
    } else {
        "auto".to_string()
    }
}

/// The side stored in the tags, normalised; unknown when none is stored.
pub open spec fn stored(tag: ModTags) -> Seq<char> {
    if tag.side@.len() == 0 {
        unknown_side()
    } else {
        normalized_side(tag.side@)
    }
}

pub fn stored_side(tag: &ModTags) -> (r: String)
    ensures
        r@ == stored(*tag),
{
    if tag.side.as_str().is_empty() {
        return unknown_side_string();
    }
    normalize_side(tag.side.as_str())
}

// ---------------------------------------------------------------------------
// Provider labels
// ---------------------------------------------------------------------------

/// `value` trimmed and appended unless blank or already present.
pub open spec fn push_unique_value(target: Seq<Seq<char>>, value: Seq<char>) -> Seq<Seq<char>> {
    let t = trim(value);
    if t.len() == 0 || target.contains(t) {
        target
    } else {
        target.push(t)
    }
}

pub open spec fn merged(target: Seq<Seq<char>>, items: Seq<Seq<char>>) -> Seq<Seq<char>>
    decreases items.len(),
{
    if items.len() == 0 {
        target
    } else {
        push_unique_value(merged(target, items.drop_last()), items.last())
    }
}

pub fn push_unique(target: &mut Vec<String>, value: String)
    ensures
        string_views(final(target)@) == push_unique_value(string_views(old(target)@), value@),
{
    let t = trim_string(value.as_str());
    if t.as_str().is_empty() {
        return;
    }
    let mut i: usize = 0;
    while i < target.len()
        invariant
            i <= target@.len(),
            target@ == old(target)@,
            t@ == trim(value@),
            forall|k: int| 0 <= k < i ==> string_views(target@)[k] != t@,
        decreases target@.len() - i,
    {
        if target[i] == t {
            assert(string_views(target@)[i as int] == t@);
            return;
        }
        i = i + 1;
    }
    let ghost before = target@;
    let ghost tv = t@;
    target.push(t);
    assert(string_views(target@) =~= string_views(before).push(tv));
}

pub fn merge_unique(target: &mut Vec<String>, items: Vec<String>)
    ensures
        string_views(final(target)@) == merged(string_views(old(target)@), string_views(items@)),
{
    let mut i: usize = 0;
    let ghost iv = string_views(items@);
    while i < items.len()
        invariant
            i <= items@.len(),
            iv == string_views(items@),
            string_views(target@) == merged(string_views(old(target)@), iv.take(i as int)),
        decreases items@.len() - i,
    {
        assert(iv.take(i + 1).drop_last() =~= iv.take(i as int));
        assert(iv.take(i + 1).last() == items@[i as int]@);
        push_unique(target, items[i].clone());
        i = i + 1;
    }
    assert(iv.take(iv.len() as int) =~= iv);
}

/// The provider's categories followed by its additional categories (trimmed,
/// without repeats).
pub open spec fn slugs(store: ProviderLabelsStore) -> Seq<Seq<char>> {
    merged(string_views(store.categories@), string_views(store.additional_categories@))
}

fn clone_strings(v: &Vec<String>) -> (r: Vec<String>)
    ensures
        string_views(r@) == string_views(v@),
{
    let mut r: Vec<String> = Vec::new();
    let mut i: usize = 0;
    while i < v.len()
        invariant
            i <= v@.len(),
            string_views(r@) == string_views(v@).take(i as int),
        decreases v@.len() - i,
    {
        let ghost before = r@;
        r.push(v[i].clone());
        assert(string_views(r@) =~= string_views(before).push(v@[i as int]@));
        assert(string_views(v@).take(i + 1) =~= string_views(v@).take(i as int).push(v@[i as int]@));
        i = i + 1;
    }
    assert(string_views(v@).take(v@.len() as int) =~= string_views(v@));
    r
}

pub fn category_slugs(store: &ProviderLabelsStore) -> (r: Vec<String>)
    ensures
        string_views(r@) == slugs(*store),
{
    let mut out = clone_strings(&store.categories);
    let extra = clone_strings(&store.additional_categories);
    merge_unique(&mut out, extra);
    out
}

/// A provider marks a library by a category mentioning `library`.
pub open spec fn provider_library(store: ProviderLabelsStore) -> bool {
    exists|i: int|
        0 <= i < slugs(store).len() && (#[trigger] slugs(store)[i] == "library"@ || contains(
            slugs(store)[i],
            "library"@,
        ))
}

/// A provider marks an optimisation mod by the `optimization` or
/// `performance` category.
pub open spec fn provider_technical(store: ProviderLabelsStore) -> bool {
    exists|i: int|
        0 <= i < slugs(store).len() && (#[trigger] slugs(store)[i] == "optimization"@ || slugs(
            store,
        )[i] == "performance"@)
}

pub fn map_provider_library(store: &ProviderLabelsStore) -> (r: bool)
    ensures
        r == provider_library(*store),
{
    let list = category_slugs(store);
    let ghost sv = string_views(list@);
    let mut i: usize = 0;
    while i < list.len()
        invariant
            i <= list@.len(),
            sv == string_views(list@),
            sv == slugs(*store),
            forall|k: int| 0 <= k < i ==> !(sv[k] == "library"@ || contains(sv[k], "library"@)),
        decreases list@.len() - i,
    {
        let v = chars_of(list[i].as_str());
        if eq_str(&v, "library") || contains_str(&v, "library") {
            assert(sv[i as int] == "library"@ || contains(sv[i as int], "library"@));
            return true;
        }
        i = i + 1;
    }
    false
}

pub fn map_provider_technical(store: &ProviderLabelsStore) -> (r: bool)
    ensures
        r == provider_technical(*store),
{
    let list = category_slugs(store);
    let ghost sv = string_views(list@);
    let mut i: usize = 0;
    while i < list.len()
        invariant
            i <= list@.len(),
            sv == string_views(list@),
            sv == slugs(*store),
            forall|k: int| 0 <= k < i ==> !(sv[k] == "optimization"@ || sv[k] == "performance"@),
        decreases list@.len() - i,
    {
        let v = chars_of(list[i].as_str());
        if eq_str(&v, "optimization") || eq_str(&v, "performance") {
            assert(sv[i as int] == "optimization"@ || sv[i as int] == "performance"@);
            return true;
        }
        i = i + 1;
    }
    false
}

/// The side a provider's client/server support describes: client-only,
/// server-only, or both.
pub open spec fn side_from_support(client: Seq<char>, server: Seq<char>) -> Seq<char> {
    if client == "required"@ && (server == "unsupported"@ || server.len() == 0) {
        "client"@
    } else if server == "required"@ && (client == "unsupported"@ || client.len() == 0) {
        "server"@
    } else {
        "universal"@
    }
}

/// The provider's side, once labels were fetched.
pub open spec fn provider_side(store: ProviderLabelsStore) -> Option<Seq<char>> {
    if store.fetched_at@.len() == 0 {
        None
    } else {
        Some(normalized_side(side_from_support(store.client_side@, store.server_side@)))
    }
}

/// A provider's side, once labels were fetched: client-only exactly when
/// client support is required and server support is unsupported or blank;
/// server-only exactly when server support is required and client support
/// is unsupported or blank; universal otherwise (so a mod whose server
/// support is optional or required is never client-only). Before labels were
/// fetched there is none.
pub proof fn lemma_provider_side_from_support(store: ProviderLabelsStore)
    ensures
        store.fetched_at@.len() == 0 ==> provider_side(store) is None,
        store.fetched_at@.len() > 0 ==> {
            let c = store.client_side@;
            let s = store.server_side@;
            &&& provider_side(store) == Some("client"@) <==> (c == "required"@ && (s == "unsupported"@ || s.len() == 0))
            &&& provider_side(store) == Some("server"@) <==> (s == "required"@ && (c == "unsupported"@ || c.len() == 0))
            &&& provider_side(store) == Some("universal"@) <==> !(c == "required"@ && (s == "unsupported"@ || s.len()
                == 0)) && !(s == "required"@ && (c == "unsupported"@ || c.len() == 0))
        },
{
    reveal_strlit("client");
    reveal_strlit("server");
    reveal_strlit("universal");
    reveal_strlit("required");
    reveal_strlit("unsupported");
    assert("client"@ != "server"@ && "client"@ != "universal"@ && "server"@ != "universal"@) by {
        assert("client"@[0] != "server"@[0]);
        assert("client"@[0] != "universal"@[0]);
        assert("server"@[0] != "universal"@[0]);
    }
    assert("required"@ != "unsupported"@) by {
        assert("required"@[0] != "unsupported"@[0]);
    }
}

pub fn map_provider_side(store: &ProviderLabelsStore) -> (r: Option<String>)
    ensures
        opt_view(r) == provider_side(*store),
{
    if store.fetched_at.as_str().is_empty() {
        return None;
    }
    let c = chars_of(store.client_side.as_str());
    let s = chars_of(store.server_side.as_str());
    let side = if eq_str(&c, "required") && (eq_str(&s, "unsupported") || s.len() == 0) {
        "client"
    } else if eq_str(&s, "required") && (eq_str(&c, "unsupported") || c.len() == 0) {
        "server"
    } else {
        "universal"
    };
    Some(normalize_side(side))
}

// ---------------------------------------------------------------------------
// Which labels apply
// ---------------------------------------------------------------------------

pub open spec fn fetched(tag: ModTags) -> bool {
    tag.provider_labels.fetched_at@.len() > 0
}

/// The side in effect: the hand-set one in manual mode, else the provider's,
/// unknown until labels were fetched.
pub open spec fn resolved_side(tag: ModTags) -> Seq<char> {
    if manual_mode(tag) {
        stored(tag)
    } else if !fetched(tag) {
        unknown_side()
    } else {
        match provider_side(tag.provider_labels) {
            Some(s) => s,
            None => unknown_side(),
        }
    }
}

pub open spec fn resolved_library(tag: ModTags) -> bool {
    if manual_mode(tag) {
        tag.library
    } else if !fetched(tag) {
        false
    } else {
        provider_library(tag.provider_labels)
    }
}

pub open spec fn resolved_technical(tag: ModTags) -> bool {
    if manual_mode(tag) {
        tag.technical
    } else if !fetched(tag) {
        false
    } else {
        provider_technical(tag.provider_labels)
    }
}

pub fn resolve_side(tag: &ModTags) -> (r: String)
    ensures
        r@ == resolved_side(*tag),
{
    if is_manual(tag) {
        return stored_side(tag);
    }
    if tag.provider_labels.fetched_at.as_str().is_empty() {
        return unknown_side_string();
    }
    match map_provider_side(&tag.provider_labels) {
        Some(s) => s,
        None => unknown_side_string(),
    }
}

pub fn resolve_library(tag: &ModTags) -> (r: bool)
    ensures
        r == resolved_library(*tag),
{
    if is_manual(tag) {
        return tag.library;
    }
    if tag.provider_labels.fetched_at.as_str().is_empty() {
        return false;
    }
    map_provider_library(&tag.provider_labels)
}

pub fn resolve_technical(tag: &ModTags) -> (r: bool)
    ensures
        r == resolved_technical(*tag),
{
    if is_manual(tag) {
        return tag.technical;
    }
    if tag.provider_labels.fetched_at.as_str().is_empty() {
        return false;
    }
    map_provider_technical(&tag.provider_labels)
}

pub fn manual_tags_for(tag: &ModTags) -> (r: (String, bool, bool))
    ensures
        r.0@ == stored(*tag),
        r.1 == tag.library,
        r.2 == tag.technical,
{
    (stored_side(tag), tag.library, tag.technical)
}

/// The provider's labels: side (unknown when not fetched), library, optimisation.
pub open spec fn provider_labels_of(tag: ModTags) -> (Seq<char>, bool, bool) {
    if !fetched(tag) {
        (unknown_side(), false, false)
    } else {
        (
            match provider_side(tag.provider_labels) {
                Some(s) => s,
                None => unknown_side(),
            },
            provider_library(tag.provider_labels),
            provider_technical(tag.provider_labels),
        )
    }
}

pub fn provider_tags_for(tag: &ModTags) -> (r: (String, bool, bool))
    ensures
        (r.0@, r.1, r.2) == provider_labels_of(*tag),
{
    if tag.provider_labels.fetched_at.as_str().is_empty() {
        return (unknown_side_string(), false, false);
    }
    let side = match map_provider_side(&tag.provider_labels) {
        Some(s) => s,
        None => unknown_side_string(),
    };
    (side, map_provider_library(&tag.provider_labels), map_provider_technical(&tag.provider_labels))
}

/// The stored labels are still the scan's defaults: not manual, not a library
/// or optimisation mod, and no side or the default one.
pub open spec fn side_unset(tag: ModTags) -> bool {
    !manual_mode(tag) && !tag.library && !tag.technical && (tag.side@.len() == 0 || tag.side@
        == "universal"@ || tag.side@ == unknown_side())
}

pub fn manual_side_is_unset(tag: &ModTags) -> (r: bool)
    ensures
        r == side_unset(*tag),
{
    if is_manual(tag) {
        return false;
    }
    if tag.library || tag.technical {
        return false;
    }
    let s = chars_of(tag.side.as_str());
    let u = unknown_side_string();
    let uv = chars_of(u.as_str());
    s.len() == 0 || eq_str(&s, "universal") || eq_chars(&s, &uv)
}

/// Copies the provider's labels into the stored ones while those are still the
/// scan's defaults; labels set by hand are never replaced.
pub fn sync_stored_side_from_provider(tag: &mut ModTags)
    ensures
        !side_unset(*old(tag)) ==> *final(tag) == *old(tag),
        side_unset(*old(tag)) ==> {
            &&& (final(tag).side@, final(tag).library, final(tag).technical) == provider_labels_of(
                *old(tag),
            )
            &&& *final(tag) == ModTags {
                side: final(tag).side,
                library: final(tag).library,
                technical: final(tag).technical,
                ..*old(tag)
            }
        },
{
    if is_manual(tag) || !manual_side_is_unset(tag) {
        return;
    }
    let (side, library, technical) = provider_tags_for(tag);
    tag.side = side;
    tag.library = library;
    tag.technical = technical;
}

pub fn refresh_result_for(tag: &ModTags, key: &str) -> (r: RefreshProviderLabelsResult)
    ensures
        r.key@ == key@,
        r.side@ == resolved_side(*tag),
        r.library == resolved_library(*tag),
        r.technical == resolved_technical(*tag),
        r.side_mode@ == if manual_mode(*tag) {
            "manual"@
        } else {
            "auto"@
        },
        r.manual_side@ == stored(*tag),
        r.manual_library == tag.library,
        r.manual_technical == tag.technical,
        (r.provider_side@, r.provider_library, r.provider_technical) == provider_labels_of(*tag),
{
    let (manual_side, manual_library, manual_technical) = manual_tags_for(tag);
    let (provider_side, provider_library, provider_technical) = provider_tags_for(tag);
    RefreshProviderLabelsResult {
        key: key.to_string(),
        side: resolve_side(tag),
        library: resolve_library(tag),
        technical: resolve_technical(tag),
        side_mode: side_mode_for(tag),
        manual_side,
        manual_library,
        manual_technical,
        provider_side,
        provider_library,
        provider_technical,
    }
}

// ---------------------------------------------------------------------------
// CurseForge side detection
// ---------------------------------------------------------------------------

/// Whether a CurseForge file is tagged for the client and/or the server.
pub struct CurseforgeSideTags {
    pub client: bool,
    pub server: bool,
}

pub open spec fn tags_from_versions(versions: Seq<Seq<char>>) -> (bool, bool)
    decreases versions.len(),
{
    if versions.len() == 0 {
        (false, false)
    } else {
        let (c, s) = tags_from_versions(versions.drop_last());
        let v = versions.last();
        if eq_ignore_case(v, "client"@) {
            (true, s)
        } else if eq_ignore_case(v, "server"@) {
            (c, true)
        } else {
            (c, s)
        }
    }
}

pub fn curseforge_side_tags_from_game_versions(game_versions: &[String]) -> (r: CurseforgeSideTags)
    ensures
        (r.client, r.server) == tags_from_versions(string_views(game_versions@)),
{
    let mut tags = CurseforgeSideTags { client: false, server: false };
    let ghost gv = string_views(game_versions@);
    let client = chars_of("client");
    let server = chars_of("server");
    let mut i: usize = 0;
    while i < game_versions.len()
        invariant
            i <= game_versions@.len(),
            gv == string_views(game_versions@),
            client@ == "client"@,
            server@ == "server"@,
            (tags.client, tags.server) == tags_from_versions(gv.take(i as int)),
        decreases game_versions@.len() - i,
    {
        assert(gv.take(i + 1).drop_last() =~= gv.take(i as int));
        assert(gv.take(i + 1).last() == game_versions@[i as int]@);
        let v = chars_of(game_versions[i].as_str());
        if eq_ignore_case_chars(&v, &client) {
            tags.client = true;
        } else if eq_ignore_case_chars(&v, &server) {
            tags.server = true;
        }
        i = i + 1;
    }
    assert(gv.take(gv.len() as int) =~= gv);
    tags
}

pub fn merge_curseforge_side_tags(into: &mut CurseforgeSideTags, other: CurseforgeSideTags)
    ensures
        final(into).client == (old(into).client || other.client),
        final(into).server == (old(into).server || other.server),
{
    into.client = into.client || other.client;
    into.server = into.server || other.server;
}

/// Client/server support for the tags: client-only and server-only make the
/// other side unsupported, both make both required, none says nothing.
pub open spec fn sides_from_tags(client: bool, server: bool) -> (Seq<char>, Seq<char>) {
    if client && !server {
        ("required"@, "unsupported"@)
    } else if !client && server {
        ("unsupported"@, "required"@)
    } else if client && server {
        ("required"@, "required"@)
    } else {
        (Seq::<char>::empty(), Seq::<char>::empty())
    }
}

pub fn curseforge_sides_from_tags(tags: CurseforgeSideTags) -> (r: (String, String))
    ensures
        (r.0@, r.1@) == sides_from_tags(tags.client, tags.server),
{
    if tags.client && !tags.server {
        ("required".to_string(), "unsupported".to_string())
    } else if !tags.client && tags.server {
        ("unsupported".to_string(), "required".to_string())
    } else if tags.client && tags.server {
        ("required".to_string(), "required".to_string())
    } else {
        (String::new(), String::new())
    }
}

/// The provider left the side open: nothing given, or optional on both sides.
pub open spec fn side_ambiguous(store: ProviderLabelsStore) -> bool {
    (store.client_side@.len() == 0 && store.server_side@.len() == 0) || (store.client_side@
        == "optional"@ && store.server_side@ == "optional"@)
}

pub fn curseforge_side_is_ambiguous(store: &ProviderLabelsStore) -> (r: bool)
    ensures
        r == side_ambiguous(*store),
{
    let c = chars_of(store.client_side.as_str());
    let s = chars_of(store.server_side.as_str());
    (c.len() == 0 && s.len() == 0) || (eq_str(&c, "optional") && eq_str(&s, "optional"))
}

pub fn provider_side_is_definitive(store: &ProviderLabelsStore) -> (r: bool)
    ensures
        r == (store.client_side@.len() > 0 || store.server_side@.len() > 0),
{
    !store.client_side.as_str().is_empty() || !store.server_side.as_str().is_empty()
}

/// A CurseForge project that says nothing about sides works on both, optionally.
pub fn apply_curseforge_optional_side_default(store: &mut ProviderLabelsStore)
    ensures
        (old(store).client_side@.len() == 0 && old(store).server_side@.len() == 0) ==> (
        final(store).client_side@ == "optional"@ && final(store).server_side@ == "optional"@),
        !(old(store).client_side@.len() == 0 && old(store).server_side@.len() == 0) ==> *final(store) == *old(store),
        final(store).fetched_at == old(store).fetched_at,
        final(store).categories == old(store).categories,
        final(store).additional_categories == old(store).additional_categories,
        final(store).source == old(store).source,
        final(store).loaders == old(store).loaders,
        final(store).game_versions == old(store).game_versions,
{
    if store.client_side.as_str().is_empty() && store.server_side.as_str().is_empty() {
        store.client_side = "optional".to_string();
        store.server_side = "optional".to_string();
    }
}

/// A category name as a slug: trimmed, lower-case, spaces as dashes.
pub open spec fn slug_of_category(value: Seq<char>) -> Seq<char> {
    replace_char(lower(trim(value)), ' ', "-"@)
}

pub fn category_slug(value: &str) -> (r: String)
    ensures
        r@ == slug_of_category(value@),
{
    let t = trimmed(value);
    let l = to_lower(&t);
    let dash = chars_of("-");
    let out = replace_char_chars(&l, ' ', &dash);
    string_of(&out)
}

/// CurseForge's numeric mod loader ids.
pub open spec fn loader_name_of(value: i64) -> Option<Seq<char>> {
    if value == 1 {
        Some("forge"@)
    } else if value == 2 {
        Some("cauldron"@)
    } else if value == 3 {
        Some("liteloader"@)
    } else if value == 4 {
        Some("fabric"@)
    } else if value == 5 {
        Some("quilt"@)
    } else if value == 6 {
        Some("neoforge"@)
    } else {
        None
    }
}

pub fn curseforge_loader_name(value: i64) -> (r: Option<String>)
    ensures
        opt_view(r) == loader_name_of(value),
{
    let name = match value {
        1 => "forge",
        2 => "cauldron",
        3 => "liteloader",
        4 => "fabric",
        5 => "quilt",
        6 => "neoforge",
        _ => return None,
    };
    Some(name.to_string())
}

// ---------------------------------------------------------------------------
// Laws
// ---------------------------------------------------------------------------

/// Labels set by hand are never replaced by a provider's.
pub proof fn lemma_sync_keeps_manual(tag: ModTags)
    requires
        manual_mode(tag),
    ensures
        !side_unset(tag),
{
}

/// The labels in effect do not change when stored labels are synced from the
/// provider: in automatic mode they come from the provider either way.
pub proof fn lemma_sync_keeps_resolved(before: ModTags, after: ModTags)
    requires
        side_unset(before),
        (after.side@, after.library, after.technical) == provider_labels_of(before),
        after.provider_labels == before.provider_labels,
        after.label_overrides == before.label_overrides,
    ensures
        resolved_side(after) == resolved_side(before),
        resolved_library(after) == resolved_library(before),
        resolved_technical(after) == resolved_technical(before),
{
}

} // verus!
