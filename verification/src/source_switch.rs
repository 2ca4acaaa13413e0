//! Linking a mod to a project picked on Modrinth or CurseForge, and
//! completing the link once the provider has identified the jar.
use vstd::prelude::*;
use crate::text::{chars_of, eq_str, lower, opt_view, string_of, to_lower, trim, trim_end_str, trim_end_str_chars, trim_string, trimmed};
use crate::tags::{ModTags, TagFile};
use crate::mods::{find_tag, has_key, keys_unique, lemma_tag_for, source_url, source_url_of, tag_for};
use crate::tag_updates::{previous_is, same_file, stored_under};

verus! {

/// The two providers a mod can be linked to.
pub enum ProviderKind {
    Modrinth,
    Curseforge,
}

pub open spec fn kind_name(k: ProviderKind) -> Seq<char> {
    match k {
        ProviderKind::Modrinth => "modrinth"@,
        ProviderKind::Curseforge => "curseforge"@,
    }
}

pub fn kind_string(k: &ProviderKind) -> (r: String)
    ensures
        r@ == kind_name(*k),
{
    match k {
        ProviderKind::Modrinth => "modrinth".to_string(),
        ProviderKind::Curseforge => "curseforge".to_string(),
    }
}

/// The provider a request names: its name trimmed and lower-cased.
pub open spec fn kind_of(source: Seq<char>) -> Option<ProviderKind> {
    let s = lower(trim(source));
    if s == "modrinth"@ {
        Some(ProviderKind::Modrinth)
    } else if s == "curseforge"@ {
        Some(ProviderKind::Curseforge)
    } else {
        None
    }
}

pub fn parse_provider(source: &str) -> (r: Option<ProviderKind>)
    ensures
        r == kind_of(source@),
{
    let s = to_lower(&trimmed(source));
    if eq_str(&s, "modrinth") {
        Some(ProviderKind::Modrinth)
    } else if eq_str(&s, "curseforge") {
        Some(ProviderKind::Curseforge)
    } else {
        None
    }
}

/// A text trimmed, unless that leaves nothing.
pub open spec fn clean(s: Seq<char>) -> Option<Seq<char>> {
    if trim(s).len() > 0 {
        Some(trim(s))
    } else {
        None
    }
}

pub open spec fn clean_opt(o: Option<String>) -> Option<Seq<char>> {
    match o {
        Some(s) => clean(s@),
        None => None,
    }
}

pub fn clean_string(value: &str) -> (r: Option<String>)
    ensures
        opt_view(r) == clean(value@),
{
    let t = trim_string(value);
    if t.as_str().is_empty() {
        None
    } else {
        Some(t)
    }
}

pub fn clean_option(value: &Option<String>) -> (r: Option<String>)
    ensures
        opt_view(r) == clean_opt(*value),
{
    match value {
        Some(v) => clean_string(v.as_str()),
        None => None,
    }
}

// ---------------------------------------------------------------------------
// Searching a provider
// ---------------------------------------------------------------------------

/// The provider and the trimmed name a search is for, or why it cannot run.
pub open spec fn search_request(source: Seq<char>, display_name: Seq<char>, has_curseforge_key: bool) -> Result<(ProviderKind, Seq<char>), Seq<char>> {
    match kind_of(source) {
        None => Err("Можно искать только на Modrinth или CurseForge."@),
        Some(k) => if trim(display_name).len() == 0 {
            Err("Не задано имя мода для поиска."@)
        } else if k == ProviderKind::Curseforge && !has_curseforge_key {
            Err("Для поиска на CurseForge нужен API key."@)
        } else {
            Ok((k, trim(display_name)))
        },
    }
}

pub fn validate_search(source: &str, display_name: &str, has_curseforge_key: bool) -> (r: Result<(ProviderKind, String), String>)
    ensures
        match (r, search_request(source@, display_name@, has_curseforge_key)) {
            (Ok((k, n)), Ok((k2, n2))) => k == k2 && n@ == n2,
            (Err(e), Err(e2)) => e@ == e2,
            _ => false,
        },
{
    let kind = match parse_provider(source) {
        Some(k) => k,
        None => return Err("Можно искать только на Modrinth или CurseForge.".to_string()),
    };
    let name = trim_string(display_name);
    if name.as_str().is_empty() {
        return Err("Не задано имя мода для поиска.".to_string());
    }
    match kind {
        ProviderKind::Curseforge => if !has_curseforge_key {
            return Err("Для поиска на CurseForge нужен API key.".to_string());
        },
        ProviderKind::Modrinth => {},
    }
    Ok((kind, name))
}

/// The message when a search found nothing.
pub fn no_results_message(k: &ProviderKind) -> (r: String)
    ensures
        r@ == "Ничего не найдено на "@ + kind_name(*k) + "."@,
{
    let mut out = "Ничего не найдено на ".to_string();
    out.append(kind_string(k).as_str());
    out.append(".");
    out
}

// ---------------------------------------------------------------------------
// Switching the source
// ---------------------------------------------------------------------------

/// The project a switch links to: the one picked, else the one the mod is
/// already linked to on that provider.
pub open spec fn chosen_project(tag: ModTags, target: ProviderKind, chosen_id: Option<String>) -> Option<Seq<char>> {
    if clean_opt(chosen_id) is Some {
        clean_opt(chosen_id)
    } else {
        match target {
            ProviderKind::Modrinth => clean(tag.modrinth_id@),
            ProviderKind::Curseforge => clean(tag.curseforge_id@),
        }
    }
}

/// Why a switch cannot be made, if it cannot.
pub open spec fn switch_error(tag: ModTags, target: ProviderKind, chosen_id: Option<String>, has_curseforge_key: bool) -> Option<Seq<char>> {
    if chosen_project(tag, target, chosen_id) is None {
        Some("Выбери проект из результатов поиска."@)
    } else if target == ProviderKind::Curseforge && !has_curseforge_key {
        Some("Для CurseForge нужен API key."@)
    } else {
        None
    }
}

/// `after` is `tag` linked to project `id` on `target` at `now`: a new
/// project forgets the old version (or file, and slug unless a new one is
/// given); a given title is kept.
pub open spec fn switched(
    tag: ModTags,
    after: ModTags,
    target: ProviderKind,
    id: Seq<char>,
    chosen_slug: Option<String>,
    chosen_title: Option<String>,
    now: Seq<char>,
) -> bool {
    &&& after.source@ == kind_name(target)
    &&& after.updated_at@ == now
    &&& after.provider_title@ == match clean_opt(chosen_title) {
        Some(t) => t,
        None => tag.provider_title@,
    }
    &&& match target {
        ProviderKind::Modrinth => {
            &&& after.modrinth_id@ == id
            &&& after.modrinth_version_id@ == if tag.modrinth_id@ != id {
                Seq::<char>::empty()
            } else {
                tag.modrinth_version_id@
            }
            &&& after.curseforge_id == tag.curseforge_id
            &&& after.curseforge_file_id == tag.curseforge_file_id
            &&& after.curseforge_slug == tag.curseforge_slug
        },
        ProviderKind::Curseforge => {
            &&& after.curseforge_id@ == id
            &&& after.curseforge_file_id@ == if tag.curseforge_id@ != id {
                Seq::<char>::empty()
            } else {
                tag.curseforge_file_id@
            }
            &&& after.curseforge_slug@ == match clean_opt(chosen_slug) {
                Some(s) => s,
                None => if tag.curseforge_id@ != id {
                    Seq::<char>::empty()
                } else {
                    tag.curseforge_slug@
                },
            }
            &&& after.modrinth_id == tag.modrinth_id
            &&& after.modrinth_version_id == tag.modrinth_version_id
        },
    }
    &&& after == ModTags {
        source: after.source,
        updated_at: after.updated_at,
        provider_title: after.provider_title,
        modrinth_id: after.modrinth_id,
        modrinth_version_id: after.modrinth_version_id,
        curseforge_id: after.curseforge_id,
        curseforge_file_id: after.curseforge_file_id,
        curseforge_slug: after.curseforge_slug,
        ..tag
    }
}

/// Links one tag to a picked project.
pub fn switch_tag(
    tag: ModTags,
    target: &ProviderKind,
    chosen_id: &Option<String>,
    chosen_slug: &Option<String>,
    chosen_title: &Option<String>,
    has_curseforge_key: bool,
    now: &str,
) -> (r: Result<ModTags, (String, ModTags)>)
    ensures
        match r {
            Ok(t) => switch_error(tag, *target, *chosen_id, has_curseforge_key) is None && switched(
                tag,
                t,
                *target,
                chosen_project(tag, *target, *chosen_id).unwrap(),
                *chosen_slug,
                *chosen_title,
                now@,
            ),
            Err((e, t)) => switch_error(tag, *target, *chosen_id, has_curseforge_key) == Some(e@) && t == tag,
        },
{
    let picked = clean_option(chosen_id);
    let id = match picked {
        Some(i) => i,
        None => {
            let current = match target {
                ProviderKind::Modrinth => clean_string(tag.modrinth_id.as_str()),
                ProviderKind::Curseforge => clean_string(tag.curseforge_id.as_str()),
            };
            match current {
                Some(i) => i,
                None => return Err(("Выбери проект из результатов поиска.".to_string(), tag)),
            }
        },
    };
    let mut t = tag;
    match target {
        ProviderKind::Modrinth => {
            if t.modrinth_id != id {
                t.modrinth_version_id = String::new();
            }
            t.modrinth_id = id;
        },
        ProviderKind::Curseforge => {
            if !has_curseforge_key {
                return Err(("Для CurseForge нужен API key.".to_string(), t));
            }
            let slug = clean_option(chosen_slug);
            if t.curseforge_id != id {
                t.curseforge_file_id = String::new();
                if slug.is_none() {
                    t.curseforge_slug = String::new();
                }
            }
            t.curseforge_id = id;
            if let Some(s) = slug {
                t.curseforge_slug = s;
            }
        },
    }
    if let Some(title) = clean_option(chosen_title) {
        t.provider_title = title;
    }
    t.source = kind_string(target);
    t.updated_at = now.to_string();
    Ok(t)
}

/// How the interface shows a mod's link to its provider.
pub struct SwitchModSourceResult {
    pub key: String,
    pub source: String,
    pub display_name: Option<String>,
    pub source_url: Option<String>,
    pub modrinth_id: Option<String>,
    pub modrinth_version_id: Option<String>,
    pub curseforge_id: Option<String>,
    pub curseforge_file_id: Option<String>,
    pub cover_url: Option<String>,
}

/// The link of a tag as the interface shows it: ids and names trimmed, blank
/// ones left out; the name the user gave, else the provider's title.
pub open spec fn link_shown(r: SwitchModSourceResult, tag: ModTags, key: Seq<char>, source: Seq<char>) -> bool {
    &&& r.key@ == key
    &&& r.source@ == source
    &&& opt_view(r.display_name) == if clean(tag.display_name@) is Some {
        clean(tag.display_name@)
    } else {
        clean(tag.provider_title@)
    }
    &&& opt_view(r.source_url) == source_url_of(source, clean(tag.modrinth_id@), clean(tag.curseforge_slug@))
    &&& opt_view(r.modrinth_id) == clean(tag.modrinth_id@)
    &&& opt_view(r.modrinth_version_id) == clean(tag.modrinth_version_id@)
    &&& opt_view(r.curseforge_id) == clean(tag.curseforge_id@)
    &&& opt_view(r.curseforge_file_id) == clean(tag.curseforge_file_id@)
}

fn opt_as_str(o: &Option<String>) -> (r: Option<&str>)
    ensures
        match r {
            Some(s) => opt_view(*o) == Some(s@),
            None => o is None,
        },
{
    match o {
        Some(s) => Some(s.as_str()),
        None => None,
    }
}

pub fn link_result(tag: &ModTags, key: &str, source: &str, cover_url: Option<String>) -> (r: SwitchModSourceResult)
    ensures
        link_shown(r, *tag, key@, source@),
        r.cover_url == cover_url,
{
    let display_name = match clean_string(tag.display_name.as_str()) {
        Some(n) => Some(n),
        None => clean_string(tag.provider_title.as_str()),
    };
    let modrinth_id = clean_string(tag.modrinth_id.as_str());
    let modrinth_version_id = clean_string(tag.modrinth_version_id.as_str());
    let curseforge_id = clean_string(tag.curseforge_id.as_str());
    let curseforge_file_id = clean_string(tag.curseforge_file_id.as_str());
    let curseforge_slug = clean_string(tag.curseforge_slug.as_str());
    let url = source_url(source, opt_as_str(&modrinth_id), opt_as_str(&curseforge_slug));
    SwitchModSourceResult {
        key: key.to_string(),
        source: source.to_string(),
        display_name,
        source_url: url,
        modrinth_id,
        modrinth_version_id,
        curseforge_id,
        curseforge_file_id,
        cover_url,
    }
}

/// Links the mod under `key` to a project picked on `target` and stamps the
/// entry and the file with `now`; says how the interface shows the link, with
/// the picked project's icon as the cover. Where the switch cannot be made
/// the file is left as it was.
pub fn switch_mod_source(
    tags: &mut TagFile,
    key: &str,
    target: &ProviderKind,
    chosen_id: &Option<String>,
    chosen_slug: &Option<String>,
    chosen_title: &Option<String>,
    icon_url: &Option<String>,
    has_curseforge_key: bool,
    now: &str,
) -> (r: Result<SwitchModSourceResult, String>)
    requires
        keys_unique(old(tags).mods@),
    ensures
        keys_unique(final(tags).mods@),
        final(tags).version == old(tags).version,
        exists|prev: ModTags|
            #[trigger] previous_is(old(tags).mods@, key@, prev) && match r {
                Ok(res) => {
                    &&& switch_error(prev, *target, *chosen_id, has_curseforge_key) is None
                    &&& final(tags).updated_at@ == now@
                    &&& has_key(final(tags).mods@, key@)
                    &&& stored_under(old(tags).mods@, final(tags).mods@, key@, tag_for(final(tags).mods@, key@))
                    &&& switched(
                        prev,
                        tag_for(final(tags).mods@, key@),
                        *target,
                        chosen_project(prev, *target, *chosen_id).unwrap(),
                        *chosen_slug,
                        *chosen_title,
                        now@,
                    )
                    &&& link_shown(res, tag_for(final(tags).mods@, key@), key@, kind_name(*target))
                    &&& opt_view(res.cover_url) == clean_opt(*icon_url)
                },
                Err(e) => {
                    &&& switch_error(prev, *target, *chosen_id, has_curseforge_key) == Some(e@)
                    &&& same_file(*final(tags), *old(tags))
                },
            },
{
    let ghost before = tags.mods@;
    let ghost old_tags = *tags;
    let (k, t, slot) = crate::tag_updates::take_tag(tags, key);
    let ghost prev = t;
    match switch_tag(t, target, chosen_id, chosen_slug, chosen_title, has_curseforge_key, now) {
        Ok(after) => {
            let ghost a = after;
            crate::tag_updates::put_tag(tags, slot, k, after);
            proof {
                if let Some(i) = slot {
                    assert(tags.mods@ == before.remove(i as int).insert(i as int, (k, a)));
                }
                crate::tag_updates::lemma_take_put(before, tags.mods@, key@, k, slot, a);
                assert(previous_is(before, key@, prev));
            }
            tags.updated_at = now.to_string();
            let i = match find_tag(&tags.mods, key) {
                Some(i) => i,
                None => {
                    proof {
                        assert(false);
                    }
                    0
                },
            };
            proof {
                lemma_tag_for(tags.mods@, key@, i as int);
            }
            let source = kind_string(target);
            Ok(link_result(&tags.mods[i].1, key, source.as_str(), clean_option(icon_url)))
        },
        Err((e, back)) => {
            if let Some(i) = slot {
                crate::tag_updates::put_tag(tags, slot, k, back);
                proof {
                    assert(tags.mods@ =~= before);
                }
            }
            proof {
                assert(tags.mods@ =~= before);
                assert(previous_is(before, key@, prev));
            }
            Err(e)
        },
    }
}

// ---------------------------------------------------------------------------
// Completing a switch
// ---------------------------------------------------------------------------

/// The provider's identification of the jar counts when it names the project
/// the mod was switched to.
pub fn matched_identity(found_project: &str, found_file: String, project_id: &str) -> (r: Option<String>)
    ensures
        match r {
            Some(f) => found_project@ == project_id@ && f == found_file,
            None => found_project@ != project_id@,
        },
{
    let a = chars_of(found_project);
    if eq_str(&a, project_id) {
        Some(found_file)
    } else {
        None
    }
}

/// The project details still to fetch after a switch: the title on Modrinth
/// when none was picked; on CurseForge the slug or the title when one is
/// missing.
pub fn details_needed(target: &ProviderKind, has_slug: bool, has_title: bool) -> (r: bool)
    ensures
        r == match *target {
            ProviderKind::Modrinth => !has_title,
            ProviderKind::Curseforge => !has_slug || !has_title,
        },
{
    match target {
        ProviderKind::Modrinth => !has_title,
        ProviderKind::Curseforge => !has_slug || !has_title,
    }
}

/// What completing a switch does to the tag: nothing unless it is still
/// linked to that project on that provider; then the identified version (or
/// file), the slug and the title replace stored ones that differ.
pub open spec fn completed(
    tag: ModTags,
    after: ModTags,
    target: ProviderKind,
    project_id: Seq<char>,
    file_id: Option<String>,
    slug: Option<String>,
    title: Option<String>,
    now: Seq<char>,
) -> bool {
    let still_linked = tag.source@ == kind_name(target) && match target {
        ProviderKind::Modrinth => tag.modrinth_id@ == project_id,
        ProviderKind::Curseforge => tag.curseforge_id@ == project_id,
    };
    let file_changes = file_id matches Some(f) && f@ != match target {
        ProviderKind::Modrinth => tag.modrinth_version_id@,
        ProviderKind::Curseforge => tag.curseforge_file_id@,
    };
    let slug_changes = target == ProviderKind::Curseforge && (slug matches Some(s) && s@ != tag.curseforge_slug@);
    let title_changes = title matches Some(t) && t@ != tag.provider_title@;
    let changes = still_linked && (file_changes || slug_changes || title_changes);
    if !changes {
        after == tag
    } else {
        &&& after.updated_at@ == now
        &&& after.provider_title == if title_changes {
            title.unwrap()
        } else {
            tag.provider_title
        }
        &&& match target {
            ProviderKind::Modrinth => {
                &&& after.modrinth_version_id == if file_changes {
                    file_id.unwrap()
                } else {
                    tag.modrinth_version_id
                }
                &&& after.curseforge_file_id == tag.curseforge_file_id
                &&& after.curseforge_slug == tag.curseforge_slug
            },
            ProviderKind::Curseforge => {
                &&& after.curseforge_file_id == if file_changes {
                    file_id.unwrap()
                } else {
                    tag.curseforge_file_id
                }
                &&& after.curseforge_slug == if slug_changes {
                    slug.unwrap()
                } else {
                    tag.curseforge_slug
                }
                &&& after.modrinth_version_id == tag.modrinth_version_id
            },
        }
        &&& after == ModTags {
            updated_at: after.updated_at,
            provider_title: after.provider_title,
            modrinth_version_id: after.modrinth_version_id,
            curseforge_file_id: after.curseforge_file_id,
            curseforge_slug: after.curseforge_slug,
            ..tag
        }
    }
}

/// Completes one tag; says whether it changed.
pub fn complete_tag(
    tag: &mut ModTags,
    target: &ProviderKind,
    project_id: &str,
    file_id: Option<String>,
    slug: Option<String>,
    title: Option<String>,
    now: &str,
) -> (changed: bool)
    ensures
        completed(*old(tag), *final(tag), *target, project_id@, file_id, slug, title, now@),
        changed == (*final(tag) != *old(tag)),
{
    let ghost before = *tag;
    let src = chars_of(tag.source.as_str());
    let name = kind_string(target);
    let nv = chars_of(name.as_str());
    if !crate::text::eq_chars(&src, &nv) {
        return false;
    }
    let linked_id = match target {
        ProviderKind::Modrinth => chars_of(tag.modrinth_id.as_str()),
        ProviderKind::Curseforge => chars_of(tag.curseforge_id.as_str()),
    };
    if !eq_str(&linked_id, project_id) {
        return false;
    }
    let mut changed = false;
    match target {
        ProviderKind::Modrinth => {
            if let Some(f) = file_id {
                if tag.modrinth_version_id != f {
                    tag.modrinth_version_id = f;
                    changed = true;
                }
            }
        },
        ProviderKind::Curseforge => {
            if let Some(f) = file_id {
                if tag.curseforge_file_id != f {
                    tag.curseforge_file_id = f;
                    changed = true;
                }
            }
            if let Some(s) = slug {
                if tag.curseforge_slug != s {
                    tag.curseforge_slug = s;
                    changed = true;
                }
            }
        },
    }
    if let Some(t) = title {
        if tag.provider_title != t {
            tag.provider_title = t;
            changed = true;
        }
    }
    if changed {
        tag.updated_at = now.to_string();
    }
    proof {
        if changed {
            assert(*tag != before) by {
                if *tag == before {
                    assert(tag.provider_title@ == before.provider_title@);
                    assert(tag.modrinth_version_id@ == before.modrinth_version_id@);
                    assert(tag.curseforge_file_id@ == before.curseforge_file_id@);
                    assert(tag.curseforge_slug@ == before.curseforge_slug@);
                }
            }
        }
    }
    changed
}

/// Completes the switch of the mod under `key` once the provider has
/// identified its jar; where the tag changed, the file is stamped with `now`
/// and the new link is returned to be shown. A mod that is gone, or was
/// switched again meanwhile, is left alone.
pub fn complete_switch_identity(
    tags: &mut TagFile,
    key: &str,
    target: &ProviderKind,
    project_id: &str,
    file_id: Option<String>,
    slug: Option<String>,
    title: Option<String>,
    now: &str,
) -> (r: Option<SwitchModSourceResult>)
    requires
        keys_unique(old(tags).mods@),
    ensures
        keys_unique(final(tags).mods@),
        final(tags).version == old(tags).version,
        !has_key(old(tags).mods@, key@) ==> r is None && same_file(*final(tags), *old(tags)),
        has_key(old(tags).mods@, key@) ==> {
            &&& stored_under(old(tags).mods@, final(tags).mods@, key@, tag_for(final(tags).mods@, key@))
            &&& completed(
                tag_for(old(tags).mods@, key@),
                tag_for(final(tags).mods@, key@),
                *target,
                project_id@,
                file_id,
                slug,
                title,
                now@,
            )
            &&& match r {
                Some(res) => {
                    &&& tag_for(final(tags).mods@, key@) != tag_for(old(tags).mods@, key@)
                    &&& final(tags).updated_at@ == now@
                    &&& link_shown(res, tag_for(final(tags).mods@, key@), key@, kind_name(*target))
                    &&& res.cover_url is None
                },
                None => same_file(*final(tags), *old(tags)),
            }
        },
{
    let ghost before = tags.mods@;
    let i = match find_tag(&tags.mods, key) {
        Some(i) => i,
        None => return None,
    };
    proof {
        lemma_tag_for(before, key@, i as int);
    }
    let (k, mut t) = tags.mods.remove(i);
    let ghost prev = t;
    let changed = complete_tag(&mut t, target, project_id, file_id, slug, title, now);
    let ghost a = t;
    tags.mods.insert(i, (k, t));
    proof {
        assert(tags.mods@ =~= before.update(i as int, (k, a)));
        crate::tag_updates::lemma_take_put(before, tags.mods@, key@, k, Some(i), a);
        if !changed {
            assert(a == prev);
            assert(tags.mods@ =~= before);
        }
    }
    if !changed {
        return None;
    }
    tags.updated_at = now.to_string();
    let source = kind_string(target);
    proof {
        lemma_tag_for(tags.mods@, key@, i as int);
    }
    Some(link_result(&tags.mods[i].1, key, source.as_str(), None))
}

/// The name shown for a mod while its new cover is fetched: the picked
/// title, else the name given, else the jar's name without `.jar`, else the
/// key.
pub open spec fn switch_display_name_of(title: Option<String>, display_name: Seq<char>, filename: Seq<char>, key: Seq<char>) -> Seq<char> {
    match title {
        Some(t) => t@,
        None => match clean(display_name) {
            Some(d) => d,
            None => match clean(trim_end_str(filename, ".jar"@)) {
                Some(f) => f,
                None => key,
            },
        },
    }
}

pub fn switch_display_name(title: &Option<String>, display_name: &str, filename: &str, key: &str) -> (r: String)
    ensures
        r@ == switch_display_name_of(*title, display_name@, filename@, key@),
{
    if let Some(t) = title {
        return t.clone();
    }
    if let Some(d) = clean_string(display_name) {
        return d;
    }
    let f = trim_end_str_chars(&chars_of(filename), ".jar");
    let fs = string_of(&f);
    if let Some(c) = clean_string(fs.as_str()) {
        return c;
    }
    key.to_string()
}

/// A candidate found by the jar's own hash is an exact match and ranks first.
pub fn mark_exact_match(candidate: &mut crate::remote::ProviderCandidate)
    ensures
        final(candidate).exact_file_match,
        final(candidate).match_score == 1000,
        final(candidate).id == old(candidate).id,
        final(candidate).slug == old(candidate).slug,
        final(candidate).title == old(candidate).title,
        final(candidate).summary == old(candidate).summary,
        final(candidate).icon_url == old(candidate).icon_url,
{
    candidate.exact_file_match = true;
    candidate.match_score = 1000;
}

} // verus!
