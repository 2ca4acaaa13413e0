use mod_manager::label_refresh::{label_refresh_candidates, label_request, link_step, store_fetched_labels, LabelRequest, LinkStep};
use mod_manager::mods::{ModEntry, UNKNOWN_SIDE};
use mod_manager::prefetch::{
    active_label_source, api_dependency_requests, cover_requests, cover_worker_count, curseforge_cover_url_from_payload,
    curseforge_dependencies_from_payload, dependency_update, fetch_api_dependencies, id_lookup, lookup_key,
    modrinth_cover_url_from_payload, modrinth_dependencies_from_payload, pick_cover_url, prefetch_ids,
    refreshed_dependencies, wants_cover, CoverPick, CoverRequest, CurseforgeDependency, CurseforgeLogo,
    DependencyReply, DependencyRequest, IdField, LabelSource, ModrinthDependency, SyncFlags,
};
use mod_manager::provider_labels::resolve_side;
use mod_manager::source_switch::{
    complete_switch_identity, no_results_message, parse_provider, switch_display_name, switch_mod_source,
    validate_search, ProviderKind,
};
use mod_manager::tag_updates::{clear_provider_labels, store_dependencies, update_mod_tags, UpdateModTagsRequest};
use mod_manager::tags::{ModTags, ProviderLabelsStore, TagFile};

fn strings(items: &[&str]) -> Vec<String> {
    items.iter().map(|s| s.to_string()).collect()
}

fn entry(key: &str) -> ModEntry {
    ModEntry {
        key: key.to_string(),
        filename: format!("{key}.jar"),
        base: format!("{key}.jar"),
        display_name: key.to_string(),
        display_name_locked: false,
        installed_version: None,
        side: UNKNOWN_SIDE.to_string(),
        library: false,
        technical: false,
        description: String::new(),
        dependencies: Vec::new(),
        resolved_dependencies: Vec::new(),
        jar_dependencies: Vec::new(),
        used_by: Vec::new(),
        cover_url: None,
        cover_path: None,
        cover_manual: false,
        cover_modified_at: None,
        source: "modrinth".to_string(),
        source_url: None,
        has_index: false,
        has_tags: false,
        index_file: None,
        pack_side: None,
        modrinth_id: None,
        modrinth_version_id: None,
        curseforge_id: None,
        curseforge_file_id: None,
        duplicate: false,
        modified_at: String::new(),
        side_mode: "auto".to_string(),
        manual_side: String::new(),
        manual_library: false,
        manual_technical: false,
        provider_side: String::new(),
        provider_library: false,
        provider_technical: false,
        disabled: false,
    }
}

fn empty_tags() -> TagFile {
    TagFile { version: 1, updated_at: String::new(), mods: Vec::new() }
}

#[test]
fn prefetch_asks_for_the_ids_that_are_needed() {
    let mut a = entry("a");
    a.modrinth_id = Some("MA".to_string());
    a.modrinth_version_id = Some("VA".to_string());
    let mut b = entry("b");
    b.curseforge_id = Some("11".to_string());
    b.curseforge_file_id = Some("22".to_string());
    let mods = vec![a, b];
    let ids = prefetch_ids(&mods, false, true);
    assert_eq!(ids.modrinth_projects, strings(&["MA"]));
    assert_eq!(ids.modrinth_versions, strings(&["VA"]));
    assert!(ids.curseforge_mods.is_empty());
    let ids = prefetch_ids(&mods, true, false);
    assert_eq!(ids.curseforge_mods, strings(&["11"]));
    assert!(ids.curseforge_files.is_empty());
    assert!(ids.modrinth_versions.is_empty());
    assert_eq!(cover_worker_count(3), 3);
    assert_eq!(cover_worker_count(30), 8);
}

#[test]
fn lookup_takes_the_later_mod_for_a_shared_id() {
    let mut a = entry("a");
    a.modrinth_id = Some("M".to_string());
    let mut b = entry("b");
    b.modrinth_id = Some("M".to_string());
    let lookup = id_lookup(&vec![a, b], IdField::ModrinthProject);
    assert_eq!(lookup.len(), 2);
    assert_eq!(lookup_key(&lookup, "M").as_deref(), Some("b"));
    assert_eq!(lookup_key(&lookup, "X"), None);
}

#[test]
fn provider_dependencies_map_to_installed_keys() {
    let mr_lookup = vec![("P1".to_string(), "k1".to_string())];
    let cf_lookup = vec![("238222".to_string(), "jei".to_string())];
    let mr = vec![
        ModrinthDependency { dependency_type: Some("required".to_string()), project_id: Some("P1".to_string()) },
        ModrinthDependency { dependency_type: Some("required".to_string()), project_id: Some("P9".to_string()) },
        ModrinthDependency { dependency_type: Some("embedded".to_string()), project_id: Some("P1".to_string()) },
    ];
    assert_eq!(modrinth_dependencies_from_payload(&mr, &mr_lookup), strings(&["k1"]));
    let cf = vec![
        CurseforgeDependency { relation_type: Some(3), mod_id: Some(238222) },
        CurseforgeDependency { relation_type: Some(2), mod_id: Some(238222) },
    ];
    assert_eq!(curseforge_dependencies_from_payload(&cf, &cf_lookup), strings(&["jei"]));
    let replies = vec![DependencyReply::Curseforge(cf), DependencyReply::Modrinth(mr)];
    assert_eq!(fetch_api_dependencies(&replies, &mr_lookup, &cf_lookup), strings(&["jei", "k1"]));
}

#[test]
fn dependency_requests_follow_the_preferred_provider() {
    let mut item = entry("x");
    item.modrinth_id = Some("M".to_string());
    item.modrinth_version_id = Some("V".to_string());
    item.curseforge_id = Some("C".to_string());
    item.curseforge_file_id = Some("F".to_string());
    let r = api_dependency_requests(&item, true);
    assert!(matches!(&r[0], DependencyRequest::ModrinthVersion(v) if v == "V"));
    assert!(matches!(&r[1], DependencyRequest::CurseforgeFile(p, f) if p == "C" && f == "F"));
    item.source = "curseforge".to_string();
    let r = api_dependency_requests(&item, true);
    assert!(matches!(&r[0], DependencyRequest::CurseforgeFile(..)));
    assert!(matches!(&r[1], DependencyRequest::ModrinthVersion(..)));
    assert!(api_dependency_requests(&item, false).is_empty());
    let covers = cover_requests(&item);
    assert_eq!(covers.len(), 3);
    assert!(matches!(&covers[0], CoverRequest::CurseforgeProject(c) if c == "C"));
    assert!(matches!(&covers[1], CoverRequest::ModrinthSearch(n) if n == "x"));
    assert!(matches!(&covers[2], CoverRequest::ModrinthProject(m) if m == "M"));
}

#[test]
fn dependency_updates_merge_and_skip_unchanged() {
    let mut item = entry("addon");
    item.jar_dependencies = Vec::new();
    let jar_deps = vec![("base".to_string(), strings(&["addon"]))];
    let previous = strings(&["lib"]);
    assert_eq!(dependency_update(&item, &strings(&["base"]), &jar_deps, &previous), None);
    let merged = dependency_update(&item, &strings(&["zeta", "alpha"]), &jar_deps, &previous).unwrap();
    assert_eq!(merged, strings(&["alpha", "lib", "zeta"]));
    assert_eq!(dependency_update(&item, &strings(&["lib"]), &jar_deps, &previous), None);
    let (deps, changed) = refreshed_dependencies(&previous, &Vec::new());
    assert_eq!(deps, previous);
    assert!(!changed);
}

#[test]
fn covers_and_labels_come_from_the_preferred_provider() {
    assert!(matches!(active_label_source(true, true, true), LabelSource::Curseforge));
    assert!(matches!(active_label_source(false, true, true), LabelSource::Modrinth));
    assert!(matches!(active_label_source(true, false, false), LabelSource::Neither));
    let pick = pick_cover_url(true, Some("m".to_string()), Some("c".to_string()), true);
    assert!(matches!(pick, CoverPick::Url(u) if u == "c"));
    assert!(matches!(pick_cover_url(false, None, None, true), CoverPick::SearchByName));
    assert!(matches!(pick_cover_url(false, None, None, false), CoverPick::Nothing));
    assert_eq!(modrinth_cover_url_from_payload(Some(String::new())), None);
    let logo = CurseforgeLogo { thumbnail_url: Some("  ".to_string()), url: Some(" u ".to_string()) };
    assert_eq!(curseforge_cover_url_from_payload(Some(&logo)).as_deref(), Some("u"));
    let flags = SyncFlags { labels: false, covers: true, dependencies: false, force_covers: false, force_labels: false };
    let mut item = entry("x");
    assert!(wants_cover(&flags, &item));
    item.cover_path = Some("p".to_string());
    assert!(!wants_cover(&flags, &item));
}

#[test]
fn setting_a_label_by_hand_makes_it_take_effect() {
    let mut tags = empty_tags();
    let patch = UpdateModTagsRequest {
        key: "k".to_string(),
        side: Some("client".to_string()),
        side_mode: None,
        library: None,
        technical: None,
        description: Some("d".to_string()),
        dependencies: None,
    };
    let r = update_mod_tags(&mut tags, patch, "now".to_string());
    assert_eq!(r.side, "client");
    assert_eq!(r.side_mode, "manual");
    assert_eq!(r.description.as_deref(), Some("d"));
    assert_eq!(tags.mods.len(), 1);
    assert_eq!(resolve_side(&tags.mods[0].1), "client");
    let back = UpdateModTagsRequest {
        key: "k".to_string(),
        side: None,
        side_mode: Some(" auto ".to_string()),
        library: None,
        technical: None,
        description: None,
        dependencies: None,
    };
    let r = update_mod_tags(&mut tags, back, "later".to_string());
    assert_eq!(r.side_mode, "auto");
    assert_eq!(r.side, UNKNOWN_SIDE);
    assert_eq!(tags.mods[0].1.updated_at, "later");
}

#[test]
fn stored_labels_and_dependencies_replace_old_ones() {
    let mut tags = empty_tags();
    store_dependencies(&mut tags, "k", strings(&["a"]), "t1");
    store_dependencies(&mut tags, "k", strings(&["b"]), "t2");
    assert_eq!(tags.mods.len(), 1);
    assert_eq!(tags.mods[0].1.dependencies, strings(&["b"]));
    tags.mods[0].1.provider_labels.fetched_at = "x".to_string();
    clear_provider_labels(&mut tags);
    assert_eq!(tags.mods[0].1.provider_labels.fetched_at, "");
    assert_eq!(tags.mods[0].1.dependencies, strings(&["b"]));
    let mut tag = ModTags { side: "universal".to_string(), ..Default::default() };
    let store = ProviderLabelsStore {
        fetched_at: "t".to_string(),
        client_side: "required".to_string(),
        server_side: "unsupported".to_string(),
        ..Default::default()
    };
    store_fetched_labels(&mut tag, store, "t3");
    assert_eq!(tag.side, "client");
    assert_eq!(tag.updated_at, "t3");
}

#[test]
fn switching_source_links_the_picked_project() {
    let mut tags = empty_tags();
    let err = switch_mod_source(
        &mut tags, "k", &ProviderKind::Modrinth, &None, &None, &None, &None, false, "t",
    )
    .err().unwrap();
    assert_eq!(err, "Выбери проект из результатов поиска.");
    assert!(tags.mods.is_empty());
    let err = switch_mod_source(
        &mut tags, "k", &ProviderKind::Curseforge, &Some("1".to_string()), &None, &None, &None, false, "t",
    )
    .err().unwrap();
    assert_eq!(err, "Для CurseForge нужен API key.");
    let r = switch_mod_source(
        &mut tags,
        "k",
        &ProviderKind::Curseforge,
        &Some(" 238222 ".to_string()),
        &Some("jei".to_string()),
        &Some("JEI".to_string()),
        &Some(" https://i ".to_string()),
        true,
        "t",
    )
    .unwrap();
    assert_eq!(r.curseforge_id.as_deref(), Some("238222"));
    assert_eq!(r.source, "curseforge");
    assert_eq!(r.display_name.as_deref(), Some("JEI"));
    assert_eq!(r.source_url.as_deref(), Some("https://www.curseforge.com/minecraft/mc-mods/jei"));
    assert_eq!(r.cover_url.as_deref(), Some("https://i"));
    let done = complete_switch_identity(
        &mut tags, "k", &ProviderKind::Curseforge, "238222", Some("4001".to_string()), None, None, "t2",
    )
    .unwrap();
    assert_eq!(done.curseforge_file_id.as_deref(), Some("4001"));
    assert!(complete_switch_identity(
        &mut tags, "k", &ProviderKind::Curseforge, "238222", Some("4001".to_string()), None, None, "t3",
    )
    .is_none());
    assert!(complete_switch_identity(&mut tags, "k", &ProviderKind::Modrinth, "238222", None, None, None, "t3").is_none());
    assert_eq!(tags.mods[0].1.updated_at, "t2");
}

#[test]
fn searches_need_a_provider_and_a_name() {
    assert!(matches!(parse_provider(" CurseForge "), Some(ProviderKind::Curseforge)));
    assert!(parse_provider("github").is_none());
    assert_eq!(validate_search("x", "n", true).err().unwrap(), "Можно искать только на Modrinth или CurseForge.");
    assert_eq!(validate_search("modrinth", "  ", true).err().unwrap(), "Не задано имя мода для поиска.");
    assert_eq!(validate_search("curseforge", "n", false).err().unwrap(), "Для поиска на CurseForge нужен API key.");
    assert_eq!(validate_search("modrinth", " JEI ", false).unwrap().1, "JEI");
    assert_eq!(no_results_message(&ProviderKind::Modrinth), "Ничего не найдено на modrinth.");
    assert_eq!(switch_display_name(&None, " ", "jei-1.0.jar", "k"), "jei-1.0");
    assert_eq!(switch_display_name(&None, "", "", "k"), "k");
}

#[test]
fn label_refresh_picks_requests_and_candidates() {
    let mut a = entry("a");
    a.modrinth_id = Some("M".to_string());
    a.modrinth_version_id = Some(String::new());
    assert!(matches!(label_request(&a, false), Ok(LabelRequest::Modrinth { version_id: None, .. })));
    let mut b = entry("b");
    b.source = "curseforge".to_string();
    assert_eq!(label_request(&b, false).err().unwrap(), "Для CurseForge нужен API key.");
    assert_eq!(label_request(&b, true).err().unwrap(), "У мода нет CurseForge ID.");
    b.curseforge_id = Some("C".to_string());
    let c = entry("c");
    assert_eq!(label_request(&c, true).err().unwrap(), "Метки поставщика доступны только для Modrinth и CurseForge.");
    let mut tags = empty_tags();
    let mut fetched = ModTags::default();
    fetched.provider_labels.fetched_at = "t".to_string();
    tags.mods.push(("a".to_string(), fetched));
    let mods = vec![a, b, c];
    assert_eq!(label_refresh_candidates(&mods, &tags, true), vec![1]);
    assert_eq!(label_refresh_candidates(&mods, &tags, false), vec![0, 1]);
    let tag = ModTags { curseforge_slug: "jei".to_string(), ..Default::default() };
    assert!(matches!(link_step(Some(&tag), true, false), LinkStep::UseSlug(s) if s == "jei"));
    assert!(matches!(link_step(None, true, true), LinkStep::FetchSlug));
    assert!(matches!(link_step(None, true, false), LinkStep::Skip));
}
