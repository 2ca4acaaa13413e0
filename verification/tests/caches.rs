use mod_manager::caches::{
    cached_details, cached_preview, cached_updates, catalog_cache_key, find_key, get_entry, invalidate_updates,
    put_details, put_entry, put_preview, remove_entry, store_updates, updates_cache_fresh, usable_cache_version,
    CatalogCacheEntry, UpdatesCacheEntry, UPDATES_CACHE_TTL_MS,
};
use mod_manager::instance_meta::InstanceTarget;
use mod_manager::mods::{ModEntry, UNKNOWN_SIDE};
use mod_manager::updates::{
    build_update_candidates, updates_fingerprint_text, LatestVersion, ProjectRef, ProviderVersion,
};

fn target(mc: &str) -> InstanceTarget {
    InstanceTarget { minecraft_version: Some(mc.to_string()), loader: Some("fabric".to_string()) }
}

fn entry(checked_at_ms: u64, fingerprint: &str, mc: &str) -> UpdatesCacheEntry {
    UpdatesCacheEntry {
        checked_at_ms,
        mods_fingerprint: fingerprint.to_string(),
        target: target(mc),
        candidates: Vec::new(),
        checked_projects: 3,
        failed_projects: 0,
    }
}

#[test]
fn keyed_entries_store_replace_and_drop() {
    let mut entries: Vec<(String, u32)> = Vec::new();
    put_entry(&mut entries, "a".to_string(), 1);
    put_entry(&mut entries, "b".to_string(), 2);
    put_entry(&mut entries, "a".to_string(), 3);
    assert_eq!(entries.len(), 2);
    assert_eq!(get_entry(&entries, "a"), Some(&3));
    assert_eq!(get_entry(&entries, "b"), Some(&2));
    assert_eq!(find_key(&entries, "b"), Some(1));
    remove_entry(&mut entries, "a");
    assert_eq!(get_entry(&entries, "a"), None);
    assert_eq!(get_entry(&entries, "b"), Some(&2));
}

#[test]
fn update_checks_are_fresh_for_a_day() {
    assert_eq!(UPDATES_CACHE_TTL_MS, 24 * 60 * 60 * 1000);
    assert!(updates_cache_fresh(1000, 1000));
    assert!(updates_cache_fresh(1000 + UPDATES_CACHE_TTL_MS, 1000));
    assert!(!updates_cache_fresh(1001 + UPDATES_CACHE_TTL_MS, 1000));
    assert!(updates_cache_fresh(5, 10));
}

#[test]
fn stored_check_is_reused_only_when_it_matches() {
    let mut entries = Vec::new();
    store_updates(&mut entries, "  /games/pack  ", entry(1000, "fp", "1.20.1"));
    let now = 2000;
    let hit = cached_updates(&entries, "/games/pack", "fp", &target("1.20.1"), now).unwrap();
    assert_eq!(hit.checked_projects, 3);
    assert!(cached_updates(&entries, "/games/pack", "other", &target("1.20.1"), now).is_none());
    assert!(cached_updates(&entries, "/games/pack", "fp", &target("1.21"), now).is_none());
    assert!(cached_updates(&entries, "/games/pack", "fp", &target("1.20.1"), 1001 + UPDATES_CACHE_TTL_MS).is_none());
    assert!(cached_updates(&entries, "/games/other", "fp", &target("1.20.1"), now).is_none());
    invalidate_updates(&mut entries, "/games/pack ");
    assert!(cached_updates(&entries, "/games/pack", "fp", &target("1.20.1"), now).is_none());
}

#[test]
fn catalog_key_joins_trimmed_parts() {
    assert_eq!(catalog_cache_key(" inst ", " Modrinth ", " abc "), "inst\u{0000}modrinth\u{0000}abc");
}

#[test]
fn catalog_details_and_preview_live_side_by_side() {
    let mut entries: Vec<(String, CatalogCacheEntry<String, u32>)> = Vec::new();
    let key = catalog_cache_key("i", "curseforge", "7");
    put_preview(&mut entries, key.clone(), 5);
    assert_eq!(cached_details(&entries, &key), None);
    assert_eq!(cached_preview(&entries, &key), Some(&5));
    put_details(&mut entries, key.clone(), "details".to_string());
    assert_eq!(cached_details(&entries, &key).map(|s| s.as_str()), Some("details"));
    assert_eq!(cached_preview(&entries, &key), Some(&5));
    assert_eq!(entries.len(), 1);
    assert!(usable_cache_version(2, 2));
    assert!(!usable_cache_version(1, 2));
}

fn linked(key: &str, title: &str, source: &str, project: &str, version_id: Option<&str>) -> ModEntry {
    ModEntry {
        key: key.to_string(),
        filename: format!("{key}.jar"),
        base: format!("{key}.jar"),
        display_name: title.to_string(),
        display_name_locked: false,
        installed_version: Some("1.0".to_string()),
        side: UNKNOWN_SIDE.to_string(),
        library: false,
        technical: false,
        description: String::new(),
        dependencies: Vec::new(),
        resolved_dependencies: Vec::new(),
        jar_dependencies: Vec::new(),
        used_by: Vec::new(),
        cover_url: None,
        cover_path: None,
        cover_manual: false,
        cover_modified_at: None,
        source: source.to_string(),
        source_url: None,
        has_index: false,
        has_tags: false,
        index_file: None,
        pack_side: None,
        modrinth_id: if source == "modrinth" { Some(project.to_string()) } else { None },
        modrinth_version_id: version_id.map(|v| v.to_string()),
        curseforge_id: if source == "curseforge" { Some(project.to_string()) } else { None },
        curseforge_file_id: None,
        duplicate: false,
        modified_at: String::new(),
        side_mode: String::new(),
        manual_side: String::new(),
        manual_library: false,
        manual_technical: false,
        provider_side: String::new(),
        provider_library: false,
        provider_technical: false,
        disabled: false,
    }
}

fn latest(source: &str, project: &str, id: &str, number: &str) -> LatestVersion {
    LatestVersion {
        project: ProjectRef { source: source.to_string(), project_id: project.to_string() },
        version: ProviderVersion {
            id: id.to_string(),
            file_id: None,
            version_number: number.to_string(),
            name: number.to_string(),
            filename: format!("{id}.jar"),
            download_url: None,
            game_versions: Vec::new(),
            loaders: Vec::new(),
            date_published: None,
            downloads: None,
            size: None,
            release_type: None,
        },
    }
}

#[test]
fn update_candidates_skip_current_and_unreachable_and_sort_by_title() {
    let mods = vec![
        linked("z", "zeta", "modrinth", "P1", Some("old")),
        linked("a", "Alpha", "modrinth", "P2", Some("new2")),
        linked("c", "Cee", "curseforge", "9", None),
        linked("b", "beta", "modrinth", "P3", Some("old")),
    ];
    let found = vec![
        latest("modrinth", "P1", "new1", "2.0"),
        latest("modrinth", "P2", "new2", "3.0"),
        latest("curseforge", "9", "99", "4.0"),
        latest("modrinth", "P3", "new3", "5.0"),
    ];
    let offered = build_update_candidates(&mods, false, &found);
    let titles: Vec<&str> = offered.iter().map(|c| c.title.as_str()).collect();
    assert_eq!(titles, vec!["beta", "zeta"]);
    assert_eq!(offered[1].summary.as_deref(), Some("1.0 → 2.0"));
    assert_eq!(offered[1].project_id, "P1");
    let with_key = build_update_candidates(&mods, true, &found);
    let titles: Vec<&str> = with_key.iter().map(|c| c.title.as_str()).collect();
    assert_eq!(titles, vec!["beta", "Cee", "zeta"]);
}

#[test]
fn fingerprint_text_lists_linked_mods_sorted() {
    let mods = vec![
        linked("z", "zeta", "modrinth", "P1", Some("v1")),
        linked("a", "Alpha", "local", "", None),
        linked("b", "beta", "curseforge", " 9 ", None),
    ];
    assert_eq!(updates_fingerprint_text(&mods), "b|b.jar|curseforge|9||\nz|z.jar|modrinth|P1|v1|");
    assert_eq!(updates_fingerprint_text(&Vec::new()), "");
}
