use mod_manager::dependencies::{
    filter_reverse_jar_dependency_keys, jar_dependencies_by_key, prune_reverse_jar_dependencies,
    same_dependency_list,
};
use mod_manager::file_identity::{curseforge_fingerprint, sha512_hex};
use mod_manager::mods::{
    alias_key_for, clean_tag_value, ensure_tag, key_for_file, merge_keys, mod_entry_for,
    normalize_side, scan_entries, slug_from_filename, source_url, stable_key, stats_for,
    IndexInfo, ModEntry, UNKNOWN_SIDE,
};
use mod_manager::provider_labels::{
    map_provider_side, map_provider_technical, resolve_side, sync_stored_side_from_provider,
};
use mod_manager::tags::{LabelOverridesStore, ModTags, ProviderLabelsStore, TagFile};
use mod_manager::updates::{
    collect_version_jobs, is_installed_version, is_retryable_fetch_error, provider_for,
    retry_step, FetchResult, ProviderVersion, RetryStep,
};

fn map(entries: &[(&str, &[&str])]) -> Vec<(String, Vec<String>)> {
    entries
        .iter()
        .map(|(key, deps)| {
            (
                (*key).to_string(),
                deps.iter().map(|dep| (*dep).to_string()).collect(),
            )
        })
        .collect()
}

#[test]
fn filters_provider_dependency_when_jar_points_back() {
    let jar_dependencies = map(&[("base", &[]), ("addon", &["base"])]);
    let filtered =
        filter_reverse_jar_dependency_keys("base", &[], &["addon".to_string()], &jar_dependencies);
    assert!(filtered.is_empty());
}

#[test]
fn keeps_provider_dependency_when_source_jar_also_requires_it() {
    let jar_dependencies = map(&[("base", &["addon"]), ("addon", &["base"])]);
    let filtered = filter_reverse_jar_dependency_keys(
        "base",
        &["addon".to_string()],
        &["addon".to_string()],
        &jar_dependencies,
    );
    assert_eq!(filtered, vec!["addon"]);
}

#[test]
fn sha512_hex_formats_digest() {
    assert_eq!(
        sha512_hex(b"abc"),
        "ddaf35a193617abacc417349ae20413112e6fa4e89a97ea20a9eeee64b55d39a\
         2192992a274fc1a836ba3c23a3feebbd454d4423643ce80e2a9ac94fa54ca49f"
            .replace(' ', "")
    );
}

#[test]
fn curseforge_fingerprint_ignores_whitespace() {
    assert_eq!(curseforge_fingerprint(b"ab cd\n"), curseforge_fingerprint(b"abcd"));
}

fn store(client: &str, server: &str) -> ProviderLabelsStore {
    ProviderLabelsStore {
        fetched_at: "2024-05-01T00:00:00Z".to_string(),
        client_side: client.to_string(),
        server_side: server.to_string(),
        ..Default::default()
    }
}

#[test]
fn maps_modrinth_client_only() {
    let s = store("required", "unsupported");
    assert_eq!(map_provider_side(&s).as_deref(), Some("client"));
}

#[test]
fn maps_modrinth_optimization_flag() {
    let s = ProviderLabelsStore {
        fetched_at: "2024-05-01T00:00:00Z".to_string(),
        categories: vec!["optimization".to_string()],
        ..Default::default()
    };
    assert!(map_provider_technical(&s));
}

#[test]
fn resolve_side_without_provider_labels_is_unknown() {
    let tag = ModTags::default();
    assert_eq!(resolve_side(&tag), UNKNOWN_SIDE);
}

#[test]
fn sync_stored_side_replaces_scan_default_universal_with_provider_client() {
    let mut tag = ModTags { side: "universal".to_string(), ..Default::default() };
    tag.provider_labels = store("required", "unsupported");
    sync_stored_side_from_provider(&mut tag);
    assert_eq!(tag.side, "client");
    assert_eq!(resolve_side(&tag), "client");
}

#[test]
fn sync_stored_side_does_not_override_manual_side() {
    let mut tag = ModTags {
        side: "universal".to_string(),
        label_overrides: LabelOverridesStore { side_mode: "manual".to_string() },
        ..Default::default()
    };
    tag.provider_labels = store("required", "unsupported");
    sync_stored_side_from_provider(&mut tag);
    assert_eq!(tag.side, "universal");
    assert_eq!(resolve_side(&tag), "universal");
}

fn sample_mod() -> ModEntry {
    ModEntry {
        key: "abc".to_string(),
        filename: "mod-1.0.0.jar".to_string(),
        base: "mod-1.0.0.jar".to_string(),
        display_name: "Mod".to_string(),
        display_name_locked: false,
        installed_version: Some("1.0.0".to_string()),
        side: UNKNOWN_SIDE.to_string(),
        library: false,
        technical: false,
        description: String::new(),
        dependencies: Vec::new(),
        resolved_dependencies: Vec::new(),
        jar_dependencies: Vec::new(),
        used_by: Vec::new(),
        cover_url: None,
        cover_path: None,
        cover_manual: false,
        cover_modified_at: None,
        source: "modrinth".to_string(),
        source_url: None,
        has_index: false,
        has_tags: false,
        index_file: None,
        pack_side: None,
        modrinth_id: Some("project".to_string()),
        modrinth_version_id: Some("version-old".to_string()),
        curseforge_id: None,
        curseforge_file_id: None,
        duplicate: false,
        modified_at: String::new(),
        side_mode: "auto".to_string(),
        manual_side: String::new(),
        manual_library: false,
        manual_technical: false,
        provider_side: String::new(),
        provider_library: false,
        provider_technical: false,
        disabled: false,
    }
}

fn version(id: &str, filename: &str) -> ProviderVersion {
    ProviderVersion {
        id: id.to_string(),
        file_id: None,
        version_number: "1.0.0".to_string(),
        name: "1.0.0".to_string(),
        filename: filename.to_string(),
        download_url: None,
        game_versions: Vec::new(),
        loaders: Vec::new(),
        date_published: None,
        downloads: None,
        size: None,
        release_type: None,
    }
}

#[test]
fn is_installed_version_matches_modrinth_id() {
    let item = sample_mod();
    assert!(is_installed_version(&item, &version("version-old", "mod-2.0.0.jar")));
}

#[test]
fn retryable_fetch_error_detects_rate_limit() {
    assert!(is_retryable_fetch_error("HTTP 429 Too Many Requests"));
    assert!(!is_retryable_fetch_error("Modrinth вернул неожиданный ответ."));
}

#[test]
fn update_checks() {
    let item = sample_mod();
    assert!(!is_installed_version(&item, &version("other", "mod-2.0.0.jar")));
    assert!(is_installed_version(&item, &version("other", "mod-1.0.0.jar")));
    assert_eq!(
        provider_for(&item),
        Some(("modrinth".to_string(), "project".to_string()))
    );
    let mut cf = sample_mod();
    cf.source = "curseforge".to_string();
    cf.curseforge_id = Some(" 42 ".to_string());
    assert_eq!(provider_for(&cf), Some(("curseforge".to_string(), "42".to_string())));
    let jobs = collect_version_jobs(&[item, sample_mod(), cf], false);
    assert_eq!(jobs.len(), 1);
    assert!(matches!(retry_step(0, &FetchResult::Error("timeout".to_string())), RetryStep::Wait(450)));
    assert!(matches!(retry_step(1, &FetchResult::Error("timed out".to_string())), RetryStep::Wait(900)));
    assert!(matches!(retry_step(2, &FetchResult::Error("timeout".to_string())), RetryStep::Failed));
    assert!(matches!(retry_step(0, &FetchResult::Error("bad".to_string())), RetryStep::Failed));
    assert!(matches!(retry_step(0, &FetchResult::Found), RetryStep::Success));
}

#[test]
fn keys_and_sources() {
    assert_eq!(normalize_side("both"), "universal");
    assert_eq!(normalize_side("client"), "client");
    assert_eq!(slug_from_filename("Cool_Mod++1.2.jar.jar"), "cool-mod-1-2");
    let info = IndexInfo {
        index_file: "cool.pw.toml".to_string(),
        slug: "cool".to_string(),
        name: None,
        side: None,
        modrinth_id: None,
        modrinth_version_id: None,
        curseforge_id: Some("77".to_string()),
        curseforge_file_id: None,
    };
    assert_eq!(stable_key("x.jar", Some(&info)), "curseforge:77");
    assert_eq!(stable_key("My Mod.jar", None), "manual:my-mod");
    assert_eq!(key_for_file("a.jar", None, &Some("modrinth:a".to_string())), "modrinth:a");
    assert_eq!(clean_tag_value("  v "), Some("v".to_string()));
    assert_eq!(clean_tag_value("  "), None);
    assert_eq!(
        source_url("modrinth", Some("sodium"), None),
        Some("https://modrinth.com/mod/sodium".to_string())
    );
    assert_eq!(source_url("manual", Some("x"), Some("y")), None);
    let a = vec!["b".to_string(), "".to_string(), "a".to_string()];
    let b = vec!["a".to_string(), "c".to_string()];
    assert_eq!(merge_keys(&[a.as_slice(), b.as_slice()]), vec!["a", "b", "c"]);
    assert!(same_dependency_list(&a, &a));
    assert!(!same_dependency_list(&a, &b));
}

#[test]
fn scan_builds_sorted_entries_and_tags() {
    let mut tags = TagFile { version: 1, updated_at: "old".to_string(), mods: Vec::new() };
    let mut aliased = ModTags::default();
    aliased.aliases = vec![" b-1.0.jar ".to_string()];
    aliased.display_name = "Bee".to_string();
    tags.mods.push(("manual:bee".to_string(), aliased));
    let jars = vec![
        ("b-1.0.jar".to_string(), "t2".to_string()),
        ("a-1.0.jar".to_string(), "t1".to_string()),
    ];
    assert_eq!(alias_key_for(&tags, "b-1.0.jar"), Some("manual:bee".to_string()));
    let (entries, changed) = scan_entries(jars, &Vec::new(), &mut tags, "now");
    assert!(changed);
    assert_eq!(tags.updated_at, "now");
    assert_eq!(entries.len(), 2);
    assert_eq!(entries[0].filename, "a-1.0.jar");
    assert_eq!(entries[0].key, "manual:a-1-0");
    assert_eq!(entries[0].source, "manual");
    assert_eq!(entries[1].key, "manual:bee");
    assert_eq!(entries[1].display_name, "Bee");
    assert!(entries[1].display_name_locked);
    assert_eq!(tags.mods.len(), 2);
    let stats = stats_for(&entries);
    assert_eq!(stats.total, 2);
    assert_eq!(stats.universal, 2);
    assert_eq!(stats.no_index, 2);
    assert!(!ensure_tag(&mut tags, "manual:bee", "b-1.0.jar", None, "later"));
    assert!(ensure_tag(&mut tags, "manual:bee", "b-2.0.jar", None, "later"));
    let entry = mod_entry_for("a-1.0.jar", None, "k".to_string(), &ModTags::default(), true, "m".to_string());
    assert!(entry.duplicate);
    assert_eq!(entry.side, "universal");
}

#[test]
fn pruning_reverse_dependencies() {
    let mut base = sample_mod();
    base.key = "base".to_string();
    base.dependencies = vec!["addon".to_string()];
    let mut addon = sample_mod();
    addon.key = "addon".to_string();
    addon.jar_dependencies = vec!["base".to_string()];
    let mut mods = vec![base, addon];
    let map = jar_dependencies_by_key(&mods);
    assert_eq!(map.len(), 2);
    assert!(prune_reverse_jar_dependencies(&mut mods));
    assert!(mods[0].dependencies.is_empty());
    assert!(!prune_reverse_jar_dependencies(&mut mods));
}
