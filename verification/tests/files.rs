use mod_manager::covers::{read_uploaded_cover, split_data_url, uploaded_cover_bytes, uploaded_cover_name};
use mod_manager::mod_files::{
    copy_plan, copy_result, deletion_plan, deletion_result, find_entry, forget_mod, requested_key_list,
};
use mod_manager::mods::{ModEntry, UNKNOWN_SIDE};
use mod_manager::prefetch::UnifiedSyncReport;
use mod_manager::provider_sync::{
    data_usage, folder_size, labels_synced, linked_count, newly_linked, sync_counts, sync_plan, SyncProviderDataRequest,
};
use mod_manager::used_by::attach_used_by;
use mod_manager::tags::{ModTags, TagFile};

fn strings(items: &[&str]) -> Vec<String> {
    items.iter().map(|s| s.to_string()).collect()
}

fn entry(key: &str, name: &str, used_by: &[&str]) -> ModEntry {
    ModEntry {
        key: key.to_string(),
        filename: format!("{key}.jar"),
        base: format!("{key}.jar"),
        display_name: name.to_string(),
        display_name_locked: false,
        installed_version: None,
        side: UNKNOWN_SIDE.to_string(),
        library: false,
        technical: false,
        description: String::new(),
        dependencies: Vec::new(),
        resolved_dependencies: Vec::new(),
        jar_dependencies: Vec::new(),
        used_by: strings(used_by),
        cover_url: None,
        cover_path: None,
        cover_manual: false,
        cover_modified_at: None,
        source: "local".to_string(),
        source_url: None,
        has_index: false,
        has_tags: false,
        index_file: None,
        pack_side: None,
        modrinth_id: None,
        modrinth_version_id: None,
        curseforge_id: None,
        curseforge_file_id: None,
        duplicate: false,
        modified_at: String::new(),
        side_mode: String::new(),
        manual_side: String::new(),
        manual_library: false,
        manual_technical: false,
        provider_side: String::new(),
        provider_library: false,
        provider_technical: false,
        disabled: false,
    }
}

fn scan() -> Vec<ModEntry> {
    vec![
        entry("lib", "Library", &["app", "other"]),
        entry("app", "App", &[]),
        entry("other", "Other Mod", &[]),
        entry("solo", "Solo", &[]),
    ]
}

#[test]
fn request_keys_drop_empty_and_repeated() {
    assert_eq!(requested_key_list(&strings(&["a", "", "b", "a"])), strings(&["a", "b"]));
    assert!(requested_key_list(&strings(&["", ""])).is_empty());
}

#[test]
fn finds_the_first_entry_with_a_key() {
    let mods = scan();
    assert_eq!(find_entry(&mods, "other"), Some(2));
    assert_eq!(find_entry(&mods, "missing"), None);
}

#[test]
fn empty_delete_request_is_refused() {
    assert_eq!(deletion_plan(&scan(), &strings(&["", ""])), Err("Нечего удалять.".to_string()));
}

#[test]
fn deleting_a_used_library_is_refused_with_the_users() {
    assert_eq!(
        deletion_plan(&scan(), &strings(&["lib", "app"])),
        Err("Нельзя удалить Library: используется для Other Mod.".to_string())
    );
    assert_eq!(
        deletion_plan(&scan(), &strings(&["lib"])),
        Err("Нельзя удалить Library: используется для App, Other Mod.".to_string())
    );
}

#[test]
fn deleting_a_library_with_all_its_users_is_allowed() {
    assert_eq!(deletion_plan(&scan(), &strings(&["app", "missing", "lib", "other", "app"])), Ok(vec![1, 0, 2]));
}

#[test]
fn blocker_without_an_entry_is_named_by_key() {
    let mods = vec![entry("lib", "Library", &["ghost"])];
    assert_eq!(
        deletion_plan(&mods, &strings(&["lib"])),
        Err("Нельзя удалить Library: используется для ghost.".to_string())
    );
}

#[test]
fn deletion_answer() {
    assert_eq!(deletion_result(Vec::new()).err(), Some("Не найдено файлов для удаления.".to_string()));
    let done = deletion_result(strings(&["a.jar", "b.jar"])).ok().unwrap();
    assert_eq!(done.removed, 2);
    assert_eq!(done.filenames, strings(&["a.jar", "b.jar"]));
}

#[test]
fn forgetting_a_deleted_mod_drops_its_tag() {
    let mut tags = TagFile {
        version: 1,
        updated_at: "t".to_string(),
        mods: vec![("a".to_string(), ModTags::default()), ("b".to_string(), ModTags::default())],
    };
    forget_mod(&mut tags, "a");
    assert_eq!(tags.mods.len(), 1);
    assert_eq!(tags.mods[0].0, "b");
    forget_mod(&mut tags, "zzz");
    assert_eq!(tags.mods.len(), 1);
    assert_eq!(tags.updated_at, "t");
}

#[test]
fn copy_request_reaches_known_entries_in_order() {
    assert_eq!(copy_plan(&scan(), &Vec::new()), Err("Нечего копировать.".to_string()));
    assert_eq!(copy_plan(&scan(), &strings(&["solo", "nope", "solo", "lib"])), Ok(vec![3, 3, 0]));
    assert_eq!(copy_result(0), Err("Не найдено файлов для копирования.".to_string()));
    assert_eq!(copy_result(3), Ok(3));
}

#[test]
fn data_url_is_split_by_media_type() {
    assert_eq!(
        split_data_url("data:image/png;base64,AQID"),
        Ok(("png".to_string(), "AQID".to_string()))
    );
    assert_eq!(split_data_url("image/jpeg,xx"), Ok(("jpg".to_string(), "xx".to_string())));
    assert_eq!(split_data_url("no comma here"), Err("Не получилось прочитать файл обложки.".to_string()));
    assert_eq!(
        split_data_url("data:image/bmp;base64,AA=="),
        Err("Поддерживаются PNG, JPG, WebP и GIF.".to_string())
    );
}

#[test]
fn uploaded_cover_is_decoded() {
    assert_eq!(read_uploaded_cover("data:image/webp;base64,AQID"), Ok(("webp".to_string(), vec![1u8, 2, 3])));
    assert_eq!(
        read_uploaded_cover("data:image/gif;base64,!!!"),
        Err("Не получилось декодировать обложку.".to_string())
    );
    assert_eq!(read_uploaded_cover("data:image/gif;base64,"), Err("Файл обложки пустой.".to_string()));
    assert_eq!(uploaded_cover_bytes(None), Err("Не получилось декодировать обложку.".to_string()));
    assert_eq!(uploaded_cover_bytes(Some(vec![7u8])), Ok(vec![7u8]));
}

#[test]
fn uploaded_cover_name_is_hashed_key() {
    let name = uploaded_cover_name("sodium", "png");
    assert_eq!(name.len(), 24 + 4);
    assert!(name.ends_with(".png"));
    assert!(name[..24].chars().all(|c| c.is_ascii_hexdigit() && !c.is_ascii_uppercase()));
    assert_ne!(uploaded_cover_name("iris", "png"), name);
}

#[test]
fn sync_request_must_ask_for_something() {
    let none = SyncProviderDataRequest { identify: false, labels: false, assets: false };
    assert_eq!(sync_plan(&none).err(), Some("Выбери хотя бы одну категорию.".to_string()));
    let identify = SyncProviderDataRequest { identify: true, labels: false, assets: false };
    assert!(matches!(sync_plan(&identify), Ok(None)));
    let assets = SyncProviderDataRequest { identify: false, labels: false, assets: true };
    let flags = sync_plan(&assets).ok().unwrap().unwrap();
    assert!(!flags.labels && !flags.force_labels);
    assert!(flags.covers && flags.dependencies && flags.force_covers);
    let labels = SyncProviderDataRequest { identify: true, labels: true, assets: false };
    let flags = sync_plan(&labels).ok().unwrap().unwrap();
    assert!(flags.labels && flags.force_labels && !flags.covers);
}

#[test]
fn linked_mods_are_counted() {
    let mut mods = scan();
    mods[0].source = "modrinth".to_string();
    mods[2].source = "curseforge".to_string();
    assert_eq!(linked_count(&mods), 2);
    assert_eq!(newly_linked(2, 5), 3);
    assert_eq!(newly_linked(5, 2), 0);
}

#[test]
fn sync_counts_add_covers_and_dependencies() {
    let report = UnifiedSyncReport { covers_downloaded: 3, labels_refreshed: 4, dependencies_updated: 2 };
    let counts = sync_counts(1, Some(&report));
    assert_eq!((counts.linked, counts.labels_refreshed, counts.assets_refreshed), (1, 4, 5));
    let counts = sync_counts(0, None);
    assert_eq!((counts.labels_refreshed, counts.assets_refreshed), (0, 0));
    assert_eq!(labels_synced(0), None);
    assert_eq!(labels_synced(4), Some(4));
}

#[test]
fn folder_size_saturates() {
    assert_eq!(folder_size(&vec![1, 2, 3]), 6);
    assert_eq!(folder_size(&vec![u64::MAX, 5]), u64::MAX);
    assert_eq!(folder_size(&Vec::new()), 0);
}

#[test]
fn data_usage_totals_the_parts() {
    let usage = data_usage(10, Some(5), 2, 3, 4);
    assert_eq!(usage.covers_cache, 15);
    assert_eq!(usage.total, 24);
    let usage = data_usage(10, None, 0, 0, 0);
    assert_eq!((usage.covers_cache, usage.total), (10, 10));
}

#[test]
fn used_by_lists_users_by_name() {
    let mut mods = vec![
        entry("lib", "Library", &[]),
        entry("zeta", "Zeta", &[]),
        entry("alpha", "Alpha", &[]),
        entry("lib", "Library copy", &[]),
    ];
    mods[1].resolved_dependencies = vec!["lib".to_string(), "unknown".to_string()];
    mods[2].resolved_dependencies = vec!["lib".to_string(), "alpha".to_string()];
    mods[0].resolved_dependencies = vec!["lib".to_string()];
    attach_used_by(&mut mods);
    assert_eq!(mods[0].used_by, vec!["alpha".to_string(), "zeta".to_string()]);
    assert!(mods[1].used_by.is_empty());
    assert!(mods[2].used_by.is_empty());
    assert!(mods[3].used_by.is_empty());
    assert_eq!(mods[1].display_name, "Zeta");
}
