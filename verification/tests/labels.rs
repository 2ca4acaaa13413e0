use mod_manager::catalog::{cover_cache_prefix, cover_file_matches, find_catalog_cover, stale_cover_names};
use mod_manager::mods_watch::{should_forward_event, should_suppress_event, suppress_events_for, SuppressWindow};
use mod_manager::provider_labels::{curseforge_side_is_ambiguous, map_provider_side};
use mod_manager::provider_payloads::{
    build_curseforge_labels, build_modrinth_labels, finalize_curseforge_labels, CurseforgeCategory,
    CurseforgeFile, CurseforgeFileIndex, CurseforgeProject, CurseforgeSortableVersion,
    ModrinthProjectFields, ModrinthVersionFields,
};
use mod_manager::tags::ProviderLabelsStore;

const NOW: &str = "2024-05-01T00:00:00Z";

fn strings(items: &[&str]) -> Vec<String> {
    items.iter().map(|s| s.to_string()).collect()
}

fn empty_project() -> CurseforgeProject {
    CurseforgeProject {
        categories: Vec::new(),
        latest_files_indexes: Vec::new(),
        latest_files: Vec::new(),
        latest_early_access_files_indexes: Vec::new(),
    }
}

fn file(id: Option<i64>, versions: &[&str]) -> CurseforgeFile {
    CurseforgeFile { id, game_versions: strings(versions), sortable_game_versions: Vec::new() }
}

#[test]
fn maps_curseforge_client_only_from_game_versions() {
    let project = empty_project();
    let file = file(Some(6662069), &["1.21", "Client", "NeoForge", "1.21.1"]);
    let store = build_curseforge_labels(Some(&project), Some(&file), NOW).expect("labels");
    assert_eq!(store.client_side, "required");
    assert_eq!(store.server_side, "unsupported");
    assert_eq!(map_provider_side(&store).as_deref(), Some("client"));
}

#[test]
fn maps_curseforge_server_only_from_game_versions() {
    let project = empty_project();
    let file = file(Some(1), &["1.21", "Server", "NeoForge"]);
    let store = build_curseforge_labels(Some(&project), Some(&file), NOW).expect("labels");
    assert_eq!(store.client_side, "unsupported");
    assert_eq!(store.server_side, "required");
    assert_eq!(map_provider_side(&store).as_deref(), Some("server"));
}

#[test]
fn maps_curseforge_sounds_neoforge_via_project_files() {
    let project = empty_project();
    let file = file(Some(7218618), &["1.21", "1.21.1", "NeoForge"]);
    let project_files = vec![
        file_without_id(&["1.21", "1.21.1", "NeoForge"]),
        file_without_id(&["Client", "Fabric", "26.1", "26.1.1"]),
    ];
    let store = build_curseforge_labels(Some(&project), Some(&file), NOW).expect("labels");
    assert!(curseforge_side_is_ambiguous(&store));
    let store = finalize_curseforge_labels(store, None, None, Some(&project_files));
    assert_eq!(store.client_side, "required");
    assert_eq!(store.server_side, "unsupported");
    assert_eq!(map_provider_side(&store).as_deref(), Some("client"));
}

fn file_without_id(versions: &[&str]) -> CurseforgeFile {
    file(None, versions)
}

#[test]
fn maps_curseforge_sounds_neoforge_via_modrinth_fallback() {
    let project = empty_project();
    let file = file(Some(7218618), &["1.21", "1.21.1", "NeoForge"]);
    let modrinth = ProviderLabelsStore {
        fetched_at: NOW.to_string(),
        source: "modrinth".to_string(),
        client_side: "required".to_string(),
        server_side: "unsupported".to_string(),
        ..Default::default()
    };
    let store = build_curseforge_labels(Some(&project), Some(&file), NOW).expect("labels");
    let store = finalize_curseforge_labels(store, Some(&modrinth), None, None);
    assert_eq!(store.client_side, "required");
    assert_eq!(store.server_side, "unsupported");
    assert_eq!(map_provider_side(&store).as_deref(), Some("client"));
}

#[test]
fn maps_curseforge_client_only_from_sortable_game_versions() {
    let project = empty_project();
    let file = CurseforgeFile {
        id: Some(7806535),
        game_versions: strings(&["Fabric", "26.1", "26.1.1", "26.1.2"]),
        sortable_game_versions: vec![CurseforgeSortableVersion {
            game_version_name: Some(Some("Client".to_string())),
            game_version: None,
        }],
    };
    let store = build_curseforge_labels(Some(&project), Some(&file), NOW).expect("labels");
    assert_eq!(store.client_side, "required");
    assert_eq!(store.server_side, "unsupported");
    assert_eq!(map_provider_side(&store).as_deref(), Some("client"));
}

#[test]
fn curseforge_labels_need_project_data() {
    let file = file(Some(1), &["1.21"]);
    assert!(build_curseforge_labels(None, Some(&file), NOW).is_none());
}

#[test]
fn curseforge_labels_take_categories_loaders_and_versions() {
    let project = CurseforgeProject {
        categories: vec![
            CurseforgeCategory { slug: Some("Tech".to_string()), name: Some("Ignored".to_string()) },
            CurseforgeCategory { slug: None, name: Some(" Map Information ".to_string()) },
            CurseforgeCategory { slug: Some("tech".to_string()), name: None },
            CurseforgeCategory { slug: None, name: None },
        ],
        latest_files_indexes: vec![
            CurseforgeFileIndex { file_id: Some(5), mod_loader: Some(6), game_version: Some("1.21.1".to_string()) },
            CurseforgeFileIndex { file_id: Some(5), mod_loader: Some(4), game_version: Some("1.21.2".to_string()) },
            CurseforgeFileIndex { file_id: Some(9), mod_loader: Some(1), game_version: Some("1.20".to_string()) },
        ],
        latest_files: Vec::new(),
        latest_early_access_files_indexes: Vec::new(),
    };
    let file = file(Some(5), &["1.21", "client", "1.21", " 1.21.1 "]);
    let store = build_curseforge_labels(Some(&project), Some(&file), NOW).expect("labels");
    assert_eq!(store.categories, strings(&["tech", "map-information"]));
    assert_eq!(store.loaders, strings(&["neoforge", "fabric"]));
    assert_eq!(store.game_versions, strings(&["1.21", "1.21.1", "1.21.2"]));
    assert_eq!(store.source, "curseforge");
    assert_eq!(store.fetched_at, NOW);
}

#[test]
fn curseforge_side_settles_from_project_latest_files() {
    let mut project = empty_project();
    project.latest_early_access_files_indexes = vec![file(None, &["Server"])];
    let file = file(Some(1), &["1.21"]);
    let store = build_curseforge_labels(Some(&project), Some(&file), NOW).expect("labels");
    let store = finalize_curseforge_labels(store, None, Some(&project), None);
    assert_eq!(store.client_side, "unsupported");
    assert_eq!(store.server_side, "required");
}

#[test]
fn curseforge_side_defaults_to_optional() {
    let project = empty_project();
    let file = file(Some(1), &["1.21"]);
    let store = build_curseforge_labels(Some(&project), Some(&file), NOW).expect("labels");
    let store = finalize_curseforge_labels(store, None, Some(&project), Some(&Vec::new()));
    assert_eq!(store.client_side, "optional");
    assert_eq!(store.server_side, "optional");
}

#[test]
fn modrinth_labels_merge_version_loaders() {
    let project = ModrinthProjectFields {
        categories: strings(&["optimization"]),
        additional_categories: strings(&["utility"]),
        loaders: strings(&["fabric"]),
        game_versions: strings(&["1.21"]),
        client_side: Some(" required ".to_string()),
        server_side: None,
    };
    let version = ModrinthVersionFields {
        loaders: strings(&["neoforge", "fabric", " "]),
        game_versions: strings(&["1.21.1"]),
    };
    let store = build_modrinth_labels(&project, Some(&version), NOW);
    assert_eq!(store.source, "modrinth");
    assert_eq!(store.loaders, strings(&["fabric", "neoforge"]));
    assert_eq!(store.game_versions, strings(&["1.21", "1.21.1"]));
    assert_eq!(store.client_side, "required");
    assert_eq!(store.server_side, "");
    assert_eq!(store.categories, strings(&["optimization"]));
    let bare = build_modrinth_labels(&project, None, NOW);
    assert_eq!(bare.loaders, strings(&["fabric"]));
}

#[test]
fn cover_prefix_prefers_modrinth_id() {
    assert_eq!(cover_cache_prefix(Some("AANobbMI"), Some("238222")).as_deref(), Some("modrinth-AANobbMI"));
    assert_eq!(cover_cache_prefix(Some(""), Some("238222")).as_deref(), Some("curseforge-238222"));
    assert_eq!(cover_cache_prefix(None, Some("")), None);
}

#[test]
fn cover_files_match_by_key_and_extension() {
    assert!(cover_file_matches("Modrinth-abc.PNG", "modrinth-abc"));
    assert!(cover_file_matches("modrinth-abc_2.webp", "modrinth-abc"));
    assert!(!cover_file_matches("modrinth-abcd.png", "modrinth-abc"));
    assert!(!cover_file_matches("modrinth-abc.txt", "modrinth-abc"));
    assert!(!cover_file_matches("modrinth-abc", "modrinth-abc"));
    let names = strings(&["other.png", "modrinth-abc.tmp", "modrinth-abc.jpg", "modrinth-abc.png"]);
    assert_eq!(find_catalog_cover(&names, "modrinth-abc"), Some(2));
    assert_eq!(find_catalog_cover(&names, "curseforge-1"), None);
    assert_eq!(stale_cover_names("k"), strings(&["k.png", "k.jpg", "k.jpeg", "k.webp", "k.gif"]));
}

#[test]
fn suppressed_events_stay_held_until_the_window_ends() {
    let mut window = SuppressWindow::new();
    suppress_events_for(&mut window, 1_000, 4_000);
    assert!(should_suppress_event(&window, 5_000));
    assert!(!should_suppress_event(&window, 5_001));
    suppress_events_for(&mut window, 2_000, 1_000);
    assert_eq!(window.until_ms, 5_000);
    suppress_events_for(&mut window, u64::MAX - 1, 10);
    assert_eq!(window.until_ms, u64::MAX);
    assert!(!should_forward_event(&SuppressWindow::new(), 1, false));
    assert!(should_forward_event(&SuppressWindow::new(), 1, true));
}
