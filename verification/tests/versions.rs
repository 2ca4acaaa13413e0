use mod_manager::instance_meta::InstanceTarget;
use mod_manager::provider_versions::{
    backup_name, current_filename, curseforge_version_from_json, download_temp_name, install_result,
    loader_fallback_needed, modrinth_version_from_json, next_filename, resolve_download_url, update_installed_tags,
    versions_for_listing, versions_project_id, CurseforgeFileRecord, InstallProviderVersionRequest,
    ModrinthFileRecord, ModrinthVersionRecord, VersionDownload,
};
use mod_manager::tags::{ModTags, TagFile};
use mod_manager::updates::ProviderVersion;

fn strings(items: &[&str]) -> Vec<String> {
    items.iter().map(|s| s.to_string()).collect()
}

fn file(primary: Option<bool>, name: &str, url: Option<&str>, size: u64) -> ModrinthFileRecord {
    ModrinthFileRecord {
        primary,
        filename: Some(name.to_string()),
        url: url.map(|u| u.to_string()),
        size: Some(size),
    }
}

fn modrinth_record(files: Option<Vec<ModrinthFileRecord>>) -> ModrinthVersionRecord {
    ModrinthVersionRecord {
        id: Some("abc".to_string()),
        version_number: Some("1.2.0".to_string()),
        name: None,
        files,
        game_versions: strings(&["1.20.1"]),
        loaders: strings(&["fabric"]),
        date_published: Some("2024-01-01T00:00:00Z".to_string()),
        downloads: Some(42),
        version_type: Some("release".to_string()),
    }
}

fn curseforge_record() -> CurseforgeFileRecord {
    CurseforgeFileRecord {
        id: Some(4711),
        display_name: Some(Some("Mod 1.0".to_string())),
        name: Some("other".to_string()),
        file_name: Some("mod-1.0.jar".to_string()),
        game_versions: strings(&["1.20.1", "Forge", "NeoForge"]),
        download_url: Some("  https://edge/mod-1.0.jar ".to_string()),
        file_date: Some("2024-02-02".to_string()),
        download_count: Some(7),
        file_length: None,
        file_size_on_disk: Some(900),
        release_type: Some(2),
    }
}

fn version(id: &str, date: Option<&str>, game: &[&str], loaders: &[&str]) -> ProviderVersion {
    ProviderVersion {
        id: id.to_string(),
        file_id: None,
        version_number: id.to_string(),
        name: id.to_string(),
        filename: format!("{id}.jar"),
        download_url: None,
        game_versions: strings(game),
        loaders: strings(loaders),
        date_published: date.map(|d| d.to_string()),
        downloads: None,
        size: None,
        release_type: None,
    }
}

fn request() -> InstallProviderVersionRequest {
    InstallProviderVersionRequest {
        key: "sodium".to_string(),
        source: "modrinth".to_string(),
        project_id: " AANobbMI ".to_string(),
        filename: "sodium-0.5.jar".to_string(),
        version_id: " ver2 ".to_string(),
        file_id: None,
        download_url: None,
        download_filename: Some("sodium-0.6.jar".to_string()),
        version_number: None,
    }
}

#[test]
fn modrinth_version_takes_the_primary_file() {
    let rec = modrinth_record(Some(vec![
        file(None, "extra.jar", Some("https://cdn/extra.jar"), 1),
        file(Some(true), "main.jar", Some(" https://cdn/main.jar "), 2),
    ]));
    let v = modrinth_version_from_json(&rec).unwrap();
    assert_eq!(v.id, "abc");
    assert_eq!(v.file_id, None);
    assert_eq!(v.version_number, "1.2.0");
    assert_eq!(v.name, "1.2.0");
    assert_eq!(v.filename, "main.jar");
    assert_eq!(v.download_url.as_deref(), Some("https://cdn/main.jar"));
    assert_eq!(v.size, Some(2));
    assert_eq!(v.downloads, Some(42));
    assert_eq!(v.release_type.as_deref(), Some("release"));
    assert_eq!(v.game_versions, strings(&["1.20.1"]));
    assert_eq!(v.loaders, strings(&["fabric"]));
}

#[test]
fn modrinth_version_falls_back_to_the_first_file() {
    let rec = modrinth_record(Some(vec![
        file(Some(false), "first.jar", None, 1),
        file(None, "second.jar", None, 2),
    ]));
    let v = modrinth_version_from_json(&rec).unwrap();
    assert_eq!(v.filename, "first.jar");
    assert_eq!(v.download_url, None);
}

#[test]
fn modrinth_version_without_files_or_id_is_skipped() {
    assert!(modrinth_version_from_json(&modrinth_record(None)).is_none());
    assert!(modrinth_version_from_json(&modrinth_record(Some(Vec::new()))).is_none());
    let mut rec = modrinth_record(Some(vec![file(None, "a.jar", None, 1)]));
    rec.id = None;
    assert!(modrinth_version_from_json(&rec).is_none());
}

#[test]
fn modrinth_version_without_number_uses_placeholder() {
    let mut rec = modrinth_record(Some(vec![ModrinthFileRecord { primary: None, filename: None, url: None, size: None }]));
    rec.version_number = None;
    let v = modrinth_version_from_json(&rec).unwrap();
    assert_eq!(v.version_number, "Без версии");
    assert_eq!(v.name, "Без версии");
    assert_eq!(v.filename, "Без версии");
}

#[test]
fn curseforge_version_splits_loaders_from_game_versions() {
    let v = curseforge_version_from_json(&curseforge_record()).unwrap();
    assert_eq!(v.id, "4711");
    assert_eq!(v.file_id.as_deref(), Some("4711"));
    assert_eq!(v.version_number, "Mod 1.0");
    assert_eq!(v.name, "Mod 1.0");
    assert_eq!(v.filename, "mod-1.0.jar");
    assert_eq!(v.download_url.as_deref(), Some("https://edge/mod-1.0.jar"));
    assert_eq!(v.game_versions, strings(&["1.20.1"]));
    assert_eq!(v.loaders, strings(&["forge", "neoforge"]));
    assert_eq!(v.size, Some(900));
    assert_eq!(v.downloads, Some(7));
    assert_eq!(v.release_type.as_deref(), Some("beta"));
}

#[test]
fn curseforge_display_name_of_wrong_kind_gives_placeholder() {
    let mut rec = curseforge_record();
    rec.display_name = Some(None);
    rec.file_name = None;
    rec.file_length = Some(None);
    let v = curseforge_version_from_json(&rec).unwrap();
    assert_eq!(v.name, "Без версии");
    assert_eq!(v.filename, "Без версии");
    assert_eq!(v.size, None);
    let mut rec = curseforge_record();
    rec.display_name = None;
    assert_eq!(curseforge_version_from_json(&rec).unwrap().name, "other");
    rec.id = None;
    assert!(curseforge_version_from_json(&rec).is_none());
}

#[test]
fn listing_filters_and_sorts_newest_first() {
    let target = InstanceTarget { minecraft_version: Some("1.20.1".to_string()), loader: Some("fabric".to_string()) };
    let versions = vec![
        version("old", Some("2023-01-01"), &["1.20.1"], &["fabric"]),
        version("wrong-loader", Some("2024-06-01"), &["1.20.1"], &["forge"]),
        version("new", Some("2024-01-01"), &["1.20.1"], &["fabric"]),
        version("undated", None, &["1.20.1"], &["fabric"]),
    ];
    let listed = versions_for_listing(versions, &target);
    let ids: Vec<&str> = listed.iter().map(|v| v.id.as_str()).collect();
    assert_eq!(ids, vec!["new", "old", "undated"]);
}

#[test]
fn listing_without_filters_keeps_everything() {
    let target = InstanceTarget { minecraft_version: None, loader: Some("  ".to_string()) };
    let versions = vec![
        version("a", Some("2020"), &["1.12"], &["forge"]),
        version("b", Some("2021"), &["1.20"], &["fabric"]),
    ];
    let listed = versions_for_listing(versions, &target);
    let ids: Vec<&str> = listed.iter().map(|v| v.id.as_str()).collect();
    assert_eq!(ids, vec!["b", "a"]);
}

#[test]
fn loader_fallback_only_when_nothing_was_found_with_a_loader() {
    let with_loader = InstanceTarget { minecraft_version: None, loader: Some("fabric".to_string()) };
    let without = InstanceTarget { minecraft_version: Some("1.20".to_string()), loader: None };
    assert!(loader_fallback_needed(false, &with_loader));
    assert!(!loader_fallback_needed(true, &with_loader));
    assert!(!loader_fallback_needed(false, &without));
}

#[test]
fn versions_project_id_prefers_the_request() {
    let mut tags = ModTags::default();
    tags.modrinth_id = " linked ".to_string();
    tags.curseforge_id = "".to_string();
    let file = TagFile { version: 1, updated_at: String::new(), mods: vec![("sodium".to_string(), tags)] };
    assert_eq!(versions_project_id(&Some(" asked ".to_string()), &file, "sodium", "modrinth"), Ok("asked".to_string()));
    assert_eq!(versions_project_id(&None, &file, "sodium", "modrinth"), Ok("linked".to_string()));
    assert_eq!(
        versions_project_id(&None, &file, "sodium", "curseforge"),
        Err("Сначала выбери проект мода у поставщика.".to_string())
    );
    assert_eq!(
        versions_project_id(&None, &file, "other", "modrinth"),
        Err("Сначала выбери проект мода у поставщика.".to_string())
    );
}

#[test]
fn download_url_is_direct_or_asked_from_curseforge() {
    let mut req = request();
    req.download_url = Some(" https://cdn/x.jar ".to_string());
    assert!(matches!(resolve_download_url(&req, "modrinth"), Ok(VersionDownload::Direct(u)) if u == "https://cdn/x.jar"));
    req.download_url = None;
    assert_eq!(
        resolve_download_url(&req, "modrinth").err(),
        Some("У выбранной версии нет ссылки на скачивание.".to_string())
    );
    req.file_id = Some("555".to_string());
    assert!(matches!(
        resolve_download_url(&req, "curseforge"),
        Ok(VersionDownload::AskCurseforge(p, f)) if p == "AANobbMI" && f == "555"
    ));
    req.file_id = None;
    req.version_id = "  ".to_string();
    assert_eq!(resolve_download_url(&req, "curseforge").err(), Some("У версии CurseForge нет file id.".to_string()));
}

#[test]
fn filenames_of_an_install() {
    let mut req = request();
    assert_eq!(current_filename(&req), Ok("sodium-0.5.jar".to_string()));
    assert_eq!(next_filename(&req, &"sodium-0.5.jar".to_string()), "sodium-0.6.jar");
    req.download_filename = Some("   ".to_string());
    assert_eq!(next_filename(&req, &"sodium-0.5.jar".to_string()), "sodium-0.5.jar");
    req.filename = " ".to_string();
    assert_eq!(current_filename(&req), Err("Не задан текущий файл мода.".to_string()));
}

#[test]
fn install_result_reports_the_new_version() {
    let req = request();
    let r = install_result(&req, "modrinth", &"sodium-0.6.jar".to_string(), "123".to_string());
    assert_eq!(r.key, "sodium");
    assert_eq!(r.filename, "sodium-0.6.jar");
    assert_eq!(r.base, "sodium-0.6.jar");
    assert_eq!(r.modified_at, "123");
    assert_eq!(r.installed_version.as_deref(), Some("0.6"));
    assert_eq!(r.modrinth_version_id.as_deref(), Some("ver2"));
    assert_eq!(r.curseforge_file_id, None);
    let mut req = request();
    req.version_number = Some("v9".to_string());
    req.file_id = Some("77".to_string());
    let r = install_result(&req, "curseforge", &"x.jar".to_string(), "1".to_string());
    assert_eq!(r.installed_version.as_deref(), Some("v9"));
    assert_eq!(r.modrinth_version_id, None);
    assert_eq!(r.curseforge_file_id.as_deref(), Some("77"));
}

#[test]
fn installed_version_is_recorded_in_the_tags() {
    let mut tags = TagFile { version: 1, updated_at: String::new(), mods: Vec::new() };
    let req = request();
    update_installed_tags(&mut tags, &req, "modrinth", "sodium-0.5.jar", "sodium-0.6.jar", "now");
    assert_eq!(tags.updated_at, "now");
    assert_eq!(tags.mods.len(), 1);
    let (key, t) = &tags.mods[0];
    assert_eq!(key, "sodium");
    assert_eq!(t.source, "modrinth");
    assert_eq!(t.modrinth_id, "AANobbMI");
    assert_eq!(t.modrinth_version_id, "ver2");
    assert_eq!(t.aliases, strings(&["sodium-0.5.jar", "sodium-0.6.jar"]));
    assert_eq!(t.updated_at, "now");
    update_installed_tags(&mut tags, &req, "modrinth", "sodium-0.6.jar", "sodium-0.6.jar", "later");
    assert_eq!(tags.mods.len(), 1);
    assert_eq!(tags.mods[0].1.aliases, strings(&["sodium-0.5.jar", "sodium-0.6.jar"]));
}

#[test]
fn backup_and_download_names() {
    assert_eq!(backup_name(Some("a.jar"), 17), "a.jar.mod-manager-backup-17");
    assert_eq!(backup_name(None, 0), "mod.jar.mod-manager-backup-0");
    assert_eq!(download_temp_name(99), ".mod-manager-download-99.jar");
}

#[test]
fn listing_keeps_versions_of_the_same_date_in_order() {
    let target = InstanceTarget { minecraft_version: None, loader: None };
    let versions = vec![
        version("a", Some("2024-01-01"), &[], &[]),
        version("b", Some("2024-02-01"), &[], &[]),
        version("c", Some("2024-01-01"), &[], &[]),
        version("d", None, &[], &[]),
        version("e", Some("2024-02-01"), &[], &[]),
    ];
    let listed = versions_for_listing(versions, &target);
    let ids: Vec<&str> = listed.iter().map(|v| v.id.as_str()).collect();
    assert_eq!(ids, vec!["b", "e", "a", "c", "d"]);
}
