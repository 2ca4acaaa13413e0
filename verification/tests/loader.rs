use mod_manager::loader_update::{
    clean_host, client_info_from_components, install_failure_message, loader_label, needs_update,
    resolve_ssh_host, server_root_from_mods_path, target_version_for, validate_target_version,
};
use mod_manager::neoforge::{
    artifact_url, compare_versions, filter_versions_for_mc, installer_url,
    is_installer_file_name, latest_version, neoforge_prefix_for_mc, parse_maven_versions,
    versions_newest_first,
};
use std::cmp::Ordering;

#[test]
fn maps_minecraft_to_neoforge_prefix() {
    assert_eq!(neoforge_prefix_for_mc("1.21.1").as_deref(), Some("21.1"));
}

#[test]
fn compares_patch_versions() {
    assert_eq!(compare_versions("21.1.231", "21.1.233"), Ordering::Less);
}

#[test]
fn detects_installer_filename() {
    assert!(is_installer_file_name("neoforge-21.1.233-installer.jar"));
    assert!(!is_installer_file_name("neoforge-21.1.233-universal.jar"));
}

#[test]
fn derives_server_root_from_mods_path() {
    assert_eq!(
        server_root_from_mods_path("C:/Users/Admin/Desktop/Crystal Tech 1.21.1/mods").as_deref(),
        Some("C:/Users/Admin/Desktop/Crystal Tech 1.21.1")
    );
}

#[test]
fn neoforge_version_rules() {
    assert_eq!(neoforge_prefix_for_mc(" 1.21 ").as_deref(), Some("21.0"));
    assert_eq!(neoforge_prefix_for_mc("2.1.1"), None);
    assert_eq!(compare_versions("21.1.10", "21.1.9"), Ordering::Greater);
    assert_eq!(compare_versions("21.1-beta", "21.1"), Ordering::Equal);
    let xml = "<metadata>\n <versioning>\n  <versions>\n   <version>21.1.1</version>\n   <version>21.1.2-beta</version>\n   <version>21.0.5</version>\n  </versions>\n  <version>9.9</version>\n </versioning>\n</metadata>";
    let all = parse_maven_versions(xml);
    assert_eq!(all, vec!["21.1.1", "21.1.2-beta", "21.0.5"]);
    assert_eq!(filter_versions_for_mc(&all, "1.21.1"), vec!["21.1.1"]);
    assert!(filter_versions_for_mc(&all, "bad").is_empty());
    let versions = vec!["21.1.9".to_string(), "21.1.10".to_string(), "21.1.2".to_string()];
    assert_eq!(latest_version(&versions).as_deref(), Some("21.1.10"));
    assert_eq!(latest_version(&[]), None);
    assert_eq!(versions_newest_first(&versions), vec!["21.1.10", "21.1.9", "21.1.2"]);
    assert_eq!(
        installer_url("21.1.1"),
        "https://maven.neoforged.net/releases/net/neoforged/neoforge/21.1.1/neoforge-21.1.1-installer.jar"
    );
    assert_eq!(
        artifact_url("21.1.1", "universal"),
        "https://maven.neoforged.net/releases/net/neoforged/neoforge/21.1.1/neoforge-21.1.1-universal.jar"
    );
}

#[test]
fn loader_update_rules() {
    assert_eq!(clean_host("  Box "), Some("box".to_string()));
    assert_eq!(clean_host("   "), None);
    assert_eq!(resolve_ssh_host(Some(" "), "Main"), Some("main".to_string()));
    assert_eq!(resolve_ssh_host(Some("Alt"), "Main"), Some("alt".to_string()));
    assert_eq!(loader_label("fabric"), "Fabric");
    assert_eq!(loader_label(""), "NeoForge");
    assert!(needs_update(None, "21.1.1"));
    assert!(needs_update(Some("21.1.0"), "21.1.1"));
    assert!(!needs_update(Some("21.1.1"), "21.1.1"));
    let available = vec!["21.1.1".to_string()];
    assert_eq!(validate_target_version("21.1.1", &available), Ok(()));
    assert_eq!(
        validate_target_version("1.0", &available),
        Err("Версия 1.0 недоступна для этого Minecraft.".to_string())
    );
    assert_eq!(target_version_for(Some(" 21.1.5 "), &None), Ok("21.1.5".to_string()));
    assert_eq!(
        target_version_for(Some(" "), &Some("21.1.1".to_string())),
        Ok("21.1.1".to_string())
    );
    assert_eq!(
        target_version_for(None, &None),
        Err("Не удалось определить целевую версию.".to_string())
    );
    assert_eq!(server_root_from_mods_path("/srv/MODS///"), Some("/srv".to_string()));
    assert_eq!(server_root_from_mods_path("/mods"), None);
    assert_eq!(
        install_failure_message("", "  "),
        "Installer на сервере завершился с ошибкой."
    );
    let info = client_info_from_components(&vec![
        ("net.minecraft".to_string(), Some(" 1.21.1 ".to_string())),
        ("net.neoforged".to_string(), Some("21.1.5".to_string())),
    ]);
    assert_eq!(info.minecraft_version.as_deref(), Some("1.21.1"));
    assert_eq!(info.loader, "neoforge");
    assert_eq!(info.loader_version.as_deref(), Some("21.1.5"));
}
