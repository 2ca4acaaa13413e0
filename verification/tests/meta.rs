use mod_manager::instance_meta::{
    game_version_matches, merge_target, pick_majority, target_from_components,
    target_from_instance_cfg, target_has_filters, version_from_folder_names,
    version_matches_target, InstanceTarget,
};
use mod_manager::settings::{remember_instance, Settings};

#[test]
fn version_matches_target_requires_both_filters() {
    let target = InstanceTarget {
        minecraft_version: Some("1.21.1".to_string()),
        loader: Some("neoforge".to_string()),
    };
    assert!(version_matches_target(&["1.21.1".to_string()], &["neoforge".to_string()], &target));
    assert!(!version_matches_target(&["1.21.1".to_string()], &["forge".to_string()], &target));
    assert!(!version_matches_target(&["1.21".to_string()], &["neoforge".to_string()], &target));
}

#[test]
fn instance_target_sources() {
    assert!(game_version_matches(" 1.21.1 ", "1.21.1"));
    let empty = InstanceTarget { minecraft_version: Some("  ".to_string()), loader: None };
    assert!(!target_has_filters(&empty));
    assert!(version_matches_target(&[], &[], &empty));
    let mut t = InstanceTarget { minecraft_version: None, loader: Some("fabric".to_string()) };
    merge_target(&mut t, InstanceTarget { minecraft_version: Some("1.20".to_string()), loader: Some("forge".to_string()) });
    assert_eq!(t.minecraft_version.as_deref(), Some("1.20"));
    assert_eq!(t.loader.as_deref(), Some("fabric"));
    let pack = target_from_components(&vec![
        ("net.minecraft".to_string(), Some("1.21.1".to_string())),
        ("net.minecraftforge".to_string(), None),
    ])
    .expect("target");
    assert_eq!(pack.loader.as_deref(), Some("forge"));
    assert!(target_from_components(&vec![("other".to_string(), None)]).is_none());
    let cfg = target_from_instance_cfg("IntendedVersion=1.20.1\nname=My NeoForge pack\n");
    assert_eq!(cfg.minecraft_version.as_deref(), Some("1.20.1"));
    assert_eq!(cfg.loader.as_deref(), Some("neoforge"));
    let names = vec!["1.20".to_string(), "1.20.1".to_string(), "snapshot".to_string(), "1.20.2".to_string()];
    assert_eq!(version_from_folder_names(&names).as_deref(), Some("1.20.2"));
    assert_eq!(version_from_folder_names(&vec!["x".to_string()]), None);
    let votes = vec![("1.20".to_string(), 3u32), ("1.21".to_string(), 3u32), ("1.19".to_string(), 1u32)];
    assert_eq!(pick_majority(&votes, 3).as_deref(), Some("1.21"));
    assert_eq!(pick_majority(&votes, 4), None);
}

#[test]
fn recent_instances_keep_newest_first() {
    let mut settings = Settings::default();
    settings.recent_instances = (0..12).map(|i| format!("/p{i}")).collect();
    remember_instance(&mut settings, "/p5");
    assert_eq!(settings.recent_instances.len(), 12);
    assert_eq!(settings.recent_instances[0], "/p5");
    assert_eq!(settings.recent_instances.iter().filter(|p| *p == "/p5").count(), 1);
    remember_instance(&mut settings, "/new");
    assert_eq!(settings.recent_instances.len(), 12);
    assert_eq!(settings.recent_instances[0], "/new");
    assert_eq!(settings.recent_instances[1], "/p5");
    assert!(!settings.recent_instances.contains(&"/p11".to_string()));
}
