use mod_manager::server_sync::{
    classify_sync_changes, join_remote_path, lane_allowed_names, mod_applies_to_lane,
    mod_sync_identity_key, parse_remote_index, remote_file_matches, LaneRunState,
    ServerSyncProgress, SyncLane,
};

#[test]
fn server_sync_identity_key_ignores_version_suffix() {
    assert_eq!(
        mod_sync_identity_key("appleskin-neoforge-mc1.21-3.0.9.jar"),
        mod_sync_identity_key("appleskin-neoforge-mc1.21-3.0.7.jar")
    );
    assert_eq!(
        mod_sync_identity_key("AE2NetworkAnalyzer-1.21-2.1.5-neoforge.jar"),
        mod_sync_identity_key("AE2NetworkAnalyzer-1.21-2.1.3-neoforge.jar")
    );
}

#[test]
fn server_sync_classify_pairs_version_updates() {
    let pending = vec![
        "appleskin-neoforge-mc1.21-3.0.9.jar".to_string(),
        "brand-new-mod-1.0.0.jar".to_string(),
    ];
    let orphans = vec![
        "appleskin-neoforge-mc1.21-3.0.7.jar".to_string(),
        "removed-mod-old.jar".to_string(),
    ];
    let local_lane_names = pending.clone();
    let counts = classify_sync_changes(&pending, &orphans, &local_lane_names);
    assert_eq!(counts.to_update, 1);
    assert_eq!(counts.to_upload, 1);
    assert_eq!(counts.to_delete, 1);
}

#[test]
fn server_sync_classify_pairs_already_synced_replacement() {
    let pending = vec!["brand-new-mod-1.0.0.jar".to_string()];
    let orphans = vec!["ae2wtlib-19.3.0.jar".to_string()];
    let local_lane_names = vec![
        "ae2wtlib-19.5.0.jar".to_string(),
        "brand-new-mod-1.0.0.jar".to_string(),
    ];
    let counts = classify_sync_changes(&pending, &orphans, &local_lane_names);
    assert_eq!(counts.to_update, 1);
    assert_eq!(counts.to_upload, 1);
    assert_eq!(counts.to_delete, 0);
    assert_eq!(counts.update_pairs[0].remote, "ae2wtlib-19.3.0.jar");
    assert_eq!(counts.update_pairs[0].local, "ae2wtlib-19.5.0.jar");
}

#[test]
fn mod_identity_key_ignores_version_suffix() {
    assert_eq!(
        mod_sync_identity_key("appleskin-neoforge-mc1.21-3.0.9.jar"),
        mod_sync_identity_key("appleskin-neoforge-mc1.21-3.0.7.jar")
    );
    assert_eq!(
        mod_sync_identity_key("AE2NetworkAnalyzer-1.21-2.1.5-neoforge.jar"),
        mod_sync_identity_key("AE2NetworkAnalyzer-1.21-2.1.3-neoforge.jar")
    );
}

#[test]
fn mod_classify_pairs_version_updates() {
    let pending = vec![
        "appleskin-neoforge-mc1.21-3.0.9.jar".to_string(),
        "brand-new-mod-1.0.0.jar".to_string(),
    ];
    let orphans = vec![
        "appleskin-neoforge-mc1.21-3.0.7.jar".to_string(),
        "removed-mod-old.jar".to_string(),
    ];
    let local_lane_names = pending.clone();
    let counts = classify_sync_changes(&pending, &orphans, &local_lane_names);
    assert_eq!(counts.to_update, 1);
    assert_eq!(counts.to_upload, 1);
    assert_eq!(counts.to_delete, 1);
}

#[test]
fn mod_classify_pairs_already_synced_replacement() {
    let pending = vec!["brand-new-mod-1.0.0.jar".to_string()];
    let orphans = vec!["ae2wtlib-19.3.0.jar".to_string()];
    let local_lane_names = vec![
        "ae2wtlib-19.5.0.jar".to_string(),
        "brand-new-mod-1.0.0.jar".to_string(),
    ];
    let counts = classify_sync_changes(&pending, &orphans, &local_lane_names);
    assert_eq!(counts.to_update, 1);
    assert_eq!(counts.to_upload, 1);
    assert_eq!(counts.to_delete, 0);
    assert_eq!(counts.update_pairs[0].remote, "ae2wtlib-19.3.0.jar");
    assert_eq!(counts.update_pairs[0].local, "ae2wtlib-19.5.0.jar");
}

#[test]
fn remote_listing_and_paths() {
    let index = parse_remote_index("a.jar|10\r\n  b.jar | 20 \nbad\n|5\nc.jar|x\na.jar|11\n");
    assert_eq!(
        index,
        vec![
            ("a.jar".to_string(), 10),
            ("b.jar ".to_string(), 20),
            ("a.jar".to_string(), 11)
        ]
    );
    assert!(remote_file_matches(&index, "a.jar", 11));
    assert!(!remote_file_matches(&index, "a.jar", 10));
    assert!(!remote_file_matches(&index, "z.jar", 0));
    assert_eq!(join_remote_path("\"/srv/mods/\"", "x.jar"), "/srv/mods/x.jar");
    assert!(mod_applies_to_lane(SyncLane::Server, "universal"));
    assert!(!mod_applies_to_lane(SyncLane::Server, "client"));
    assert!(mod_applies_to_lane(SyncLane::Distribution, "client"));
    assert_eq!(SyncLane::from_str("distribution"), Some(SyncLane::Distribution));
    assert_eq!(SyncLane::from_str("other"), None);
    assert!(lane_allowed_names(&[], SyncLane::Server).is_empty());
}

#[test]
fn lane_progress_and_runs() {
    let mut run = LaneRunState::new();
    assert!(run.try_acquire());
    assert!(!run.try_acquire());
    run.release();
    assert!(run.try_acquire());

    let mut p = ServerSyncProgress::uploading(2, 1, 3, vec!["x.jar".to_string()]);
    p.set_step(1, 2, "a.jar");
    p.add_result(true, false, "a.jar", None);
    p.add_result(false, false, "b.jar", Some("b.jar: boom".to_string()));
    p.finish(false);
    assert!(p.done && !p.ok && !p.active);
    assert_eq!(p.uploaded, 1);
    assert_eq!(p.skipped, 1);
    assert_eq!(p.errors, vec!["b.jar: boom".to_string()]);
    let failed = ServerSyncProgress::failed_start("no".to_string());
    assert!(failed.done && !failed.ok);
}
