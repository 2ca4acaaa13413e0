use mod_manager::mods::scan_entries;
use mod_manager::file_identity::jar_names;
use mod_manager::instance_meta::target_from_mmc_pack;
use mod_manager::instance_registry::{cache_status, mark_prepared, plan_bootstrap, InstanceRegistry};
use mod_manager::loader_update::client_info_from_mmc_pack;
use mod_manager::pack_index::{mmc_pack_components, selected_modpack_from_json};
use mod_manager::settings::order_modpack_dirs;
use mod_manager::updates::{sort_candidates_by_title, ModUpdateCandidate};
use std::collections::BTreeMap;

use mod_manager::provider_search::{batch_id_params, batch_results, curseforge_batch_body, CurseforgeBatch};
use mod_manager::server_control::encode_powershell;
use mod_manager::loader_update::{
    apply_begin, apply_plan, apply_result, apply_step, ApplyAction, ApplyEvent, ApplyPhase, NeoForgeApplyRequest,
    NeoForgeCheckResult,
};
use mod_manager::file_identity::mods_fingerprint;
use mod_manager::instance_registry::display_name_for;
use mod_manager::mods::{IndexInfo, ModEntry, UNKNOWN_SIDE};
use mod_manager::pack_index::{index_entry_from_text, jar_json_metadata, merge_index};
use mod_manager::prefetch::{
    mod_sync_plan, sync_mod_tags, CoverPick, CurseforgeDependency, ModPayloads, ModrinthDependency, SyncFlags,
    UnifiedSyncReport,
};
use mod_manager::provider_payloads::{ModrinthProjectFields, ModrinthVersionFields};
use mod_manager::server_sync::{lane_result, lane_run_start, lane_step, upload_error_message, LaneAction, LaneEvent, LanePhase};
use mod_manager::settings::{selected_instance, Settings};
use mod_manager::tags::{ModTags, ProviderLabelsStore, TagFile};
use mod_manager::updates::{
    latest_fetch_first, latest_fetch_next, latest_fetch_retry, latest_fetch_start, FetchJob, FetchReply,
    ProjectRef, ProviderVersion,
};
use sha2::{Digest, Sha256};

fn strings(items: &[&str]) -> Vec<String> {
    items.iter().map(|s| s.to_string()).collect()
}

// ---------------------------------------------------------------------------
// Instance folder, fingerprint, packwiz index, jar metadata
// ---------------------------------------------------------------------------

#[test]
fn display_name_is_the_last_folder_or_the_default() {
    assert_eq!(display_name_for("/games/Crystal Tech 1.21.1"), "Crystal Tech 1.21.1");
    assert_eq!(display_name_for("/games/pack/"), "pack");
    assert_eq!(display_name_for("/"), "Сборка");
    assert_eq!(display_name_for(""), "Сборка");
}

#[test]
fn no_instance_chosen_is_an_error() {
    let mut settings = Settings::default();
    settings.instance_root = None;
    assert_eq!(selected_instance(&settings), Err("Выбери папку сборки в настройках.".to_string()));
    settings.instance_root = Some("/games/pack".to_string());
    assert_eq!(selected_instance(&settings), Ok("/games/pack".to_string()));
}

#[test]
fn fingerprint_hashes_the_sorted_jar_lines() {
    let jars = vec![
        ("b.jar".to_string(), 20u64),
        ("notes.txt".to_string(), 5u64),
        ("a.jar".to_string(), 10u64),
        (".jar".to_string(), 1u64),
    ];
    let expected = format!("{:x}", Sha256::digest("a.jar:10\nb.jar:20".as_bytes()));
    assert_eq!(mods_fingerprint(&jars), expected);
    let reordered = vec![("a.jar".to_string(), 10u64), ("b.jar".to_string(), 20u64)];
    assert_eq!(mods_fingerprint(&reordered), expected);
    let touched = vec![("a.jar".to_string(), 11u64), ("b.jar".to_string(), 20u64)];
    assert_ne!(mods_fingerprint(&touched), expected);
    let empty: Vec<(String, u64)> = Vec::new();
    assert_eq!(mods_fingerprint(&empty), format!("{:x}", Sha256::digest("".as_bytes())));
}

const SODIUM_INDEX: &str = "name = \"Sodium\"\nfilename = \"sodium-0.5.8.jar\"\nside = \"client\"\n\n[download]\nurl = \"https://cdn.modrinth.com/x.jar\"\n\n[update.modrinth]\nmod-id = \"AANobbMI\"\nversion = \"yaoBL9D9\"\n\n[update.curseforge]\nproject-id = 394468\nfile-id = 5000001\n";

#[test]
fn index_file_gives_the_entry_for_its_jar() {
    let (jar, info) = index_entry_from_text("sodium.pw.toml", SODIUM_INDEX).expect("entry");
    assert_eq!(jar, "sodium-0.5.8.jar");
    assert_eq!(info.index_file, "sodium.pw.toml");
    assert_eq!(info.slug, "sodium");
    assert_eq!(info.name.as_deref(), Some("Sodium"));
    assert_eq!(info.side.as_deref(), Some("client"));
    assert_eq!(info.modrinth_id.as_deref(), Some("AANobbMI"));
    assert_eq!(info.modrinth_version_id.as_deref(), Some("yaoBL9D9"));
    assert_eq!(info.curseforge_id.as_deref(), Some("394468"));
    assert_eq!(info.curseforge_file_id.as_deref(), Some("5000001"));
}

#[test]
fn index_file_without_jar_or_of_another_kind_gives_nothing() {
    assert!(index_entry_from_text("sodium.toml", SODIUM_INDEX).is_none());
    assert!(index_entry_from_text("sodium.pw.toml", "name = \"Sodium\"\n").is_none());
    assert!(index_entry_from_text("sodium.pw.toml", "this is [not toml").is_none());
    let (_, info) = index_entry_from_text("lib.pw.toml", "filename = \"lib.jar\"\n").expect("entry");
    assert_eq!(info.name, None);
    assert_eq!(info.modrinth_id, None);
}

fn info(index_file: &str) -> IndexInfo {
    IndexInfo {
        index_file: index_file.to_string(),
        slug: index_file.trim_end_matches(".pw.toml").to_string(),
        name: None,
        side: None,
        modrinth_id: None,
        modrinth_version_id: None,
        curseforge_id: None,
        curseforge_file_id: None,
    }
}

#[test]
fn later_index_file_for_the_same_jar_wins_in_place() {
    let mut index: Vec<(String, IndexInfo)> = Vec::new();
    merge_index(&mut index, ("a.jar".to_string(), info("a.pw.toml")));
    merge_index(&mut index, ("b.jar".to_string(), info("b.pw.toml")));
    merge_index(&mut index, ("a.jar".to_string(), info("a-new.pw.toml")));
    assert_eq!(index.len(), 2);
    assert_eq!(index[0].0, "a.jar");
    assert_eq!(index[0].1.index_file, "a-new.pw.toml");
    assert_eq!(index[1].0, "b.jar");
}

#[test]
fn jar_json_metadata_is_cleaned() {
    let (name, version, id) = jar_json_metadata("{\"id\": \"sodium\", \"name\": \" Sodium \", \"version\": \"0.5.8\"}");
    assert_eq!(name.as_deref(), Some("Sodium"));
    assert_eq!(version.as_deref(), Some("0.5.8"));
    assert_eq!(id.as_deref(), Some("sodium"));
    let (name, version, id) = jar_json_metadata("{\"id\": \"x\", \"name\": \"\", \"version\": \"${version}\"}");
    assert_eq!(name, None);
    assert_eq!(version, None);
    assert_eq!(id.as_deref(), Some("x"));
    assert_eq!(jar_json_metadata("not json"), (None, None, None));
    assert_eq!(jar_json_metadata("{\"id\": 5}"), (None, None, None));
}

// ---------------------------------------------------------------------------
// A lane sync run
// ---------------------------------------------------------------------------

#[test]
fn upload_errors_are_cut_at_forty_seven_bytes() {
    assert_eq!(upload_error_message("a.jar", "boom").as_deref(), Some("a.jar: boom"));
    let long = "x".repeat(60);
    let cut = upload_error_message("a.jar", &long).expect("cut");
    assert_eq!(cut, format!("a.jar: {}…", "x".repeat(40)));
    assert_eq!(cut.len() - "…".len(), 47);
    let exact = "y".repeat(41);
    assert_eq!(upload_error_message("a.jar", &exact).as_deref(), Some(format!("a.jar: {exact}").as_str()));
}

#[test]
fn lane_run_uploads_then_prunes_then_finishes() {
    let (mut run, action) = lane_run_start(2, 3, false);
    assert!(matches!(action, LaneAction::Upload(0)));
    let action = lane_step(&mut run, LaneEvent::Uploaded(Ok(true)));
    assert!(matches!(action, LaneAction::Upload(1)));
    let action = lane_step(&mut run, LaneEvent::Uploaded(Err("b.jar: boom".to_string())));
    assert!(matches!(action, LaneAction::Prune));
    assert!(run.phase == LanePhase::Pruning);
    let action = lane_step(&mut run, LaneEvent::Pruned(Ok(4)));
    assert!(matches!(action, LaneAction::Finish(false)));
    let result = lane_result(run);
    assert_eq!(result.uploaded, 1);
    assert_eq!(result.skipped, 3);
    assert_eq!(result.deleted, 4);
    assert_eq!(result.errors, strings(&["b.jar: boom"]));
}

#[test]
fn lane_run_with_nothing_to_upload_goes_straight_to_pruning() {
    let (mut run, action) = lane_run_start(0, 5, false);
    assert!(matches!(action, LaneAction::Prune));
    let action = lane_step(&mut run, LaneEvent::Pruned(Ok(0)));
    assert!(matches!(action, LaneAction::Finish(true)));
    let result = lane_result(run);
    assert_eq!((result.uploaded, result.skipped, result.deleted), (0, 5, 0));
    assert!(result.errors.is_empty());
}

#[test]
fn lane_run_cancelled_reports_only_that() {
    let (run, action) = lane_run_start(3, 1, true);
    assert!(matches!(action, LaneAction::Abort));
    assert_eq!(lane_result(run).errors, strings(&["Отменено."]));
    let (mut run, _) = lane_run_start(3, 1, false);
    lane_step(&mut run, LaneEvent::Uploaded(Ok(false)));
    let action = lane_step(&mut run, LaneEvent::Cancelled);
    assert!(matches!(action, LaneAction::Abort));
    let result = lane_result(run);
    assert_eq!((result.uploaded, result.skipped, result.deleted), (0, 2, 0));
    assert_eq!(result.errors, strings(&["Отменено."]));
}

// ---------------------------------------------------------------------------
// Fetching the latest versions with retries
// ---------------------------------------------------------------------------

fn project(id: &str) -> ProjectRef {
    ProjectRef { source: "modrinth".to_string(), project_id: id.to_string() }
}

fn version(id: &str) -> ProviderVersion {
    ProviderVersion {
        id: id.to_string(),
        file_id: None,
        version_number: "1.0".to_string(),
        name: "1.0".to_string(),
        filename: "x.jar".to_string(),
        download_url: None,
        game_versions: Vec::new(),
        loaders: Vec::new(),
        date_published: None,
        downloads: None,
        size: None,
        release_type: None,
    }
}

fn first_job(job: FetchJob) -> ProjectRef {
    match job {
        FetchJob::First(p) => p,
        _ => panic!("expected a first-round lookup"),
    }
}

#[test]
fn latest_fetch_retries_rate_limited_projects() {
    let mut run = latest_fetch_start(vec![project("a"), project("b"), project("c")]);
    let c = first_job(latest_fetch_next(&mut run));
    assert_eq!(c.project_id, "c");
    latest_fetch_first(&mut run, c, FetchReply::Error("HTTP 429 Too Many Requests".to_string()));
    let b = first_job(latest_fetch_next(&mut run));
    assert_eq!(b.project_id, "b");
    latest_fetch_first(&mut run, b, FetchReply::Found(version("vb")));
    let a = first_job(latest_fetch_next(&mut run));
    assert_eq!(a.project_id, "a");
    latest_fetch_first(&mut run, a, FetchReply::Error("connection reset".to_string()));
    assert_eq!(run.retries.len(), 2);

    // Retry round: "c" first, at once.
    let (p, wait) = match latest_fetch_next(&mut run) {
        FetchJob::Retry(p, wait) => (p, wait),
        _ => panic!("expected a retry"),
    };
    assert_eq!((p.project_id.as_str(), wait), ("c", 0));
    latest_fetch_retry(&mut run, p, FetchReply::Error("timeout".to_string()));
    let (p, wait) = match latest_fetch_next(&mut run) {
        FetchJob::Retry(p, wait) => (p, wait),
        _ => panic!("expected a retry"),
    };
    assert_eq!((p.project_id.as_str(), wait), ("c", 450));
    latest_fetch_retry(&mut run, p, FetchReply::Found(version("vc")));

    // A pause before the next project, then "a".
    assert!(matches!(latest_fetch_next(&mut run), FetchJob::Pause(250)));
    let (p, wait) = match latest_fetch_next(&mut run) {
        FetchJob::Retry(p, wait) => (p, wait),
        _ => panic!("expected a retry"),
    };
    assert_eq!((p.project_id.as_str(), wait), ("a", 0));
    latest_fetch_retry(&mut run, p, FetchReply::Error("HTTP 500".to_string()));
    assert!(matches!(latest_fetch_next(&mut run), FetchJob::Done));
    assert_eq!(run.failed, 1);
    let found: Vec<&str> = run.results.iter().map(|l| l.version.id.as_str()).collect();
    assert_eq!(found, vec!["vb", "vc"]);
}

#[test]
fn latest_fetch_gives_up_after_three_attempts_and_drops_hard_errors() {
    let mut run = latest_fetch_start(vec![project("a"), project("b")]);
    let b = first_job(latest_fetch_next(&mut run));
    latest_fetch_first(&mut run, b, FetchReply::Error("not found".to_string()));
    let a = first_job(latest_fetch_next(&mut run));
    latest_fetch_first(&mut run, a, FetchReply::Error("network down".to_string()));
    assert_eq!(run.retries.len(), 1);
    let mut waits = Vec::new();
    for _ in 0..3 {
        match latest_fetch_next(&mut run) {
            FetchJob::Retry(p, wait) => {
                waits.push(wait);
                latest_fetch_retry(&mut run, p, FetchReply::Error("network down".to_string()));
            },
            _ => panic!("expected a retry"),
        }
    }
    assert_eq!(waits, vec![0, 450, 900]);
    assert!(matches!(latest_fetch_next(&mut run), FetchJob::Done));
    assert_eq!(run.failed, 1);
    assert!(run.results.is_empty());
}

// ---------------------------------------------------------------------------
// One mod of a sync pass
// ---------------------------------------------------------------------------

fn entry(key: &str) -> ModEntry {
    ModEntry {
        key: key.to_string(),
        filename: format!("{key}.jar"),
        base: format!("{key}.jar"),
        display_name: key.to_string(),
        display_name_locked: false,
        installed_version: None,
        side: UNKNOWN_SIDE.to_string(),
        library: false,
        technical: false,
        description: String::new(),
        dependencies: Vec::new(),
        resolved_dependencies: Vec::new(),
        jar_dependencies: Vec::new(),
        used_by: Vec::new(),
        cover_url: None,
        cover_path: None,
        cover_manual: false,
        cover_modified_at: None,
        source: "modrinth".to_string(),
        source_url: None,
        has_index: false,
        has_tags: false,
        index_file: None,
        pack_side: None,
        modrinth_id: None,
        modrinth_version_id: None,
        curseforge_id: None,
        curseforge_file_id: None,
        duplicate: false,
        modified_at: String::new(),
        side_mode: "auto".to_string(),
        manual_side: String::new(),
        manual_library: false,
        manual_technical: false,
        provider_side: String::new(),
        provider_library: false,
        provider_technical: false,
        disabled: false,
    }
}

#[test]
fn sync_of_one_mod_stores_labels_and_new_dependencies() {
    let mut tags = TagFile { version: 1, updated_at: "old".to_string(), mods: Vec::new() };
    let mut report = UnifiedSyncReport::empty();
    let labels = ProviderLabelsStore { fetched_at: "t".to_string(), source: "modrinth".to_string(), ..Default::default() };
    let jar_deps: Vec<(String, Vec<String>)> = Vec::new();
    let dirty = sync_mod_tags(&mut tags, &mut report, &entry("a"), Some(labels), &strings(&["lib"]), &jar_deps, "now");
    assert!(dirty);
    assert_eq!(report.labels_refreshed, 1);
    assert_eq!(report.dependencies_updated, 1);
    assert_eq!(tags.updated_at, "now");
    assert_eq!(tags.mods.len(), 1);
    assert_eq!(tags.mods[0].0, "a");
    assert_eq!(tags.mods[0].1.provider_labels.source, "modrinth");
    assert_eq!(tags.mods[0].1.dependencies, strings(&["lib"]));
    assert_eq!(tags.mods[0].1.updated_at, "now");

    // The same keys again change nothing.
    let dirty = sync_mod_tags(&mut tags, &mut report, &entry("a"), None, &strings(&["lib"]), &jar_deps, "later");
    assert!(!dirty);
    assert_eq!(report.dependencies_updated, 1);
    assert_eq!(tags.updated_at, "now");
    assert_eq!(tags.mods[0].1.updated_at, "now");
}

#[test]
fn sync_of_one_mod_drops_keys_that_point_back() {
    let mut tags = TagFile {
        version: 1,
        updated_at: "old".to_string(),
        mods: vec![("a".to_string(), ModTags { dependencies: strings(&["x"]), ..Default::default() })],
    };
    let mut report = UnifiedSyncReport::empty();
    let jar_deps: Vec<(String, Vec<String>)> = vec![("lib".to_string(), strings(&["a"]))];
    let dirty = sync_mod_tags(&mut tags, &mut report, &entry("a"), None, &strings(&["lib"]), &jar_deps, "now");
    assert!(!dirty);
    assert_eq!(report.dependencies_updated, 0);
    assert_eq!(tags.mods[0].1.dependencies, strings(&["x"]));
    assert_eq!(tags.updated_at, "old");
}

// ---------------------------------------------------------------------------
// Applying a loader update
// ---------------------------------------------------------------------------

fn check_ok(client: Option<&str>, server: Option<&str>) -> NeoForgeCheckResult {
    let mut check = NeoForgeCheckResult::failed(String::new());
    check.ok = true;
    check.latest_version = Some("21.1.200".to_string());
    check.available_versions = strings(&["21.1.200", "21.1.190"]);
    check.client_version = client.map(str::to_string);
    check.server_version = server.map(str::to_string);
    check.server_root = Some("C:/srv".to_string());
    check.warnings = strings(&["w"]);
    check
}

fn request(target: Option<&str>, client: bool, server: bool) -> NeoForgeApplyRequest {
    NeoForgeApplyRequest { target_version: target.map(str::to_string), update_client: client, update_server: server, ssh_host: None }
}

#[test]
fn apply_needs_a_side_and_an_instance() {
    assert_eq!(apply_begin(false, false, &Some("/x".to_string())), Err("Выберите клиент и/или сервер.".to_string()));
    assert_eq!(apply_begin(true, false, &Some("  ".to_string())), Err("Сначала выберите инстанс.".to_string()));
    assert_eq!(apply_begin(false, true, &Some(" /x ".to_string())), Ok("/x".to_string()));
}

#[test]
fn apply_plan_checks_the_target() {
    let mut failed = check_ok(None, None);
    failed.ok = false;
    failed.message = "Проверка NeoForge.".to_string();
    assert_eq!(apply_plan(&request(None, true, false), "", failed).err(), Some("Проверка NeoForge.".to_string()));
    assert_eq!(
        apply_plan(&request(Some("20.0.1"), true, false), "", check_ok(None, None)).err(),
        Some("Версия 20.0.1 недоступна для этого Minecraft.".to_string())
    );
    let mut no_latest = check_ok(None, None);
    no_latest.latest_version = None;
    assert_eq!(
        apply_plan(&request(Some("  "), true, false), "", no_latest).err(),
        Some("Не удалось определить целевую версию.".to_string())
    );
    let run = apply_plan(&request(Some(" 21.1.190 "), true, true), " Host ", check_ok(None, None)).ok().expect("run");
    assert_eq!(run.target, "21.1.190");
    assert_eq!(run.host.as_deref(), Some("host"));
    assert!(run.phase == ApplyPhase::Start);
}

#[test]
fn apply_updates_client_then_server() {
    let mut run = apply_plan(&request(None, true, true), "srv", check_ok(Some("21.1.100"), Some("21.1.100"))).ok().expect("run");
    match apply_step(&mut run, ApplyEvent::Begin) {
        ApplyAction::UpdateClient(t) => assert_eq!(t, "21.1.200"),
        _ => panic!("expected the client update"),
    }
    let files = strings(&["neoforge-21.1.200.jar", "removed:installer.jar"]);
    match apply_step(&mut run, ApplyEvent::ClientApplied(Ok(files))) {
        ApplyAction::UpdateServer(host, root, t) => assert_eq!((host.as_str(), root.as_str(), t.as_str()), ("srv", "C:/srv", "21.1.200")),
        _ => panic!("expected the server update"),
    }
    assert!(matches!(apply_step(&mut run, ApplyEvent::ServerApplied(Ok(strings(&["old.jar"])))), ApplyAction::Finish));
    let result = apply_result(run);
    assert!(result.ok);
    assert_eq!(result.message, "NeoForge обновлён до 21.1.200.");
    assert_eq!(result.client_version.as_deref(), Some("21.1.200"));
    assert_eq!(result.server_version.as_deref(), Some("21.1.200"));
    assert_eq!(
        result.warnings,
        strings(&[
            "w",
            "Клиент: mmc-pack → 21.1.200, jar: neoforge-21.1.200.jar",
            "Удалены installer (клиент): installer.jar",
            "Сервер: installer 21.1.200 выполнен в C:/srv.",
            "Удалены installer (сервер): old.jar",
        ])
    );
}

#[test]
fn apply_notes_sides_already_on_target_and_missing_host() {
    let mut run = apply_plan(&request(None, true, false), "", check_ok(Some("21.1.200"), None)).ok().expect("run");
    assert!(matches!(apply_step(&mut run, ApplyEvent::Begin), ApplyAction::Finish));
    assert_eq!(apply_result(run).warnings, strings(&["w", "Клиент уже на 21.1.200."]));

    let mut run = apply_plan(&request(None, false, true), "", check_ok(None, None)).ok().expect("run");
    match apply_step(&mut run, ApplyEvent::Begin) {
        ApplyAction::Fail(e) => assert_eq!(e, "Укажите SSH host."),
        _ => panic!("expected a failure"),
    }

    let mut run = apply_plan(&request(None, false, true), "srv", check_ok(None, Some("21.1.200"))).ok().expect("run");
    assert!(matches!(apply_step(&mut run, ApplyEvent::Begin), ApplyAction::Finish));
    assert_eq!(apply_result(run).warnings, strings(&["w", "Сервер уже на 21.1.200."]));

    let mut run = apply_plan(&request(None, true, true), "srv", check_ok(None, None)).ok().expect("run");
    apply_step(&mut run, ApplyEvent::Begin);
    match apply_step(&mut run, ApplyEvent::ClientApplied(Err("download failed".to_string()))) {
        ApplyAction::Fail(e) => assert_eq!(e, "download failed"),
        _ => panic!("expected a failure"),
    }
}

// ---------------------------------------------------------------------------
// CurseForge batch requests
// ---------------------------------------------------------------------------

#[test]
fn curseforge_batch_body_is_the_json_serde_writes() {
    let ids = [394468i64, 22, -3];
    let body = curseforge_batch_body(&CurseforgeBatch::Mods, &ids);
    assert_eq!(body, "{\"modIds\":[394468,22,-3]}");
    let same = serde_json::to_string(&BTreeMap::from([("modIds", ids.to_vec())])).expect("json");
    assert_eq!(body, same);
    assert_eq!(curseforge_batch_body(&CurseforgeBatch::Files, &[7]), "{\"fileIds\":[7]}");
    assert_eq!(curseforge_batch_body(&CurseforgeBatch::Files, &[]), "{\"fileIds\":[]}");
}

#[test]
fn batch_answers_are_collected_by_id() {
    let items = vec![(Some(5i64), "a"), (None, "x"), (Some(7), "b"), (Some(5), "c")];
    let found = batch_results(items);
    assert_eq!(found, vec![("5".to_string(), "c"), ("7".to_string(), "b")]);
}

#[test]
fn sync_plan_for_one_mod_follows_its_provider() {
    let mut item = entry("sodium");
    item.modrinth_id = Some("AANobbMI".to_string());
    let project = ModrinthProjectFields {
        categories: strings(&["optimization"]),
        additional_categories: Vec::new(),
        loaders: strings(&["fabric"]),
        game_versions: strings(&["1.21.1"]),
        client_side: Some("required".to_string()),
        server_side: Some("unsupported".to_string()),
    };
    let version = ModrinthVersionFields { loaders: strings(&["neoforge"]), game_versions: strings(&["1.21.1"]) };
    let modrinth_deps = vec![
        ModrinthDependency { dependency_type: Some("required".to_string()), project_id: Some("P2".to_string()) },
        ModrinthDependency { dependency_type: Some("optional".to_string()), project_id: Some("P3".to_string()) },
    ];
    let curseforge_deps: Vec<CurseforgeDependency> = Vec::new();
    let payloads = ModPayloads {
        modrinth_project: Some(&project),
        modrinth_icon: Some("https://cdn/icon.png".to_string()),
        modrinth_version: Some(&version),
        modrinth_dependencies: &modrinth_deps,
        curseforge_project: None,
        curseforge_logo: None,
        curseforge_file: None,
        curseforge_dependencies: &curseforge_deps,
    };
    let flags = SyncFlags { labels: true, covers: true, dependencies: true, force_covers: false, force_labels: false };
    let lookup = vec![("P2".to_string(), "lib".to_string()), ("P3".to_string(), "extra".to_string())];
    let none: Vec<(String, String)> = Vec::new();
    let plan = mod_sync_plan(&flags, true, false, &item, &payloads, &lookup, &none, "now").expect("plan");
    let labels = plan.labels.expect("labels");
    assert_eq!(labels.source, "modrinth");
    assert_eq!(labels.fetched_at, "now");
    assert_eq!(plan.dependency_keys, strings(&["lib"]));
    assert!(matches!(plan.cover, Some(CoverPick::Url(ref u)) if u == "https://cdn/icon.png"));

    // Dependencies not allowed by the settings, no labels asked, cover set by hand.
    item.cover_manual = true;
    let flags = SyncFlags { labels: false, covers: true, dependencies: true, force_covers: false, force_labels: false };
    let plan = mod_sync_plan(&flags, false, false, &item, &payloads, &lookup, &none, "now").expect("plan");
    assert!(plan.labels.is_none());
    assert!(plan.dependency_keys.is_empty());
    assert!(plan.cover.is_none());

    // A CurseForge-only mod without an API key is passed over.
    let mut cf_only = entry("jei");
    cf_only.curseforge_id = Some("238222".to_string());
    assert!(mod_sync_plan(&flags, true, false, &cf_only, &payloads, &lookup, &none, "now").is_none());
}

#[test]
fn batch_params_escape_control_characters_as_serde_does() {
    let ids = strings(&["tab\there", "bell\u{7}", "é"]);
    let params = batch_id_params(&ids);
    assert_eq!(params, vec!["[\"tab\\there\",\"bell\\u0007\",\"é\"]".to_string()]);
    assert_eq!(params[0], serde_json::to_string(&ids).expect("json"));
}

#[test]
fn powershell_encoding_pads_like_base64() {
    assert_eq!(encode_powershell("ab"), "YQBiAA==");
    assert_eq!(encode_powershell("abc"), "YQBiAGMA");
    assert_eq!(encode_powershell(""), "");
}

// ---------------------------------------------------------------------------
// Instance registry, instance files
// ---------------------------------------------------------------------------


#[test]
fn cache_status_and_bootstrap_follow_the_registry() {
    let root = "/nonexistent-mod-manager-test/Crystal Tech";
    let mut registry = InstanceRegistry { version: 1, instances: Vec::new() };
    assert_eq!(plan_bootstrap(&registry, root, "fp", false), (true, true));
    mark_prepared(&mut registry, root, "fp", true, false, "now");
    let status = cache_status(&registry, Some(root), "fp");
    assert!(status.covers_ready);
    assert!(!status.dependencies_ready);
    assert!(!status.ready);
    assert!(status.needs_dependencies && !status.needs_covers);
    assert_eq!(status.display_name.as_deref(), Some("Crystal Tech"));
    assert_eq!(plan_bootstrap(&registry, root, "fp", false), (false, true));
    assert_eq!(plan_bootstrap(&registry, root, "other", false), (true, true));
    assert_eq!(plan_bootstrap(&registry, root, "fp", true), (true, true));
    let none = cache_status(&registry, None, "fp");
    assert!(none.instance_root.is_none() && !none.ready && !none.needs_covers);
}

#[test]
fn selected_modpack_is_trimmed_and_non_blank() {
    assert_eq!(selected_modpack_from_json("{\"selectedModpack\": \" main \"}").as_deref(), Some("main"));
    assert_eq!(selected_modpack_from_json("{\"selectedModpack\": \"  \"}"), None);
    assert_eq!(selected_modpack_from_json("{\"other\": 1}"), None);
    assert_eq!(selected_modpack_from_json("not json"), None);
}

const MMC_PACK: &str = "{\"components\": [{\"uid\": \"net.minecraft\", \"version\": \"1.21.1\"}, {\"uid\": \"net.neoforged\", \"version\": \" 21.1.77 \"}, {\"version\": \"x\"}], \"formatVersion\": 1}";

#[test]
fn mmc_pack_gives_components_target_and_client() {
    let components = mmc_pack_components(MMC_PACK).expect("components");
    assert_eq!(components.len(), 3);
    assert_eq!(components[0], ("net.minecraft".to_string(), Some("1.21.1".to_string())));
    assert_eq!(components[2], (String::new(), Some("x".to_string())));
    let target = target_from_mmc_pack(MMC_PACK).expect("target");
    assert_eq!(target.minecraft_version.as_deref(), Some("1.21.1"));
    assert_eq!(target.loader.as_deref(), Some("neoforge"));
    let client = client_info_from_mmc_pack(MMC_PACK);
    assert_eq!(client.loader, "neoforge");
    assert_eq!(client.loader_version.as_deref(), Some("21.1.77"));
    assert_eq!(client.minecraft_version.as_deref(), Some("1.21.1"));
    assert!(target_from_mmc_pack("{\"components\": []}").is_none());
    assert!(target_from_mmc_pack("[1, 2]").is_none());
    let empty = client_info_from_mmc_pack("oops");
    assert_eq!((empty.minecraft_version, empty.loader.as_str(), empty.loader_version), (None, "", None));
}

#[test]
fn jar_names_keep_jars_in_order() {
    let names = strings(&["b.jar", "notes.txt", ".jar", "a.jar", "x.jar.disabled"]);
    assert_eq!(jar_names(&names), strings(&["b.jar", "a.jar"]));
}

#[test]
fn modpack_dirs_are_sorted_with_the_selected_first() {
    let dirs = strings(&["/p/c/mods", "/p/a/mods", "/p/b/mods"]);
    assert_eq!(order_modpack_dirs(dirs.clone(), None), strings(&["/p/a/mods", "/p/b/mods", "/p/c/mods"]));
    assert_eq!(
        order_modpack_dirs(dirs.clone(), Some("/p/b/mods".to_string())),
        strings(&["/p/b/mods", "/p/a/mods", "/p/c/mods"])
    );
    assert_eq!(
        order_modpack_dirs(dirs, Some("/p/z/mods".to_string())),
        strings(&["/p/a/mods", "/p/b/mods", "/p/c/mods"])
    );
}

fn candidate(key: &str, title: &str) -> ModUpdateCandidate {
    ModUpdateCandidate {
        key: key.to_string(),
        id: key.to_string(),
        title: title.to_string(),
        summary: None,
        source: "modrinth".to_string(),
        project_id: key.to_string(),
        filename: format!("{key}.jar"),
    }
}

#[test]
fn candidates_sort_by_title_keeping_equal_titles_in_order() {
    let sorted = sort_candidates_by_title(vec![
        candidate("1", "Sodium"),
        candidate("2", "apple"),
        candidate("3", "sodium"),
        candidate("4", "Apple"),
    ]);
    let keys: Vec<&str> = sorted.iter().map(|c| c.key.as_str()).collect();
    assert_eq!(keys, vec!["2", "4", "1", "3"]);
}

#[test]
fn scan_keeps_stored_tags_and_adds_aliases() {
    let mut stored = ModTags::default();
    stored.aliases = vec!["old-name.jar".to_string()];
    stored.description = "kept".to_string();
    stored.side = "client".to_string();
    stored.library = true;
    stored.dependencies = strings(&["lib"]);
    let mut tags = TagFile {
        version: 1,
        updated_at: "old".to_string(),
        mods: vec![("manual:a-1-0".to_string(), stored), ("manual:gone".to_string(), ModTags::default())],
    };
    let jars = vec![("a-1.0.jar".to_string(), "t1".to_string()), ("c-2.jar".to_string(), "t2".to_string())];
    let (entries, changed) = scan_entries(jars, &Vec::new(), &mut tags, "now");
    assert!(changed);
    assert_eq!(entries.len(), 2);
    assert_eq!(tags.mods.len(), 3);
    assert_eq!(tags.mods[0].0, "manual:a-1-0");
    assert_eq!(tags.mods[0].1.description, "kept");
    assert_eq!(tags.mods[0].1.side, "client");
    assert!(tags.mods[0].1.library);
    assert_eq!(tags.mods[0].1.dependencies, strings(&["lib"]));
    assert_eq!(tags.mods[0].1.aliases, strings(&["old-name.jar", "a-1.0.jar"]));
    assert_eq!(tags.mods[1].0, "manual:gone");
    assert_eq!(tags.mods[2].1.aliases, strings(&["c-2.jar"]));
    assert_eq!(tags.mods[2].1.updated_at, "now");
    assert_eq!(entries[0].description, "kept");
}
