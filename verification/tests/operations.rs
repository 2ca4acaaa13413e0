use mod_manager::loader_update::{prism_root_index, installer_cleanup_command, server_version_command, server_version_from_output};
use mod_manager::mods::{ModEntry, UNKNOWN_SIDE};
use mod_manager::neoforge::{artifact_file_name, installer_failure_message, neoforge_component};
use mod_manager::server_control::{
    linux_start_command, linux_stop_command, reports_running, windows_running_script, windows_stop_script,
    windows_validate_script, ServerStartConfig,
    already_running_message, check_result, launched_result, resolve_server_root, start_step, status_message,
    stop_after_pause, stop_step, RemoteOs, StartStep, StopAction, StopState,
};
use mod_manager::server_sync::{
    classify_lane_orphans, delete_batch_end, delete_failure, delete_files_command, mod_entry_for_sync_filename,
    mod_side, orphan_names, should_defer_server_upload, sync_labels_needed, sync_upload_side, SyncLane,
};
use mod_manager::ssh_util::{control_path_option, scp_base_args, ssh_base_args};
use mod_manager::tags::ModTags;
use mod_manager::updates::turn_wait;

fn strings(items: &[&str]) -> Vec<String> {
    items.iter().map(|s| s.to_string()).collect()
}

fn jar(key: &str, filename: &str, side: &str) -> ModEntry {
    ModEntry {
        key: key.to_string(),
        filename: filename.to_string(),
        base: filename.to_string(),
        display_name: key.to_string(),
        display_name_locked: false,
        installed_version: None,
        side: side.to_string(),
        library: false,
        technical: false,
        description: String::new(),
        dependencies: Vec::new(),
        resolved_dependencies: Vec::new(),
        jar_dependencies: Vec::new(),
        used_by: Vec::new(),
        cover_url: None,
        cover_path: None,
        cover_manual: false,
        cover_modified_at: None,
        source: "local".to_string(),
        source_url: None,
        has_index: false,
        has_tags: false,
        index_file: None,
        pack_side: None,
        modrinth_id: None,
        modrinth_version_id: None,
        curseforge_id: None,
        curseforge_file_id: None,
        duplicate: false,
        modified_at: String::new(),
        side_mode: String::new(),
        manual_side: String::new(),
        manual_library: false,
        manual_technical: false,
        provider_side: String::new(),
        provider_library: false,
        provider_technical: false,
        disabled: false,
    }
}

#[test]
fn status_messages() {
    assert_eq!(status_message(false, true), "Сервер выключен.");
    assert_eq!(status_message(true, true), "Сервер запущен.");
    assert_eq!(status_message(true, false), "Сервер запускается.");
    assert_eq!(already_running_message(true), "Сервер уже запущен.");
    assert_eq!(already_running_message(false), "Сервер запускается.");
    let r = check_result(RemoteOs::Windows, true, false);
    assert!(r.ok && r.running && !r.ready);
    assert_eq!(r.remote_os, "windows");
    assert_eq!(r.message, "Сервер запускается.");
}

#[test]
fn server_root_comes_from_override_then_settings() {
    assert_eq!(resolve_server_root(Some(" /srv/mc/mods/ "), "/other", ""), Ok("/srv/mc".to_string()));
    assert_eq!(resolve_server_root(Some("  "), "C:\\srv", "/x/mods"), Ok("C:/srv".to_string()));
    assert_eq!(resolve_server_root(None, "", "/x/mods"), Ok("/x".to_string()));
    assert_eq!(resolve_server_root(None, " ", " "), Err("Укажите корень сервера.".to_string()));
}

#[test]
fn start_leaves_a_running_server_alone() {
    match start_step(RemoteOs::Linux, true, true) {
        StartStep::Report(r) => {
            assert!(r.ok && r.running && r.ready);
            assert_eq!(r.message, "Сервер уже запущен.");
            assert_eq!(r.remote_os, "linux");
        },
        StartStep::Launch => panic!("a running server is not started again"),
    }
    assert!(matches!(start_step(RemoteOs::Linux, false, false), StartStep::Launch));
    let r = launched_result(RemoteOs::Windows);
    assert!(r.ok && !r.running);
    assert_eq!(r.message, "Инициализация сервера…");
}

#[test]
fn stopping_walks_its_steps() {
    match stop_step(RemoteOs::Linux, StopState::Checking, false) {
        (_, StopAction::Report(r)) => {
            assert!(r.ok && !r.running);
            assert_eq!(r.message, "Сервер уже выключен.");
        },
        _ => panic!("a stopped server is reported"),
    }
    assert!(matches!(stop_step(RemoteOs::Linux, StopState::Checking, true), (StopState::Checking, StopAction::SendStop)));
    assert!(matches!(
        stop_step(RemoteOs::Linux, StopState::Sent(None), true),
        (StopState::Sent(None), StopAction::PauseAndCheck)
    ));
    match stop_step(RemoteOs::Linux, StopState::Rechecked, true) {
        (_, StopAction::Report(r)) => {
            assert!(!r.ok && r.running);
            assert_eq!(r.message, "Не удалось остановить сервер.");
        },
        _ => panic!("the last check is reported"),
    }
    match stop_step(RemoteOs::Linux, StopState::Rechecked, false) {
        (_, StopAction::Report(r)) => assert_eq!(r.message, "Сервер остановлен."),
        _ => panic!("the last check is reported"),
    }
    assert_eq!(stop_after_pause(Some("boom".to_string()), true), Some("boom".to_string()));
    assert_eq!(stop_after_pause(Some("boom".to_string()), false), None);
    assert_eq!(stop_after_pause(None, true), None);
}

#[test]
fn sync_side_of_a_mod() {
    assert_eq!(mod_side(None), UNKNOWN_SIDE);
    let mut tag = ModTags::default();
    tag.source = "modrinth".to_string();
    assert!(sync_labels_needed(Some(&tag)));
    assert!(should_defer_server_upload(Some(&tag), "universal"));
    assert_eq!(sync_upload_side(Some(&tag), "universal"), "client");
    assert!(should_defer_server_upload(None, "unknown"));
    assert_eq!(sync_upload_side(None, "unknown"), "client");
    assert!(!should_defer_server_upload(None, "universal"));
    assert_eq!(sync_upload_side(None, "server"), "server");
    tag.provider_labels.fetched_at = "2024".to_string();
    assert!(!sync_labels_needed(Some(&tag)));
    assert_eq!(sync_upload_side(Some(&tag), "universal"), "universal");
    tag.source = "local".to_string();
    tag.provider_labels.fetched_at = String::new();
    assert!(!sync_labels_needed(Some(&tag)));
}

#[test]
fn remote_jar_is_matched_by_name_then_identity() {
    let mods = vec![jar("a", "sodium-0.5.jar", "client"), jar("b", "appleskin-neoforge-mc1.21-3.0.7.jar", "universal")];
    assert_eq!(mod_entry_for_sync_filename(&mods, "sodium-0.5.jar"), Some(0));
    assert_eq!(mod_entry_for_sync_filename(&mods, "appleskin-neoforge-mc1.21-3.0.9.jar"), Some(1));
    assert_eq!(mod_entry_for_sync_filename(&mods, "other.jar"), None);
}

#[test]
fn lane_orphans_are_classified_against_the_lane() {
    let mods = vec![jar("b", "appleskin-neoforge-mc1.21-3.0.9.jar", "universal")];
    let details = classify_lane_orphans(
        &mods,
        SyncLane::Server,
        &Vec::new(),
        &strings(&["appleskin-neoforge-mc1.21-3.0.7.jar", "stray.jar"]),
    );
    assert_eq!(details.to_update, 1);
    assert_eq!(details.to_delete, 1);
    assert_eq!(details.delete_names, strings(&["stray.jar"]));
}

#[test]
fn orphans_are_the_jars_not_allowed() {
    assert_eq!(orphan_names(&strings(&["a.jar", "b.jar", "c.jar"]), &strings(&["b.jar"])), strings(&["a.jar", "c.jar"]));
}

#[test]
fn remote_delete_commands() {
    assert_eq!(
        delete_files_command(&strings(&["C:/mods/a.jar", "C:/mods/it's.jar"])),
        "powershell -NoProfile -Command \"Remove-Item -LiteralPath 'C:/mods/a.jar','C:/mods/it''s.jar' -Force -ErrorAction SilentlyContinue\""
    );
    assert_eq!(delete_batch_end(0, 120), 50);
    assert_eq!(delete_batch_end(100, 120), 120);
    assert_eq!(delete_failure("Cannot find path 'x'"), Ok(()));
    assert_eq!(delete_failure("  "), Err("Не удалено.".to_string()));
    assert_eq!(delete_failure(" Access denied "), Err("Access denied".to_string()));
}

#[test]
fn installer_output_becomes_the_message() {
    assert_eq!(installer_failure_message("", "  "), "NeoForge installer не смог создать client.jar.");
    assert_eq!(installer_failure_message(" out", "err "), "out\nerr");
    let long = "x".repeat(300);
    let msg = installer_failure_message(&long, "");
    assert_eq!(msg.chars().count(), 241);
    assert!(msg.ends_with('…'));
}

#[test]
fn neoforge_component_is_found_by_uid() {
    let uids = vec![Some("net.minecraft".to_string()), None, Some("net.neoforged".to_string())];
    assert_eq!(neoforge_component(&uids), Ok(2));
    assert_eq!(
        neoforge_component(&vec![Some("net.minecraft".to_string())]),
        Err("В mmc-pack.json нет компонента net.neoforged.".to_string())
    );
    assert_eq!(artifact_file_name("21.1.1", "client"), "neoforge-21.1.1-client.jar");
}

#[test]
fn server_version_commands() {
    let cmd = server_version_command("C:/srv/mc");
    assert!(cmd.contains("Join-Path -Path 'C:\\srv\\mc' -ChildPath 'libraries\\net\\neoforged\\neoforge'"));
    assert_eq!(server_version_from_output(" 21.1.77 \r\n"), Some("21.1.77".to_string()));
    assert_eq!(server_version_from_output("  "), None);
    let cleanup = installer_cleanup_command("D:/srv");
    assert!(cleanup.contains("Get-ChildItem -LiteralPath 'D:\\srv' -Filter 'neoforge-*-installer.jar'"));
}

#[test]
fn ssh_and_scp_options() {
    let opt = control_path_option("/tmp/s.sock");
    assert_eq!(opt, "ControlPath=/tmp/s.sock");
    assert_eq!(
        ssh_base_args(&opt),
        strings(&[
            "-o", "BatchMode=yes", "-o", "ControlMaster=auto", "-o", "ControlPath=/tmp/s.sock", "-o",
            "ControlPersist=120", "-o", "ConnectTimeout=20",
        ])
    );
    let scp = scp_base_args(&opt);
    assert_eq!(scp[0], "-q");
    assert_eq!(scp.last().unwrap(), "ConnectTimeout=120");
    assert_eq!(scp.len(), 11);
}

#[test]
fn linux_backend_commands() {
    let start = ServerStartConfig::from_settings(" run.sh ");
    assert_eq!(
        linux_start_command("/srv/mc", &start),
        "cd '/srv/mc' && test -f 'run.sh' || { echo MM_SCRIPT_NOT_FOUND >&2; exit 1; } && mkdir -p logs && nohup bash 'run.sh' 'nogui' >> logs/server-control.log 2>&1 &"
    );
    let stop = linux_stop_command("/srv/mc", &start);
    assert!(stop.starts_with("root='/srv/mc'\nfor sig in TERM KILL; do\n"));
    assert!(stop.contains("grep -F \"$root\" | grep -F 'run.sh' | awk"));
    assert!(stop.ends_with("done\ntrue"));
    let bare = linux_stop_command("/srv/mc", &ServerStartConfig::from_settings(""));
    assert!(!bare.contains("grep -F 'run.sh'"));
    assert!(reports_running(" Running \n"));
    assert!(!reports_running(""));
}

#[test]
fn windows_backend_scripts() {
    let v = windows_validate_script("C:/srv/it's");
    assert!(v.starts_with("$root = 'C:/srv/it''s'.Replace('/', '\\').TrimEnd('\\')\n        if (-not (Test-Path"));
    assert!(v.ends_with("{ throw 'MM_ROOT_NOT_DIR' }"));
    let r = windows_running_script("C:/srv");
    assert!(r.contains("$marker = ('libraries/net/neoforged/neoforge/'"));
    assert!(r.ends_with("ForEach-Object { Write-Output 'running' }"));
    let s = windows_stop_script("C:/srv", &ServerStartConfig::from_settings(" Run.BAT "));
    assert!(s.contains("$scriptKey = 'run.bat'\n        $rootKey"));
    assert!(s.contains("$cmdNorm.Contains($rootKey) -or $cmdNorm.Contains($scriptKey)"));
    let plain = windows_stop_script("C:/srv", &ServerStartConfig::from_settings(""));
    assert!(plain.contains("-or ($false)"));
    assert!(!plain.contains("$scriptKey ="));
}

#[test]
fn lookups_wait_their_turn() {
    assert_eq!(turn_wait(200, 180), None);
    assert_eq!(turn_wait(180, 180), None);
    assert_eq!(turn_wait(30, 180), Some(150));
}

#[test]
fn prism_root_is_found_among_ancestors() {
    let names = |items: &[Option<&str>]| -> Vec<Option<String>> { items.iter().map(|n| n.map(|s| s.to_string())).collect() };
    assert_eq!(prism_root_index(&names(&[Some("pack"), Some("Instances"), Some("PrismLauncher"), None])), Some(2));
    assert_eq!(prism_root_index(&names(&[Some("pack"), Some("prismlauncher"), Some("home"), None])), Some(1));
    assert_eq!(prism_root_index(&names(&[Some("pack"), Some("games"), None])), None);
    assert_eq!(prism_root_index(&names(&[Some("instances")])), None);
}
