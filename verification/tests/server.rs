use mod_manager::rcon::{
    absorb_response, decode_packet, encode_packet, packet_length, packet_length_ok,
    parse_server_properties, port_not_listening_message, rcon_command_text,
    server_properties_remote_path, unescape_property_value, validate_config, RconConfig,
};
use mod_manager::readiness::{
    clean_powershell_stdout, contains_clixml, is_log_ready, log_session_ready,
    stdout_indicates_ready,
};
use mod_manager::server_control::{
    build_start_command, cmd_quoted_path, encode_powershell, explain_remote_error,
    normalize_remote_path, os_from_probe, os_setting, script_remote_path, shell_single_quoted,
    validate_script_leaf, RemoteOs, ServerStartConfig,
};
use mod_manager::ssh_util::{
    command_failure_message, explain_ssh_error, hostname_from_config, short_msg,
};

#[test]
fn ready_when_done_after_boot_markers() {
    let tail = "[main/INFO] ModLauncher running: args\n\
[Server thread/INFO]: Starting Minecraft server on *:25565\n\
[Server thread/INFO]: Done (12.3s)! For help, type \"help\"";
    assert!(is_log_ready(tail));
}

#[test]
fn not_ready_during_mod_loading() {
    let tail = "[main/INFO] ModLauncher running: args\n\
[modloading-worker/INFO]: loading mods";
    assert!(!is_log_ready(tail));
}

#[test]
fn not_ready_when_done_is_from_previous_boot_in_tail() {
    let tail = "[Server thread/INFO]: Done (1.0s)! For help, type \"help\"\n\
[main/INFO] ModLauncher running: args\n\
[modloading-worker/INFO]: scanning mods";
    assert!(!is_log_ready(tail));
}

#[test]
fn ready_when_done_is_followed_by_many_runtime_lines() {
    let tail = "[main/INFO] ModLauncher running: args\n\
[Server thread/INFO]: Done (12.3s)! For help, type \"help\"\n\
[Server thread/INFO]: Player joined\n\
[Server thread/INFO]: Saving chunks";
    assert!(is_log_ready(tail));
}

#[test]
fn ready_when_only_done_in_short_tail() {
    let tail = "[Server thread/INFO]: Done (5.0s)! For help, type \"help\"";
    assert!(is_log_ready(tail));
}

#[test]
fn stdout_ready_marker() {
    assert!(stdout_indicates_ready("ready\n"));
    assert!(!stdout_indicates_ready(""));
}

#[test]
fn strips_clixml_prefix_from_stdout() {
    assert_eq!(clean_powershell_stdout("ready\n#< CLIXML<Objs"), "ready");
    assert!(stdout_indicates_ready("ready\n#< CLIXML<Objs Version=\"1.1\""));
}

#[test]
fn session_state_of_blank_and_unmarked_logs() {
    assert_eq!(log_session_ready("   \n "), Some(false));
    assert_eq!(log_session_ready("[main/INFO] loading"), None);
    assert_eq!(log_session_ready("Done (1s)"), Some(true));
    assert!(contains_clixml("x <Objs Version=\"1\""));
    assert!(!contains_clixml("plain"));
    assert_eq!(clean_powershell_stdout("<Objs Version=\"1.1\">"), "");
}

#[test]
fn parses_rcon_settings_from_properties() {
    let content = "# comment\nenable-rcon=true\nrcon.port=25580\nrcon.password=secret\\:pass\n";
    let config = parse_server_properties(content);
    assert!(config.enabled);
    assert_eq!(config.port, 25580);
    assert_eq!(config.password, "secret:pass");
}

#[test]
fn defaults_rcon_disabled() {
    let config = parse_server_properties("max-players=20\n");
    assert!(!config.enabled);
    assert_eq!(config.port, 25575);
    assert!(config.password.is_empty());
}

#[test]
fn rcon_properties_edge_cases() {
    let config = parse_server_properties("rcon.port=99999\nenable-rcon = TRUE\r\nrcon.port=+1234\n");
    assert!(config.enabled);
    assert_eq!(config.port, 1234);
    assert_eq!(unescape_property_value("a\\=b\\\\c\\x\\"), "a=b\\c\\x\\");
    assert_eq!(
        server_properties_remote_path(" C:\\srv\\pack\\ "),
        "C:/srv/pack/server.properties"
    );
}

#[test]
fn rcon_config_errors() {
    let off = RconConfig { enabled: false, port: 1, password: "x".to_string() };
    assert_eq!(
        validate_config(&off),
        Err("RCON отключён в server.properties (enable-rcon=false).".to_string())
    );
    let no_password = RconConfig { enabled: true, port: 1, password: String::new() };
    assert_eq!(
        validate_config(&no_password),
        Err("В server.properties не задан rcon.password.".to_string())
    );
    let good = RconConfig { enabled: true, port: 1, password: "p".to_string() };
    assert_eq!(validate_config(&good), Ok(()));
    assert_eq!(rcon_command_text("  list "), Ok("list".to_string()));
    assert_eq!(rcon_command_text("   "), Err("Введите команду.".to_string()));
    assert!(port_not_listening_message(25575).starts_with("Порт 25575 не слушается"));
}

#[test]
fn rcon_packet_round_trip() {
    let bytes = encode_packet(7, 2, b"list");
    assert_eq!(bytes.len(), 4 + 14);
    assert_eq!(&bytes[0..4], &14i32.to_le_bytes());
    let length = packet_length(&bytes[0..4]);
    assert_eq!(length, 14);
    assert!(packet_length_ok(length));
    assert!(!packet_length_ok(9));
    assert!(!packet_length_ok(4097));
    let (id, kind, body) = decode_packet(&bytes[4..]);
    assert_eq!(id, 7);
    assert_eq!(kind, 2);
    assert_eq!(body, b"list".to_vec());
    let negative = encode_packet(-1, 0, b"");
    let (id, _, body) = decode_packet(&negative[4..]);
    assert_eq!(id, -1);
    assert!(body.is_empty());
}

#[test]
fn rcon_response_assembly() {
    let mut out = String::new();
    assert!(absorb_response(&mut out, 2, "ignored"));
    assert_eq!(out, "");
    assert!(absorb_response(&mut out, 0, "first"));
    assert!(absorb_response(&mut out, 0, "second"));
    assert_eq!(out, "first\nsecond");
    assert!(!absorb_response(&mut out, 0, ""));
    assert_eq!(out, "first\nsecond");
}

#[test]
fn explains_unknown_host() {
    let message = explain_ssh_error(
        "win-test2",
        "ssh: Could not resolve hostname win-test2: nodename nor servname provided, or not known",
    );
    assert_eq!(message, "«win-test2» не в ~/.ssh/config.");
}

#[test]
fn ssh_error_texts() {
    assert_eq!(explain_ssh_error("h", "Permission denied (publickey)"), "SSH отказал: «h».");
    assert_eq!(explain_ssh_error("h", "ssh: connect: Connection refused"), "Нет связи с «h».");
    assert_eq!(
        explain_ssh_error("h", "scp: /x: No such file"),
        "Не удалось передать файл на сервер (проверьте путь и SSH)."
    );
    assert_eq!(short_msg("  abcdef  ", 4), "abc…");
    assert_eq!(short_msg("abc", 4), "abc");
    assert_eq!(
        command_failure_message("h", "", "", Some(3)),
        "Удалённая команда завершилась с кодом 3."
    );
    assert_eq!(
        command_failure_message("h", "", "", None),
        "Удалённая команда завершилась с кодом -1."
    );
    assert_eq!(
        command_failure_message("h", "#< CLIXML<Objs", "", Some(1)),
        "Служебный вывод PowerShell (не ошибка сервера)."
    );
}

#[test]
fn ssh_config_hostname_parsing() {
    assert_eq!(
        hostname_from_config("user me\nhostname 10.0.0.5\nport 22\n", "box"),
        Some("10.0.0.5".to_string())
    );
    assert_eq!(hostname_from_config("hostname BOX\n", "box"), None);
    assert_eq!(hostname_from_config("user me\n\nhostname x\n", "box"), None);
}

#[test]
fn remote_os_settings() {
    assert_eq!(os_setting(" Win "), Ok(Some(RemoteOs::Windows)));
    assert_eq!(os_setting("linux"), Ok(Some(RemoteOs::Linux)));
    assert_eq!(os_setting(""), Ok(None));
    assert_eq!(
        os_setting("mac"),
        Err("Неизвестная ОС сервера «mac». Используйте auto, windows или linux.".to_string())
    );
    assert_eq!(os_from_probe("Microsoft Windows [Version 10]"), RemoteOs::Windows);
    assert_eq!(os_from_probe("Linux\n"), RemoteOs::Linux);
    assert_eq!(os_from_probe("unknown"), RemoteOs::Windows);
    assert_eq!(RemoteOs::Linux.as_str(), "linux");
}

#[test]
fn launch_script_rules() {
    assert_eq!(validate_script_leaf(" scripts/run.sh "), Ok("run.sh".to_string()));
    assert_eq!(validate_script_leaf("  "), Err("Укажите скрипт запуска.".to_string()));
    assert_eq!(validate_script_leaf("dir/"), Err("Недопустимое имя скрипта.".to_string()));
    assert_eq!(
        validate_script_leaf("a*b.sh"),
        Err("Имя скрипта должно быть файлом в корне сервера.".to_string())
    );
    assert_eq!(normalize_remote_path(" '\"C:\\srv\\x\"' "), "C:/srv/x");
    assert_eq!(
        script_remote_path("/srv/mc/", "start.sh"),
        Ok("/srv/mc/start.sh".to_string())
    );
    let config = ServerStartConfig::from_settings("  Run.BAT ");
    let launch = config.launch_command();
    assert_eq!(launch.script, "Run.BAT");
    assert_eq!(launch.extra_args, vec!["nogui".to_string()]);
    assert_eq!(
        build_start_command("C:/srv/pack/", &config),
        "cd /d \"C:\\srv\\pack\" && call Run.BAT nogui"
    );
    assert_eq!(cmd_quoted_path("C:/a\"b/"), "\"C:\\ab\"");
    assert_eq!(shell_single_quoted("it's"), "'it'\"'\"'s'");
    assert_eq!(
        explain_remote_error("  MM_ROOT_MISSING "),
        Some("Папка сервера не найдена на удалённой машине.".to_string())
    );
    assert_eq!(explain_remote_error("fine"), None);
    assert_eq!(encode_powershell("A"), "QQA=");
}
