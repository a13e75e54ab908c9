use codemux::config::{get_config_path, parse_config_str, platform_config_dir, unreadable_config_warning, Config};
use codemux::detect::{detect_with_env_lookup, Multiplexer};
use codemux::launch::{resolve_auto_attach, resolve_session_name};
use codemux::launcher::{MuxLauncher, TmuxLauncher, ZellijLauncher};
use codemux::sanitize::{sanitize_session_name, sanitize_session_name_full};

#[test]
fn env_overrides_give_unique_tmux_session_without_attach() {
    let config = parse_config_str("multiplexer = \"zellij\"\nauto_attach = true\n");
    let mux = detect_with_env_lookup(&config, Some("tmux"), true, false);
    assert_eq!(format!("{:?}", mux), "Some(Tmux)");
    let auto_attach = resolve_auto_attach(Some("0"), &config);
    assert!(!auto_attach);
    let name = sanitize_session_name("My Project!!");
    assert_eq!(name, "My-Project");
    let full = sanitize_session_name_full("My Project!!");
    let sessions = vec!["My-Project".to_string()];
    let session = resolve_session_name(&name, &full, &sessions, auto_attach);
    assert_eq!(session, "My-Project-2");
    let cmd = TmuxLauncher::new().build_command(&session, "/work/My Project!!", auto_attach);
    assert_eq!(cmd, "tmux new-session -s 'My-Project-2' -c '/work/My Project!!'");
}

#[test]
fn configured_zellij_without_attach_notes_ignored_cwd() {
    let config = parse_config_str("multiplexer = \"zellij\"\nauto_attach = false\n");
    assert_eq!(detect_with_env_lookup(&config, None, true, true), Some(Multiplexer::Zellij));
    let auto_attach = resolve_auto_attach(None, &config);
    assert!(!auto_attach);
    let launcher = ZellijLauncher::new();
    assert!(launcher.cwd_note("/work/config-priority", auto_attach).is_some());
    let cmd = launcher.build_command("config-priority", "/work/config-priority", auto_attach);
    assert_eq!(cmd, "ZELLIJ_SOCKET_DIR='/tmp/z' zellij -s 'config-priority'");
}

#[test]
fn defaults_attach_with_tmux_found_on_path() {
    let config = Config::default();
    assert_eq!(detect_with_env_lookup(&config, None, true, true), Some(Multiplexer::Tmux));
    assert!(resolve_auto_attach(None, &config));
    let cmd = TmuxLauncher::new().build_command("path-priority", "/w", true);
    assert!(cmd.starts_with("tmux new-session -A"));
}

#[test]
fn config_file_location() {
    assert_eq!(get_config_path(Some("/x/cfg"), Some("/home/u/.config")), "/x/cfg/codemux/config.toml");
    assert_eq!(get_config_path(Some("/x/cfg/"), None), "/x/cfg/codemux/config.toml");
    let home = platform_config_dir(Some("/home/u"));
    assert_eq!(home, Some("/home/u/.config".to_string()));
    assert_eq!(get_config_path(None, home.as_deref()), "/home/u/.config/codemux/config.toml");
    assert_eq!(get_config_path(None, None), "config.toml");
    assert!(!unreadable_config_warning(true, false));
    assert!(unreadable_config_warning(true, true));
    assert!(unreadable_config_warning(false, false));
}
