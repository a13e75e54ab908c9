use codemux::config::Config;
use codemux::detect::{detect_with_env_lookup, path_candidates, Multiplexer};
use std::collections::HashMap;

/// Whether `binary` is a file in one of the directories of `path_env`.
fn find_in_path_with_env(binary: &str, path_env: &str, path_sep: char) -> bool {
    path_candidates(binary, path_env, path_sep).iter().any(|p| std::path::Path::new(p).is_file())
}

/// Detection with the environment taken from `env`; `PATH` probing looks in
/// the `PATH` entry of `env` (absent here, so nothing is found there).
fn detect_multiplexer_with_env(config: &Config, env: &HashMap<String, String>) -> Option<Multiplexer> {
    let path = env.get("PATH").map(|p| p.as_str()).unwrap_or("");
    detect_with_env_lookup(
        config,
        env.get("CODEMUX_MULTIPLEXER").map(|v| v.as_str()),
        find_in_path_with_env("tmux", path, ':'),
        find_in_path_with_env("zellij", path, ':'),
    )
}

#[test]
fn test_env_var_tmux() {
    let mut env = HashMap::new();
    env.insert("CODEMUX_MULTIPLEXER".to_string(), "tmux".to_string());
    let config = Config::default();

    let result = detect_multiplexer_with_env(&config, &env);
    assert_eq!(result, Some(Multiplexer::Tmux));
}

#[test]
fn test_env_var_zellij() {
    let mut env = HashMap::new();
    env.insert("CODEMUX_MULTIPLEXER".to_string(), "zellij".to_string());
    let config = Config::default();

    let result = detect_multiplexer_with_env(&config, &env);
    assert_eq!(result, Some(Multiplexer::Zellij));
}

#[test]
fn test_env_var_case_insensitive() {
    let mut env = HashMap::new();
    env.insert("CODEMUX_MULTIPLEXER".to_string(), "TMUX".to_string());
    let config = Config::default();

    let result = detect_multiplexer_with_env(&config, &env);
    assert_eq!(result, Some(Multiplexer::Tmux));
}

#[test]
fn test_env_var_invalid_falls_through() {
    // Invalid env var should fall through to config
    let mut env = HashMap::new();
    env.insert("CODEMUX_MULTIPLEXER".to_string(), "invalid".to_string());
    let config = Config {
        multiplexer: Some("zellij".to_string()),
        auto_attach: None,
    };

    let result = detect_multiplexer_with_env(&config, &env);
    assert_eq!(result, Some(Multiplexer::Zellij));
}

#[test]
fn test_config_tmux() {
    let env = HashMap::new();
    let config = Config {
        multiplexer: Some("tmux".to_string()),
        auto_attach: None,
    };

    let result = detect_multiplexer_with_env(&config, &env);
    assert_eq!(result, Some(Multiplexer::Tmux));
}

#[test]
fn test_config_zellij() {
    let env = HashMap::new();
    let config = Config {
        multiplexer: Some("zellij".to_string()),
        auto_attach: None,
    };

    let result = detect_multiplexer_with_env(&config, &env);
    assert_eq!(result, Some(Multiplexer::Zellij));
}

#[test]
fn test_env_overrides_config() {
    // Env var should take priority over config
    let mut env = HashMap::new();
    env.insert("CODEMUX_MULTIPLEXER".to_string(), "tmux".to_string());
    let config = Config {
        multiplexer: Some("zellij".to_string()),
        auto_attach: None,
    };

    let result = detect_multiplexer_with_env(&config, &env);
    assert_eq!(result, Some(Multiplexer::Tmux));
}

#[test]
fn test_config_overrides_path() {
    // Config should be used when env is not set (we can't easily test PATH probing,
    // but we verify that with env unset and config set, we get the config value)
    let env = HashMap::new();
    let config = Config {
        multiplexer: Some("zellij".to_string()),
        auto_attach: None,
    };

    let result = detect_multiplexer_with_env(&config, &env);
    assert_eq!(result, Some(Multiplexer::Zellij));
}

#[test]
fn test_default_config_no_env() {
    let env = HashMap::new();
    let config = Config::default();

    // This will probe PATH - result depends on host system
    // We can't assert a specific value, but we can ensure it doesn't panic
    let _result = detect_multiplexer_with_env(&config, &env);
}

#[test]
fn test_multiplexer_enum_equality() {
    assert_eq!(Multiplexer::Tmux, Multiplexer::Tmux);
    assert_eq!(Multiplexer::Zellij, Multiplexer::Zellij);
    assert_ne!(Multiplexer::Tmux, Multiplexer::Zellij);
}

#[test]
fn test_multiplexer_from_name() {
    assert_eq!(Multiplexer::from_name("tmux"), Some(Multiplexer::Tmux));
    assert_eq!(Multiplexer::from_name("zellij"), Some(Multiplexer::Zellij));
    assert_eq!(Multiplexer::from_name("TMUX"), Some(Multiplexer::Tmux));
    assert_eq!(Multiplexer::from_name("ZELLIJ"), Some(Multiplexer::Zellij));
    assert_eq!(Multiplexer::from_name("invalid"), None);
    assert_eq!(Multiplexer::from_name(""), None);
}

// Tests for find_in_path_with_env (testable PATH probing)

#[test]
fn test_find_in_path_missing_binary() {
    // Empty temp directory path that doesn't exist
    let path_env = "/nonexistent/path";

    // Should not find tmux
    assert!(!find_in_path_with_env("tmux", path_env, ':'));
}

#[test]
fn test_find_in_path_empty_path_entries() {
    // PATH with empty entries (double colons) should be handled
    let path_env = "/valid/path::/another/path";

    // Should not panic on empty entries (even though no binary exists)
    assert!(!find_in_path_with_env("nonexistent", path_env, ':'));
}


// Further cases.

#[test]
fn path_probing_decides_when_nothing_is_configured() {
    let config = Config::default();
    assert_eq!(detect_with_env_lookup(&config, None, true, true), Some(Multiplexer::Tmux));
    assert_eq!(detect_with_env_lookup(&config, None, false, true), Some(Multiplexer::Zellij));
    assert_eq!(detect_with_env_lookup(&config, None, false, false), None);
    let bad = Config { multiplexer: Some("screen".to_string()), auto_attach: None };
    assert_eq!(detect_with_env_lookup(&bad, Some("nope"), false, true), Some(Multiplexer::Zellij));
}

#[test]
fn candidates_skip_empty_entries_and_join_with_slash() {
    let c = path_candidates("tmux", "/usr/bin::/opt/bin/:", ':');
    assert_eq!(c, vec!["/usr/bin/tmux".to_string(), "/opt/bin/tmux".to_string()]);
    assert_eq!(path_candidates("/abs/tmux", "/usr/bin", ':'), vec!["/abs/tmux".to_string()]);
    assert!(path_candidates("tmux", "", ':').is_empty());
}

#[test]
fn mixed_case_names_are_recognised() {
    assert_eq!(Multiplexer::from_name("ZeLLiJ"), Some(Multiplexer::Zellij));
    assert_eq!(Multiplexer::from_name("tmux "), None);
}
