use codemux::config::get_config_path_windows;
use codemux::detect::path_candidates_windows;
use codemux::launch::{get_base_name, get_base_name_windows};
use codemux::winpath::{file_name_windows, push_windows};

#[test]
fn windows_base_name_splits_on_backslash() {
    assert_eq!(get_base_name_windows("a\\b"), "b");
    // Unix paths keep `\` inside a component.
    assert_eq!(get_base_name("a\\b"), "a\\b");
}

#[test]
fn windows_base_name_of_drive_paths() {
    assert_eq!(get_base_name_windows("C:\\Users\\me\\proj"), "proj");
    assert_eq!(get_base_name_windows("C:/Users/me/proj/"), "proj");
    assert_eq!(get_base_name_windows("C:\\a\\."), "a");
    assert_eq!(get_base_name_windows("C:foo"), "foo");
    assert_eq!(get_base_name_windows("C:\\"), "session");
    assert_eq!(get_base_name_windows("C:"), "session");
    assert_eq!(get_base_name_windows("C:\\x\\.."), "session");
}

#[test]
fn windows_base_name_of_unc_and_device_paths() {
    assert_eq!(get_base_name_windows("\\\\server\\share"), "session");
    assert_eq!(get_base_name_windows("//server/share"), "session");
    assert_eq!(get_base_name_windows("\\\\server\\share\\dir"), "dir");
    assert_eq!(get_base_name_windows("\\\\server"), "server");
    assert_eq!(get_base_name_windows("\\\\.\\pipe\\x"), "x");
}

#[test]
fn windows_base_name_of_verbatim_paths() {
    assert_eq!(get_base_name_windows("\\\\?\\UNC\\srv\\shr\\work"), "work");
    assert_eq!(get_base_name_windows("\\\\?\\D:\\a/b"), "a/b");
    assert_eq!(get_base_name_windows("\\\\?\\C:\\x\\."), "session");
    assert_eq!(get_base_name_windows("\\\\?\\C:\\x\\.."), "session");
    assert_eq!(get_base_name_windows("\\\\?\\C:\\"), "session");
}

#[test]
fn windows_file_name_none_and_some() {
    assert_eq!(file_name_windows("C:\\dir\\file.txt"), Some("file.txt".to_string()));
    assert_eq!(file_name_windows(""), None);
    assert_eq!(file_name_windows("\\"), None);
}

#[test]
fn windows_push_inserts_backslash() {
    assert_eq!(push_windows("C:\\bin", "tmux"), "C:\\bin\\tmux");
    assert_eq!(push_windows("C:\\bin\\", "tmux"), "C:\\bin\\tmux");
    assert_eq!(push_windows("C:/bin/", "tmux"), "C:/bin/tmux");
    assert_eq!(push_windows("C:", "tmux"), "C:tmux");
    assert_eq!(push_windows("", "tmux"), "tmux");
}

#[test]
fn windows_push_rewrites_verbatim_paths() {
    assert_eq!(push_windows("\\\\?\\C:", "a"), "\\\\?\\C:\\a");
    assert_eq!(push_windows("\\\\?\\C:\\x\\\\y\\", "a"), "\\\\?\\C:\\x\\y\\a");
    assert_eq!(push_windows("\\\\?\\C:\\x\\.\\y", "a"), "\\\\?\\C:\\x\\.\\y\\a");
    assert_eq!(push_windows("\\\\?\\UNC\\srv\\shr", "a"), "\\\\?\\UNC\\srv\\shr\\a");
}

#[test]
fn windows_config_path_under_appdata() {
    assert_eq!(
        get_config_path_windows(None, Some("C:\\Users\\me\\AppData\\Roaming")),
        "C:\\Users\\me\\AppData\\Roaming\\codemux\\config.toml"
    );
}

#[test]
fn windows_config_path_prefers_xdg() {
    assert_eq!(
        get_config_path_windows(Some("D:\\cfg\\"), Some("C:\\AppData")),
        "D:\\cfg\\codemux\\config.toml"
    );
}

#[test]
fn windows_config_path_edge_cases() {
    assert_eq!(get_config_path_windows(None, None), "config.toml");
    assert_eq!(get_config_path_windows(Some("C:"), None), "C:codemux\\config.toml");
    assert_eq!(get_config_path_windows(Some(""), None), "codemux\\config.toml");
    assert_eq!(
        get_config_path_windows(None, Some("\\\\?\\C:\\x\\\\y")),
        "\\\\?\\C:\\x\\y\\codemux\\config.toml"
    );
}

#[test]
fn windows_candidates_try_exe_first() {
    assert_eq!(
        path_candidates_windows("tmux", "C:\\bin;;D:\\tools\\"),
        vec![
            "C:\\bin\\tmux.exe".to_string(),
            "C:\\bin\\tmux".to_string(),
            "D:\\tools\\tmux.exe".to_string(),
            "D:\\tools\\tmux".to_string(),
        ]
    );
}

#[test]
fn windows_candidates_keep_exe_names() {
    assert_eq!(path_candidates_windows("tmux.exe", "C:\\bin"), vec!["C:\\bin\\tmux.exe".to_string()]);
    assert!(path_candidates_windows("zellij", "").is_empty());
}

#[test]
fn windows_push_of_prefixed_or_rooted_paths() {
    assert_eq!(push_windows("C:\\a", "D:\\b"), "D:\\b");
    assert_eq!(push_windows("C:\\a\\b", "\\x"), "C:\\x");
    assert_eq!(push_windows("\\\\server\\share\\a", "\\x"), "\\\\server\\share\\x");
    assert_eq!(push_windows("a", "/x"), "/x");
}

#[test]
fn windows_push_resolves_components_in_verbatim_paths() {
    assert_eq!(push_windows("\\\\?\\C:\\bar", "../foo"), "\\\\?\\C:\\foo");
    assert_eq!(push_windows("\\\\?\\C:\\bar", "../../foo"), "\\\\?\\C:\\foo");
    assert_eq!(push_windows("\\\\?\\C:\\", "../foo"), "\\\\?\\C:\\foo");
    assert_eq!(push_windows("\\\\?\\A:\\x\\y", "/foo"), "\\\\?\\A:\\foo");
    assert_eq!(push_windows("\\\\?\\A:", "..\\foo\\."), "\\\\?\\A:\\foo");
    assert_eq!(push_windows("\\\\?\\A:\\x\\y", ".\\foo\\."), "\\\\?\\A:\\x\\y\\foo");
    assert_eq!(push_windows("\\\\?\\A:", ""), "\\\\?\\A:\\");
    assert_eq!(push_windows("\\\\?\\C:\\a", "/"), "\\\\?\\C:\\");
}

#[test]
fn windows_candidates_for_a_full_program_path() {
    assert_eq!(
        path_candidates_windows("C:\\tools\\tmux", "D:\\x"),
        vec!["C:\\tools\\tmux.exe".to_string(), "C:\\tools\\tmux".to_string()]
    );
}
