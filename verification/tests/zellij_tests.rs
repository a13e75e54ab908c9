use codemux::launcher::{socket_dir_from, MuxLauncher, ZellijLauncher};

#[test]
fn zellij_tests_test_build_command_auto_attach_true() {
    let launcher = ZellijLauncher::new();
    let cmd = launcher.build_command("myapp", "/home/user/projects/myapp", true);
    let socket_dir = launcher.socket_dir();
    assert_eq!(cmd, format!("ZELLIJ_SOCKET_DIR='{}' zellij attach 'myapp' -c", socket_dir));
}

#[test]
fn zellij_tests_test_build_command_auto_attach_false() {
    let launcher = ZellijLauncher::new();
    let cmd = launcher.build_command("myapp", "/home/user/projects/myapp", false);
    let socket_dir = launcher.socket_dir();
    assert_eq!(cmd, format!("ZELLIJ_SOCKET_DIR='{}' zellij -s 'myapp'", socket_dir));
}

#[test]
fn zellij_tests_test_build_command_with_spaces_in_name() {
    let launcher = ZellijLauncher::new();
    let cmd = launcher.build_command("my app", "/home/user/my projects", true);
    let socket_dir = launcher.socket_dir();
    assert_eq!(cmd, format!("ZELLIJ_SOCKET_DIR='{}' zellij attach 'my app' -c", socket_dir));
}

#[test]
fn zellij_tests_test_build_command_with_quotes() {
    let launcher = ZellijLauncher::new();
    let cmd = launcher.build_command("it's", "/home/user/john's files", false);
    let socket_dir = launcher.socket_dir();
    assert_eq!(cmd, format!("ZELLIJ_SOCKET_DIR='{}' zellij -s 'it'\"'\"'s'", socket_dir));
}

#[test]
fn socket_directory_defaults_to_short_tmp_path() {
    assert_eq!(socket_dir_from(None), "/tmp/z");
    assert_eq!(ZellijLauncher::new().socket_dir(), "/tmp/z");
    let custom = ZellijLauncher::with_socket_dir(socket_dir_from(Some("/run/my dir")));
    assert_eq!(
        custom.build_command("a", "", true),
        "ZELLIJ_SOCKET_DIR='/run/my dir' zellij attach 'a' -c"
    );
    assert_eq!(custom.build_inside_command("a", "/x"), custom.build_command("a", "/x", true));
    assert!(!custom.is_inside_session(Some("1")));
}

#[test]
fn cwd_note_only_without_attach_and_with_cwd() {
    let launcher = ZellijLauncher::new();
    assert!(launcher.cwd_note("/home", true).is_none());
    assert!(launcher.cwd_note("", false).is_none());
    let note = launcher.cwd_note("/home", false).unwrap();
    assert!(note.contains("zellij cannot set CWD in non-auto-attach mode"));
}
