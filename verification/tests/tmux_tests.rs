use codemux::launcher::{MuxLauncher, TmuxLauncher};

#[test]
fn tmux_tests_test_build_command_auto_attach_true() {
    let launcher = TmuxLauncher::new();
    let cmd = launcher.build_command("myapp", "/home/user/projects/myapp", true);
    assert_eq!(cmd, "tmux new-session -A -s 'myapp' -c '/home/user/projects/myapp'");
}

#[test]
fn test_is_inside_session_false_when_tmux_unset() {
    let launcher = TmuxLauncher::new();
    assert_eq!(launcher.marker_var(), "TMUX");
    assert!(!launcher.is_inside_session(None));
}

#[test]
fn test_is_inside_session_true_when_tmux_set() {
    let launcher = TmuxLauncher::new();
    assert!(launcher.is_inside_session(Some("/tmp/tmux-501/default,1836,0")));
}

#[test]
fn test_build_inside_command() {
    let launcher = TmuxLauncher::new();
    let cmd = launcher.build_inside_command("myapp", "/home/user/projects/myapp");
    assert_eq!(cmd, "tmux new-window -n 'myapp' -c '/home/user/projects/myapp'");
}

#[test]
fn test_build_inside_command_with_spaces() {
    let launcher = TmuxLauncher::new();
    let cmd = launcher.build_inside_command("my app", "/home/user/my projects");
    assert_eq!(cmd, "tmux new-window -n 'my app' -c '/home/user/my projects'");
}

#[test]
fn test_build_inside_command_with_quotes() {
    let launcher = TmuxLauncher::new();
    let cmd = launcher.build_inside_command("it's", "/home/user/john's files");
    assert_eq!(cmd, "tmux new-window -n 'it'\"'\"'s' -c '/home/user/john'\"'\"'s files'");
}

#[test]
fn tmux_tests_test_build_command_auto_attach_false() {
    let launcher = TmuxLauncher::new();
    let cmd = launcher.build_command("myapp", "/home/user/projects/myapp", false);
    assert_eq!(cmd, "tmux new-session -s 'myapp' -c '/home/user/projects/myapp'");
}

#[test]
fn tmux_tests_test_build_command_with_spaces_in_name() {
    let launcher = TmuxLauncher::new();
    let cmd = launcher.build_command("my app", "/home/user/my projects", true);
    assert_eq!(cmd, "tmux new-session -A -s 'my app' -c '/home/user/my projects'");
}

#[test]
fn tmux_tests_test_build_command_with_quotes() {
    let launcher = TmuxLauncher::new();
    let cmd = launcher.build_command("it's", "/home/user/john's files", false);
    assert_eq!(cmd, "tmux new-session -s 'it'\"'\"'s' -c '/home/user/john'\"'\"'s files'");
}

#[test]
fn session_listing_is_trimmed_and_skips_blank_lines() {
    let sessions = codemux::launcher::parse_session_list("  main \n\nwork\r\n   \nlast");
    assert_eq!(sessions, vec!["main".to_string(), "work".to_string(), "last".to_string()]);
    assert!(codemux::launcher::parse_session_list("").is_empty());
}
