use codemux::launch::launch_command;
use codemux::launcher::{sessions_from_run, ListRun, TmuxLauncher, ZellijLauncher};

#[test]
fn inside_tmux_opens_a_window_without_choosing_a_session() {
    let sessions = vec!["proj".to_string()];
    let (name, command) = launch_command(&TmuxLauncher::new(), true, "proj", "proj", &sessions, "/w", true);
    assert_eq!(name, None);
    assert_eq!(command, "tmux new-window -n 'proj' -c '/w'");
}

#[test]
fn outside_tmux_attaches_to_the_existing_session() {
    let sessions = vec!["proj".to_string()];
    let (name, command) = launch_command(&TmuxLauncher::new(), false, "proj", "proj", &sessions, "/w", true);
    assert_eq!(name, Some("proj".to_string()));
    assert_eq!(command, "tmux new-session -A -s 'proj' -c '/w'");
}

#[test]
fn outside_tmux_without_attach_takes_a_fresh_name() {
    let sessions = vec!["proj".to_string()];
    let (name, command) = launch_command(&TmuxLauncher::new(), false, "proj", "proj", &sessions, "/w", false);
    assert_eq!(name, Some("proj-2".to_string()));
    assert_eq!(command, "tmux new-session -s 'proj-2' -c '/w'");
}

#[test]
fn zellij_launch_uses_its_socket_dir() {
    let (name, command) = launch_command(&ZellijLauncher::new(), false, "proj", "proj", &[], "/w", true);
    assert_eq!(name, Some("proj".to_string()));
    assert_eq!(command, "ZELLIJ_SOCKET_DIR='/tmp/z' zellij attach 'proj' -c");
}

#[test]
fn successful_listing_gives_trimmed_sessions() {
    let run = ListRun::Finished { success: true, stdout: "a\n  b  \n\n".to_string() };
    assert_eq!(sessions_from_run("tmux", run), Ok(vec!["a".to_string(), "b".to_string()]));
}

#[test]
fn failed_listing_gives_no_sessions() {
    let run = ListRun::Finished { success: false, stdout: "a\n".to_string() };
    assert_eq!(sessions_from_run("tmux", run), Ok(Vec::new()));
}

#[test]
fn missing_program_gives_no_sessions() {
    assert_eq!(sessions_from_run("zellij", ListRun::NotFound), Ok(Vec::new()));
}

#[test]
fn other_start_failure_is_an_error() {
    let run = ListRun::Failed { message: "permission denied".to_string() };
    assert_eq!(sessions_from_run("zellij", run), Err("Failed to run zellij: permission denied".to_string()));
}
