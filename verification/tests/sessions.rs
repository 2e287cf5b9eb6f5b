use kak_tree_sitter::ConfigError;
use kak_tree_sitter::KakSession;
use kak_tree_sitter::daemon_dir;
use kak_tree_sitter::pid_path;
use kak_tree_sitter::socket_path;
use kak_tree_sitter::stderr_path;
use kak_tree_sitter::stdout_path;

#[test]
fn daemon_dir_joins_root_and_user() {
    let dir = daemon_dir(Some("/tmp"), Some("alice")).expect("both inputs present");
    assert_eq!(dir, "/tmp/kak-tree-sitter-alice");
}

#[test]
fn daemon_dir_requires_a_root() {
    assert_eq!(daemon_dir(None, Some("alice")), Err(ConfigError::MissingTmpDir));
}

#[test]
fn daemon_dir_requires_a_user() {
    assert_eq!(daemon_dir(Some("/tmp"), None), Err(ConfigError::MissingUser));
}

#[test]
fn socket_lives_inside_the_runtime_directory() {
    assert_eq!(socket_path("/tmp/kak-tree-sitter-alice"), "/tmp/kak-tree-sitter-alice/socket");
}

#[test]
fn bookkeeping_files_live_inside_the_runtime_directory() {
    assert_eq!(stdout_path("/tmp/d"), "/tmp/d/stdout.txt");
    assert_eq!(stderr_path("/tmp/d"), "/tmp/d/stderr.txt");
    assert_eq!(pid_path("/tmp/d"), "/tmp/d/pid");
}

#[test]
fn fmt_cmd_wraps_for_a_client() {
    let sess = KakSession::new("sess".to_owned(), Some("client0".to_owned()));
    assert_eq!(sess.fmt_cmd("info 'hi'"), "eval -client client0 'info 'hi''\n");
}

#[test]
fn fmt_cmd_passes_through_without_client() {
    let sess = KakSession::new("sess".to_owned(), None);
    assert_eq!(sess.fmt_cmd("info 'hi'"), "info 'hi'\n");
}
