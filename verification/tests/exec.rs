use rustocker::exec::{exec_argv, exec_in_container, namespace_path, ExecMode, ExecOptions};

#[test]
fn exec_mode_follows_tty_flag() {
    let tty = ExecOptions { interactive: true, tty: true, cmd: "sh".to_string(), args: None };
    let pipes = ExecOptions { interactive: true, tty: false, cmd: "sh".to_string(), args: None };
    assert_eq!(exec_in_container(&tty), ExecMode::Tty);
    assert_eq!(exec_in_container(&pipes), ExecMode::Pipes);
}

#[test]
fn exec_argv_is_command_then_args() {
    let opts = ExecOptions {
        interactive: false,
        tty: false,
        cmd: "ls".to_string(),
        args: Some(vec!["-l".to_string(), "/".to_string()]),
    };
    assert_eq!(exec_argv(&opts), vec!["ls", "-l", "/"]);
    let bare = ExecOptions { interactive: false, tty: false, cmd: "ps".to_string(), args: None };
    assert_eq!(exec_argv(&bare), vec!["ps"]);
}

#[test]
fn namespace_path_names_proc_file() {
    assert_eq!(namespace_path(1234, "pid"), "/proc/1234/ns/pid");
}
