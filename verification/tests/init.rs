use rustocker::init::{init_step, ChildReport, InitStep};

#[test]
fn command_exit_code_is_the_init_exit_code() {
    assert_eq!(init_step(42, ChildReport::Exited { pid: 42, code: 3 }), InitStep::Exit(3));
    assert_eq!(init_step(42, ChildReport::Exited { pid: 42, code: 256 + 7 }), InitStep::Exit(7));
}

#[test]
fn other_children_are_waited_past() {
    assert_eq!(init_step(42, ChildReport::Exited { pid: 7, code: 1 }), InitStep::Wait);
    assert_eq!(init_step(42, ChildReport::Signaled { pid: 7, signal: 9 }), InitStep::Wait);
    assert_eq!(init_step(42, ChildReport::Other), InitStep::Wait);
}

#[test]
fn signal_end_gives_128_plus_signal() {
    assert_eq!(init_step(42, ChildReport::Signaled { pid: 42, signal: 15 }), InitStep::Exit(143));
    assert_eq!(init_step(42, ChildReport::Signaled { pid: 42, signal: 9 }), InitStep::Exit(137));
}

#[test]
fn no_children_or_failure_ends_with_zero() {
    assert_eq!(init_step(42, ChildReport::NoChildren), InitStep::Exit(0));
    assert_eq!(init_step(42, ChildReport::Failed), InitStep::Exit(0));
}
