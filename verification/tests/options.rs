use rustocker::options::{
    can_delete, find_container_by_name, is_active, layout_in_use, liveness, refresh_config,
    should_autostart, start_decision, ContainerStatus, Liveness, RestartPolicy, RuntimeConfig,
    StartDecision,
};

fn config(status: ContainerStatus, detached: bool, policy: RestartPolicy) -> RuntimeConfig {
    RuntimeConfig {
        layout_name: "base".to_string(),
        container_name: "web".to_string(),
        status,
        restart_policy: policy,
        workdir: "/var/rocker/containers/abc".to_string(),
        ip_address: 0xAC13_0002,
        memory_limit: 1024,
        cpu_limit: 100000,
        args: vec!["sh".to_string()],
        pid: 4242,
        boot_id: "boot-1".to_string(),
        is_detached: detached,
        rm: false,
    }
}

#[test]
fn status_names_match_variants() {
    assert_eq!(ContainerStatus::Active.name(), "Active");
    assert_eq!(ContainerStatus::Stopped.name(), "Stopped");
    assert_eq!(ContainerStatus::Exited.name(), "Exited");
}

#[test]
fn restart_policy_defaults_to_never() {
    assert_eq!(RestartPolicy::default(), RestartPolicy::Never);
}

#[test]
fn only_detached_always_containers_autostart() {
    assert!(should_autostart(&config(ContainerStatus::Stopped, true, RestartPolicy::Always)));
    assert!(!should_autostart(&config(ContainerStatus::Stopped, false, RestartPolicy::Always)));
    assert!(!should_autostart(&config(ContainerStatus::Stopped, true, RestartPolicy::OnFailure)));
}

#[test]
fn liveness_rules_out_bad_pid_and_other_boot() {
    assert_eq!(liveness(0, Some("b"), "b"), Liveness::Dead);
    assert_eq!(liveness(-1, None, "b"), Liveness::Dead);
    assert_eq!(liveness(10, Some("a"), "b"), Liveness::Dead);
    assert_eq!(liveness(10, Some("b"), "b"), Liveness::Probe);
    assert_eq!(liveness(10, None, "b"), Liveness::Probe);
}

#[test]
fn refresh_stops_dead_active_container() {
    let mut c = config(ContainerStatus::Active, true, RestartPolicy::Never);
    assert!(refresh_config(&mut c, false));
    assert_eq!(c.status, ContainerStatus::Stopped);
    assert_eq!(c.pid, 0);
    assert_eq!(c.ip_address, 0xAC13_0002);

    let mut alive = config(ContainerStatus::Active, true, RestartPolicy::Never);
    assert!(!refresh_config(&mut alive, true));
    assert_eq!(alive.status, ContainerStatus::Active);
    assert_eq!(alive.pid, 4242);

    let mut stopped = config(ContainerStatus::Exited, true, RestartPolicy::Never);
    assert!(!refresh_config(&mut stopped, false));
    assert_eq!(stopped.status, ContainerStatus::Exited);
}

#[test]
fn start_decision_follows_status_and_detach() {
    assert_eq!(start_decision(&config(ContainerStatus::Active, true, RestartPolicy::Never)), StartDecision::Refuse);
    assert_eq!(start_decision(&config(ContainerStatus::Stopped, true, RestartPolicy::Never)), StartDecision::Detached);
    assert_eq!(start_decision(&config(ContainerStatus::Exited, false, RestartPolicy::Never)), StartDecision::Attached);
}

#[test]
fn active_containers_are_not_deleted() {
    let active = config(ContainerStatus::Active, false, RestartPolicy::Never);
    let stopped = config(ContainerStatus::Stopped, false, RestartPolicy::Never);
    assert!(is_active(&active));
    assert!(!can_delete(&active));
    assert!(!is_active(&stopped));
    assert!(can_delete(&stopped));
}

#[test]
fn find_container_by_name_returns_first_match() {
    let entries = vec![
        ("id1".to_string(), "web".to_string()),
        ("id2".to_string(), "db".to_string()),
        ("id3".to_string(), "db".to_string()),
    ];
    assert_eq!(find_container_by_name(&entries, "db"), Some("id2".to_string()));
    assert_eq!(find_container_by_name(&entries, "cache"), None);
}

#[test]
fn layout_in_use_checks_every_container() {
    let layouts = vec!["alpine".to_string(), "debian".to_string()];
    assert!(layout_in_use(&layouts, "debian"));
    assert!(!layout_in_use(&layouts, "ubuntu"));
}
