use rustocker::cgroups::{cgroup_limit_files, cgroup_procs_entry, CgroupWrite, CPU_PERIOD};
use rustocker::options::{ContainerReady, RestartPolicy};

fn opts(cpu: Option<i64>, mem: Option<i64>) -> ContainerReady {
    ContainerReady {
        layout_name: "test".to_string(),
        args: vec!["true".to_string()],
        quota: cpu,
        memory_limit: mem,
        restart_policy: RestartPolicy::Never,
    }
}

fn write(file: &str, content: &str) -> CgroupWrite {
    CgroupWrite { file: file.to_string(), content: content.to_string() }
}

#[test]
fn setup_writes_memory_and_cpu_limits() {
    assert_eq!(
        cgroup_limit_files(&opts(Some(150000), Some(2048))),
        vec![write("memory.max", "2048"), write("cpu.max", "150000, 100000")]
    );
}

#[test]
fn setup_with_no_limits_only_creates_dir() {
    assert!(cgroup_limit_files(&opts(None, None)).is_empty());
}

#[test]
fn setup_writes_only_provided_limits() {
    assert_eq!(cgroup_limit_files(&opts(Some(200000), None)), vec![write("cpu.max", "200000, 100000")]);
    assert_eq!(cgroup_limit_files(&opts(None, Some(512))), vec![write("memory.max", "512")]);
}

#[test]
fn attach_rejects_invalid_pid() {
    let err = cgroup_procs_entry(0).unwrap_err();
    assert!(err.contains("Invalid pid"), "unexpected error: {}", err);
    assert_eq!(cgroup_procs_entry(-3).unwrap_err(), "[CGROUP] Invalid pid: -3");
}

#[test]
fn attach_writes_pid_to_cgroup_procs() {
    assert_eq!(cgroup_procs_entry(1234).unwrap(), "1234");
}

#[test]
fn negative_memory_limit_wraps_as_unsigned() {
    assert_eq!(
        cgroup_limit_files(&opts(None, Some(-1))),
        vec![write("memory.max", "18446744073709551615")]
    );
    assert_eq!(CPU_PERIOD, 100000);
}

#[test]
fn negative_quota_is_written_with_its_sign() {
    assert_eq!(cgroup_limit_files(&opts(Some(-5), None)), vec![write("cpu.max", "-5, 100000")]);
}
