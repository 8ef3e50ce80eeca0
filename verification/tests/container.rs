use rustocker::container::{
    command_line, container_argv, container_name, generate_container_id, hex_string, overlay_options,
    resolve_args, resolve_cpu_limit, resolve_memory_limit,
};

#[test]
fn container_generate_container_id_is_12_lowercase_hex_chars() {
    for _ in 0..100 {
        let id = generate_container_id();
        assert_eq!(id.len(), 12);
        assert!(id.chars().all(|c| c.is_ascii_hexdigit()));
    }
}

#[test]
fn generate_container_ids_are_unique() {
    let mut seen = std::collections::HashSet::new();
    for _ in 0..1000 {
        assert!(seen.insert(generate_container_id()), "duplicate container id");
    }
    assert_eq!(seen.len(), 1000);
}

#[test]
fn container_resolve_args_layout_args_when_command_args_empty() {
    let layout_args: Vec<String> = vec!["-lh".to_string()];
    assert_eq!(resolve_args(&vec![], &layout_args), vec!["-lh"]);
}

#[test]
fn container_resolve_args_empty_layout_args_and_empty_command_args() {
    assert!(resolve_args(&vec![], &vec![]).is_empty());
}

#[test]
fn container_resolve_args_prefers_provided_args() {
    let args: Vec<String> = vec!["-lh".to_string()];
    assert_eq!(resolve_args(&vec!["aux".to_string()], &args), vec!["aux"]);
}

#[test]
fn resolve_cpu_limit_uses_cli_quota_when_given() {
    assert_eq!(resolve_cpu_limit(Some(2), None), 200000);
}

#[test]
fn resolve_cpu_limit_uses_layout_quota_when_no_cli() {
    assert_eq!(resolve_cpu_limit(None, Some(50000)), 50000);
}

#[test]
fn resolve_cpu_limit_defaults_when_nothing_given() {
    assert_eq!(resolve_cpu_limit(None, None), 100000);
}

#[test]
fn resolve_cpu_limit_cli_takes_precedence_over_layout() {
    assert_eq!(resolve_cpu_limit(Some(2), Some(50000)), 200000);
}

#[test]
fn resolve_memory_limit_uses_cli_limit_when_given() {
    assert_eq!(resolve_memory_limit(Some(512), None), 512);
}

#[test]
fn resolve_memory_limit_uses_layout_limit_when_no_cli() {
    assert_eq!(resolve_memory_limit(None, Some(1024)), 1024);
}

#[test]
fn resolve_memory_limit_defaults_when_nothing_given() {
    assert_eq!(resolve_memory_limit(None, None), 1024 * 1024 * 1024);
}

#[test]
fn resolve_memory_limit_cli_takes_precedence_over_layout() {
    assert_eq!(resolve_memory_limit(Some(512), Some(1024)), 512);
}

#[test]
fn hex_string_writes_two_lowercase_digits_per_byte() {
    assert_eq!(hex_string(&vec![0x00, 0x0f, 0xa0, 0xff, 0x12, 0x9c]), "000fa0ff129c");
    assert_eq!(hex_string(&vec![]), "");
}

#[test]
fn container_name_defaults_to_id() {
    assert_eq!(container_name(Some("web"), "abcdef012345"), "web");
    assert_eq!(container_name(None, "abcdef012345"), "abcdef012345");
}

#[test]
fn container_argv_starts_with_init() {
    let args = vec!["/bin/sh".to_string(), "-c".to_string(), "echo hi".to_string()];
    assert_eq!(
        container_argv(&args),
        Some(vec![
            "/dev/.crabtainer_init".to_string(),
            "/bin/sh".to_string(),
            "-c".to_string(),
            "echo hi".to_string()
        ])
    );
    assert_eq!(container_argv(&vec![]), None);
}

#[test]
fn overlay_options_lists_the_three_dirs() {
    assert_eq!(
        overlay_options("/l/rootfs", "/c/upper", "/c/work"),
        "lowerdir=/l/rootfs,upperdir=/c/upper,workdir=/c/work"
    );
}

#[test]
fn command_line_joins_command_and_args() {
    assert_eq!(
        command_line(Some("/bin/sh".to_string()), Some(vec!["-c".to_string(), "ls".to_string()])),
        vec!["/bin/sh", "-c", "ls"]
    );
    assert_eq!(command_line(Some("top".to_string()), None), vec!["top"]);
    assert!(command_line(None, None).is_empty());
}
