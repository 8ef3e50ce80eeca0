use rustocker::paths::{path_join, CrabtainerPaths, RockerPaths};

#[test]
fn base_dir_defaults_to_var_crabtainer() {
    assert_eq!(CrabtainerPaths::base_dir(None), "/var/lib/crabtainer");
}

#[test]
fn base_dir_honors_crabtainer_home() {
    let home = "/tmp/crabtainer-test-home";
    assert_eq!(CrabtainerPaths::base_dir(Some(home)), home);
}

#[test]
fn subdirs_are_relative_to_base() {
    let h = "/tmp/crabtainer-test-layout";
    assert_eq!(CrabtainerPaths::image_store_dir(Some(h)), "/tmp/crabtainer-test-layout/images");
    assert_eq!(CrabtainerPaths::layout_store_dir(Some(h)), "/tmp/crabtainer-test-layout/layouts");
    assert_eq!(CrabtainerPaths::runtime_dir(Some(h)), "/tmp/crabtainer-test-layout/containers");
}

#[test]
fn crabtainer_system_dirs_in_creation_order() {
    assert_eq!(
        CrabtainerPaths::system_dirs(None),
        vec![
            "/var/lib/crabtainer/images".to_string(),
            "/var/lib/crabtainer/containers".to_string(),
            "/var/lib/crabtainer/layouts".to_string()
        ]
    );
}

#[test]
fn rocker_paths_live_under_var_rocker() {
    assert_eq!(RockerPaths::base_dir(), "/var/rocker");
    assert_eq!(RockerPaths::image_store_dir(), "/var/rocker/images");
    assert_eq!(RockerPaths::layout_store_dir(), "/var/rocker/layouts");
    assert_eq!(RockerPaths::runtime_dir(), "/var/rocker/containers");
    assert_eq!(
        RockerPaths::system_dirs(),
        vec![
            "/var/rocker/images".to_string(),
            "/var/rocker/containers".to_string(),
            "/var/rocker/layouts".to_string()
        ]
    );
}

#[test]
fn path_join_adds_one_separator() {
    assert_eq!(path_join("/a", "b"), "/a/b");
    assert_eq!(path_join("/a/", "b"), "/a/b");
    assert_eq!(path_join("", "b"), "b");
}
