use rustocker::builder::{copy_source, layout_settings, relative_destination, workspace_relative, CopySource};
use rustocker::rustockerfile::Instruction;

#[test]
fn later_settings_replace_earlier_ones() {
    let instrs = vec![
        Instruction::Cmd { args: vec!["a".to_string()] },
        Instruction::CpuLimit("1".to_string()),
        Instruction::From("base".to_string()),
        Instruction::MemoryLimit("1g".to_string()),
        Instruction::Cmd { args: vec!["b".to_string(), "c".to_string()] },
        Instruction::CpuLimit("2.5".to_string()),
        Instruction::Run("true".to_string()),
    ];
    let s = layout_settings(&instrs);
    assert_eq!(s.args, vec!["b", "c"]);
    assert_eq!(s.cpu_limit, Some("2.5".to_string()));
    assert_eq!(s.memory_limit, Some("1g".to_string()));
}

#[test]
fn no_settings_without_instructions() {
    let s = layout_settings(&vec![Instruction::From("x".to_string())]);
    assert!(s.args.is_empty());
    assert_eq!(s.cpu_limit, None);
    assert_eq!(s.memory_limit, None);
}

#[test]
fn copy_source_kinds() {
    assert_eq!(copy_source("*"), CopySource::Workspace);
    assert_eq!(copy_source("src/*.rs"), CopySource::Pattern);
    assert_eq!(copy_source("file?.txt"), CopySource::Pattern);
    assert_eq!(copy_source("[ab].txt"), CopySource::Pattern);
    assert_eq!(copy_source("**"), CopySource::Pattern);
    assert_eq!(copy_source("Cargo.toml"), CopySource::Path);
}

#[test]
fn destination_loses_leading_slashes() {
    assert_eq!(relative_destination("/app"), "app");
    assert_eq!(relative_destination("//srv/x"), "srv/x");
    assert_eq!(relative_destination("rel/dir"), "rel/dir");
}

#[test]
fn workspace_relative_drops_dot_slash() {
    assert_eq!(workspace_relative("./src/lib.rs"), "src/lib.rs");
    assert_eq!(workspace_relative("src/lib.rs"), "src/lib.rs");
    assert_eq!(workspace_relative("."), "");
    assert_eq!(workspace_relative(".//x"), "x");
    assert_eq!(workspace_relative("././x"), "x");
    assert_eq!(workspace_relative("./src/"), "src");
    assert_eq!(workspace_relative("./x/./y"), "x/./y");
    assert_eq!(workspace_relative("./.x"), ".x");
    assert_eq!(workspace_relative(".x/y"), ".x/y");
    assert_eq!(workspace_relative("../x"), "../x");
}

#[test]
fn workspace_relative_agrees_with_path_strip_prefix() {
    let cases = [
        ".", "./", "./x", ".//x", "././x", "./src/", "./x/./y", "./x/.", "./x//", "./.x", "x", "",
        "/abs/x", "../x", "./../x", ".x", "./x/", "./ a", ".///", "././", "./x/..",
    ];
    for p in cases {
        let expected = std::path::Path::new(p)
            .strip_prefix("./")
            .unwrap_or(std::path::Path::new(p))
            .to_str()
            .unwrap()
            .to_string();
        assert_eq!(workspace_relative(p), expected, "input {:?}", p);
    }
}
