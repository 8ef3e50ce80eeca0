use rustocker::ignore::{rules_verdict, CrabtainerIgnore, RustockerIgnore};

/// The files of a tree that a walk keeps: a file is kept when neither it nor
/// any directory above it is ignored (an ignored directory is not entered).
fn collected(ig: &CrabtainerIgnore, files: &[&str]) -> Vec<String> {
    let mut out: Vec<String> = files
        .iter()
        .filter(|f| {
            let parts: Vec<&str> = f.split('/').collect();
            (1..=parts.len()).all(|k| !ig.is_ignored(&parts[..k].join("/")))
        })
        .map(|s| s.to_string())
        .collect();
    out.sort();
    out
}

fn ignore_with(rules: &str) -> CrabtainerIgnore {
    CrabtainerIgnore::new("/work", Some(rules))
}

#[test]
fn no_ignore_file_keeps_all_files() {
    let ig = CrabtainerIgnore::new("/work", None);
    assert_eq!(collected(&ig, &["a.txt", "b.log", "sub/c.rs"]), vec!["a.txt", "b.log", "sub/c.rs"]);
}

#[test]
fn crabtainerignore_itself_excluded_even_without_rules() {
    let ig = CrabtainerIgnore::new("/work", Some(""));
    assert_eq!(collected(&ig, &["a.txt"]), vec!["a.txt"]);
    assert!(ig.is_ignored("../../../../../../.crabtainerignore"));
}

#[test]
fn file_pattern_ignores_at_any_depth() {
    let ig = ignore_with("*.txt\n");
    assert_eq!(collected(&ig, &["a.txt", "b.log", "sub/nested.txt"]), vec!["b.log"]);
}

#[test]
fn directory_rule_prunes_whole_subtree() {
    let ig = ignore_with("target\n");
    assert_eq!(collected(&ig, &["target/debug/app", "src/main.rs"]), vec!["src/main.rs"]);
}

#[test]
fn trailing_slash_directory_rule_ignores_dir() {
    let ig = ignore_with("build/\n");
    assert_eq!(collected(&ig, &["build/out.txt", "src/main.rs"]), vec!["src/main.rs"]);
}

#[test]
fn leading_slash_anchors_rule_to_root() {
    let ig = ignore_with("/node_modules\n");
    assert_eq!(
        collected(&ig, &["node_modules/a.js", "sub/node_modules/b.js"]),
        vec!["sub/node_modules/b.js"]
    );
}

#[test]
fn wildcard_pattern_ignores_matches() {
    let ig = ignore_with("src/*.rs\n");
    assert_eq!(collected(&ig, &["src/a.rs", "src/b.rs", "docs/readme.md"]), vec!["docs/readme.md"]);
}

#[test]
fn negation_reincludes_specific_file() {
    let ig = ignore_with("*.txt\n!keep.txt\n");
    assert_eq!(collected(&ig, &["keep.txt", "drop.txt"]), vec!["keep.txt"]);
}

#[test]
fn later_negation_overrides_previous_rule() {
    let ig = ignore_with("*\n!keep.txt\n");
    assert_eq!(collected(&ig, &["a.txt", "keep.txt"]), vec!["keep.txt"]);
}

#[test]
fn later_rule_overrides_previous_negation() {
    let ig = ignore_with("!keep.txt\n*\n");
    assert_eq!(collected(&ig, &["keep.txt"]), Vec::<String>::new());
}

#[test]
fn negated_directory_reincludes_contents() {
    let ig = ignore_with("*\n!keep/\n");
    assert_eq!(collected(&ig, &["build/main.rs", "keep/lib.rs"]), vec!["keep/lib.rs"]);
}

#[test]
fn comments_and_blank_lines_are_skipped() {
    let ig = ignore_with("# comment\n\n*.txt\n");
    assert_eq!(collected(&ig, &["a.txt", "b.log"]), vec!["b.log"]);
}

#[test]
fn crabtainer_ignore_keeps_its_root() {
    let ig = CrabtainerIgnore::new("/work/ctx", None);
    assert_eq!(ig.root(), "/work/ctx");
}

#[test]
fn rustocker_ignore_file_is_always_ignored() {
    let ig = RustockerIgnore::new(".", None);
    assert!(ig.is_ignored(".rustockerignore"));
    assert!(!ig.is_ignored("src/lib.rs"));
    assert_eq!(ig.root(), ".");
}

#[test]
fn rustocker_plain_rule_covers_what_is_below_it() {
    let ig = RustockerIgnore::new(".", Some("target\n"));
    assert!(ig.is_ignored("target/debug/app"));
    assert!(!ig.is_ignored("src/target.rs"));
}

#[test]
fn rustocker_glob_rules_and_negation() {
    let ig = RustockerIgnore::new(".", Some("*.log\n!keep.log\n/tmp/*\n"));
    assert!(ig.is_ignored("a.log"));
    assert!(ig.is_ignored("deep/b.log"));
    // A plain negated name takes back what lies below it, not the name itself.
    assert!(ig.is_ignored("keep.log"));
    assert!(!ig.is_ignored("keep.log/inner"));
    assert!(ig.is_ignored("tmp/x"));
    assert!(!ig.is_ignored("a.txt"));
}

#[test]
fn rustocker_invalid_glob_makes_no_rule() {
    let ig = RustockerIgnore::new(".", Some("[*\n*.o\n"));
    assert!(ig.is_ignored("main.o"));
    assert!(!ig.is_ignored("main.c"));
}

#[test]
fn rules_verdict_follows_last_matching_rule() {
    let negated = vec![false, true, false];
    assert!(rules_verdict(&negated, &vec![true, true, true]));
    assert!(!rules_verdict(&negated, &vec![true, true, false]));
    assert!(rules_verdict(&negated, &vec![true, false, false]));
    assert!(!rules_verdict(&negated, &vec![false, false, false]));
}

#[test]
fn crabtainer_plain_rule_covers_directory_and_below() {
    let ig = ignore_with("build/\n");
    assert!(ig.is_ignored("build"));
    assert!(ig.is_ignored("build/x"));
    assert!(ig.is_ignored("build/deep/er/file.o"));
    assert!(!ig.is_ignored("buildx"));
    assert!(!ig.is_ignored("src/build"));
    assert!(!ig.is_ignored("bui"));
}

#[test]
fn crabtainer_plain_rule_with_leading_and_trailing_slashes() {
    let ig = ignore_with("//out//\n");
    assert!(ig.is_ignored("out"));
    assert!(ig.is_ignored("out/a"));
    assert!(!ig.is_ignored("outer"));
}

#[test]
fn crabtainer_negated_plain_rule_takes_directory_back() {
    let ig = ignore_with("*\n!keep/\n");
    assert!(!ig.is_ignored("keep"));
    assert!(!ig.is_ignored("keep/lib.rs"));
    assert!(ig.is_ignored("other"));
}
