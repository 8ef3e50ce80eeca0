use rustocker::rockerfile::{Instruction, Rockerfile};

#[test]
fn rockerfile_parses_its_five_keywords() {
    let parsed = Rockerfile::parse(
        "DOWNLOAD http://h/a.tar.gz AS a\nFROM a\nCOPY . /srv\nRUN make  all\nCMD ./app --port 80\n",
    )
    .unwrap();
    assert_eq!(
        parsed.instructions,
        vec![
            Instruction::Download { url: "http://h/a.tar.gz".to_string(), alias: "a".to_string() },
            Instruction::From("a".to_string()),
            Instruction::Copy { src: ".".to_string(), dst: "/srv".to_string() },
            Instruction::Run("make  all".to_string()),
            Instruction::Cmd(vec!["./app".to_string(), "--port".to_string(), "80".to_string()]),
        ]
    );
}

#[test]
fn rockerfile_does_not_know_limits() {
    assert_eq!(Rockerfile::parse("FROM a\nCPU_LIMIT 2\n").unwrap_err(), "Line 2: Unknown keyword");
}

#[test]
fn rockerfile_skips_comments_and_blank_lines() {
    let parsed = Rockerfile::parse("# c\n\n   \nrun true\n").unwrap();
    assert_eq!(parsed.instructions, vec![Instruction::Run("true".to_string())]);
}

#[test]
fn rockerfile_reports_first_bad_line() {
    assert_eq!(
        Rockerfile::parse("COPY a\nFROM\n").unwrap_err(),
        "Line 1: Copy requires 2 arguments"
    );
    assert_eq!(Rockerfile::parse("FROM x\nFROM\n").unwrap_err(), "Line 2: Image name required (FROM)");
    assert_eq!(Rockerfile::parse("RUN \n").unwrap_err(), "Line 1: Required argument (RUN)");
}
