use rustocker::rustockerfile::{
    memory_limit_error, memory_limit_parts, Instruction, LimitKind, NumberCheck, Rustockerfile,
};

/// The verdicts on the limit arguments of `content`, read as `f64` the way
/// the engine reads them.
fn verdicts(content: &str) -> Vec<NumberCheck> {
    Rustockerfile::limit_arguments(content)
        .iter()
        .map(|a| match a.kind {
            LimitKind::Cpu => match a.text.parse::<f64>() {
                Err(_) => NumberCheck::NotANumber,
                Ok(v) if v <= 0.0 => NumberCheck::NotPositive,
                Ok(_) => NumberCheck::Valid,
            },
            LimitKind::Memory => {
                if memory_limit_parts(&a.text).number.parse::<f64>().is_ok() {
                    NumberCheck::Valid
                } else {
                    NumberCheck::NotANumber
                }
            }
        })
        .collect()
}

fn parse(content: &str) -> Result<Rustockerfile, String> {
    Rustockerfile::parse(content, &verdicts(content))
}

/// A memory size in bytes, as the engine computes it.
fn parse_memory_limit(s: &str) -> Result<f64, String> {
    let parts = memory_limit_parts(s);
    parts
        .number
        .parse::<f64>()
        .map(|n| n * parts.multiplier as f64)
        .map_err(|_| memory_limit_error(s))
}

#[test]
fn parses_all_instruction_types() {
    let content = "\
DOWNLOAD https://example.com/alpine.tar.gz AS alpine-base
FROM alpine-base
COPY src /app
RUN echo hello
CMD /bin/sh -c
";
    let parsed = parse(content).unwrap();
    assert_eq!(
        parsed.instructions,
        vec![
            Instruction::Download {
                url: "https://example.com/alpine.tar.gz".to_string(),
                alias: "alpine-base".to_string(),
            },
            Instruction::From("alpine-base".to_string()),
            Instruction::Copy { src: "src".to_string(), dst: "/app".to_string() },
            Instruction::Run("echo hello".to_string()),
            Instruction::Cmd { args: vec!["/bin/sh".to_string(), "-c".to_string()] },
        ]
    );
}

#[test]
fn keywords_are_case_insensitive() {
    let parsed = parse("from ubuntu\ncopy a /b\nrun ls\n").unwrap();
    assert_eq!(
        parsed.instructions,
        vec![
            Instruction::From("ubuntu".to_string()),
            Instruction::Copy { src: "a".to_string(), dst: "/b".to_string() },
            Instruction::Run("ls".to_string()),
        ]
    );
}

#[test]
fn ignores_blank_lines_and_comments() {
    let content = "\n# header comment\nFROM alpine\n\n# another comment\nRUN true\n";
    let parsed = parse(content).unwrap();
    assert_eq!(parsed.instructions.len(), 2);
}

#[test]
fn empty_file_yields_no_instructions() {
    let parsed = parse("\n  \n# only a comment\n").unwrap();
    assert!(parsed.instructions.is_empty());
}

#[test]
fn unknown_keyword_reports_line_number() {
    let err = parse("FROM alpine\nMAYBE ls\n").unwrap_err();
    assert!(err.contains("Line 2"), "unexpected error: {}", err);
    assert!(err.contains("Unknown keyword"));
}

#[test]
fn from_requires_argument() {
    let err = parse("FROM\n").unwrap_err();
    assert!(err.contains("Line 1"));
    assert!(err.contains("FROM"));
}

#[test]
fn download_requires_as_syntax() {
    let err = parse("DOWNLOAD https://example.com/x.tar.gz\n").unwrap_err();
    assert!(err.contains("Line 1"));
    assert!(err.contains("DOWNLOAD <URL> AS <ALIAS>"));

    let err = parse("DOWNLOAD https://example.com/x.tar.gz WRONG alias\n").unwrap_err();
    assert!(err.contains("Line 1"));
    assert!(err.contains("DOWNLOAD <URL> AS <ALIAS>"));
}

#[test]
fn copy_requires_exactly_two_arguments() {
    let err = parse("COPY only_one\n").unwrap_err();
    assert!(err.contains("Line 1"));
    assert!(err.contains("2 arguments"));

    let err = parse("COPY a b c\n").unwrap_err();
    assert!(err.contains("Line 1"));
    assert!(err.contains("2 arguments"));
}

#[test]
fn run_requires_argument() {
    let err = parse("RUN\n").unwrap_err();
    assert!(err.contains("Line 1"));
    assert!(err.contains("RUN"));
}

#[test]
fn cmd_requires_argument() {
    let err = parse("CMD\n").unwrap_err();
    assert!(err.contains("Line 1"));
    assert!(err.contains("CMD"));
}

#[test]
fn preserves_run_command_including_spaces() {
    let parsed = parse("RUN apk add --no-cache curl && echo done\n").unwrap();
    assert_eq!(
        parsed.instructions,
        vec![Instruction::Run("apk add --no-cache curl && echo done".to_string())]
    );
}

#[test]
fn cmd_splits_command_and_args() {
    let parsed = parse("CMD /bin/sh -c echo hello\n").unwrap();
    assert_eq!(
        parsed.instructions,
        vec![Instruction::Cmd {
            args: vec![
                "/bin/sh".to_string(),
                "-c".to_string(),
                "echo".to_string(),
                "hello".to_string()
            ],
        }]
    );
}

#[test]
fn cmd_with_single_word_has_empty_args() {
    let parsed = parse("CMD ls\n").unwrap();
    assert_eq!(parsed.instructions, vec![Instruction::Cmd { args: vec!["ls".to_string()] }]);
}

#[test]
fn cmd_splits_on_all_whitespace() {
    let parsed = parse("CMD   python3   -m   http.server\n").unwrap();
    assert_eq!(
        parsed.instructions,
        vec![Instruction::Cmd {
            args: vec!["python3".to_string(), "-m".to_string(), "http.server".to_string()],
        }]
    );
}

#[test]
fn cpu_limit_parses_and_validates() {
    let parsed = parse("CPU_LIMIT 1.5\n").unwrap();
    assert_eq!(parsed.instructions, vec![Instruction::CpuLimit("1.5".to_string())]);

    let err = parse("CPU_LIMIT 0\n").unwrap_err();
    assert!(err.contains("greater than 0"), "unexpected error: {}", err);

    let err = parse("CPU_LIMIT abc\n").unwrap_err();
    assert!(err.contains("must be a number"), "unexpected error: {}", err);
}

#[test]
fn memory_limit_parses_and_records_raw_value() {
    let parsed = parse("MEMORY_LIMIT 2g\n").unwrap();
    assert_eq!(parsed.instructions, vec![Instruction::MemoryLimit("2g".to_string())]);
}

#[test]
fn memory_limit_validates_value() {
    let err = parse("MEMORY_LIMIT not-a-size\n").unwrap_err();
    assert!(err.contains("Line 1"), "unexpected error: {}", err);
    assert!(err.contains("Invalid MEMORY_LIMIT"), "unexpected error: {}", err);
}

#[test]
fn parse_memory_limit_handles_units() {
    assert_eq!(parse_memory_limit("512m").unwrap(), 512.0 * 1024.0 * 1024.0);
    assert_eq!(parse_memory_limit("2g").unwrap(), 2.0 * 1024.0 * 1024.0 * 1024.0);
    assert_eq!(parse_memory_limit("1024k").unwrap(), 1024.0 * 1024.0);
    assert_eq!(parse_memory_limit("8b").unwrap(), 8.0);
    assert_eq!(parse_memory_limit("100").unwrap(), 100.0);
}

#[test]
fn parse_memory_limit_is_case_insensitive() {
    assert_eq!(parse_memory_limit("2G").unwrap(), parse_memory_limit("2g").unwrap());
    assert_eq!(parse_memory_limit("512M").unwrap(), parse_memory_limit("512m").unwrap());
}

#[test]
fn parse_memory_limit_rejects_invalid_values() {
    assert!(parse_memory_limit("").is_err());
    assert!(parse_memory_limit("abc").is_err());
    assert!(parse_memory_limit("2x").is_err());
}

#[test]
fn limit_arguments_lists_limit_lines_in_order() {
    let args = Rustockerfile::limit_arguments("FROM a\nCPU_LIMIT 2\n# x\nmemory_limit  512m \n");
    assert_eq!(args.len(), 2);
    assert_eq!((args[0].line, args[0].kind, args[0].text.as_str()), (1, LimitKind::Cpu, "2"));
    assert_eq!(
        (args[1].line, args[1].kind, args[1].text.as_str()),
        (3, LimitKind::Memory, "512m")
    );
}

#[test]
fn exact_error_messages() {
    assert_eq!(parse("FROM a\n\nBOGUS\n").unwrap_err(), "Line 3: Unknown keyword");
    assert_eq!(parse("DOWNLOAD\n").unwrap_err(), "Line 1: URL is required (DOWNLOAD)");
    assert_eq!(parse("CPU_LIMIT\n").unwrap_err(), "Line 1: Required argument (CPU_LIMIT)");
    assert_eq!(
        parse("MEMORY_LIMIT 2x\n").unwrap_err(),
        "Line 1: Invalid MEMORY_LIMIT value: '2x' (expected e.g. '512m', '2g', or a byte count)"
    );
    assert_eq!(
        parse("CPU_LIMIT -1\n").unwrap_err(),
        "Line 1: CPU_LIMIT must be greater than 0"
    );
}

#[test]
fn download_keyword_as_is_case_insensitive() {
    let parsed = parse("download http://x/y.tar.gz as base\n").unwrap();
    assert_eq!(
        parsed.instructions,
        vec![Instruction::Download { url: "http://x/y.tar.gz".to_string(), alias: "base".to_string() }]
    );
}

#[test]
fn memory_limit_parts_splits_unit() {
    let p = memory_limit_parts(" 512 M ");
    assert_eq!((p.number.as_str(), p.multiplier), ("512", 1048576));
    let p = memory_limit_parts("100");
    assert_eq!((p.number.as_str(), p.multiplier), ("100", 1));
    let p = memory_limit_parts("3k");
    assert_eq!((p.number.as_str(), p.multiplier), ("3", 1024));
}

#[test]
fn first_refused_line_wins_over_later_ones() {
    assert_eq!(
        parse("FROM a\nCPU_LIMIT abc\nBOGUS\n").unwrap_err(),
        "Line 2: CPU_LIMIT must be a number (e.g. CPU_LIMIT 1.5)"
    );
    assert_eq!(parse("BOGUS\nCPU_LIMIT abc\n").unwrap_err(), "Line 1: Unknown keyword");
}

#[test]
fn verdicts_are_taken_in_limit_line_order() {
    let content = "CPU_LIMIT 2\nMEMORY_LIMIT 1g\nCPU_LIMIT 1\n";
    let ok = Rustockerfile::parse(content, &vec![NumberCheck::Valid, NumberCheck::Valid, NumberCheck::Valid]);
    assert_eq!(
        ok.unwrap().instructions,
        vec![
            Instruction::CpuLimit("2".to_string()),
            Instruction::MemoryLimit("1g".to_string()),
            Instruction::CpuLimit("1".to_string()),
        ]
    );
    let err = Rustockerfile::parse(content, &vec![NumberCheck::Valid, NumberCheck::Valid, NumberCheck::NotPositive]);
    assert_eq!(err.unwrap_err(), "Line 3: CPU_LIMIT must be greater than 0");
}
