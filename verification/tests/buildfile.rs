use rustocker::buildfile::{classify_keyword, classify_line, LineItem};
use rustocker::rustockerfile::{memory_limit_parts, split_unit};

#[test]
fn classify_keyword_dispatches_on_upper_keyword() {
    assert_eq!(classify_keyword(0, "FROM", "alpine", "", false), LineItem::From("alpine".to_string()));
    assert_eq!(
        classify_keyword(4, "from", "alpine", "", false),
        LineItem::Fail("Line 5: Unknown keyword".to_string())
    );
    assert_eq!(
        classify_keyword(0, "COPY", "a  b", "", false),
        LineItem::Copy { src: "a".to_string(), dst: "b".to_string() }
    );
    assert_eq!(
        classify_keyword(1, "COPY", "a", "", false),
        LineItem::Fail("Line 2: Copy requires 2 arguments".to_string())
    );
    assert_eq!(
        classify_keyword(0, "CMD", "sh -c ls", "", false),
        LineItem::Cmd(vec!["sh".to_string(), "-c".to_string(), "ls".to_string()])
    );
    assert_eq!(classify_keyword(0, "RUN", "", "", false), LineItem::Fail("Line 1: Required argument (RUN)".to_string()));
}

#[test]
fn classify_keyword_download_needs_as() {
    assert_eq!(
        classify_keyword(0, "DOWNLOAD", "u as a", "AS", false),
        LineItem::Download { url: "u".to_string(), alias: "a".to_string() }
    );
    assert_eq!(
        classify_keyword(0, "DOWNLOAD", "u to a", "TO", false),
        LineItem::Fail("Line 1: DOWNLOAD syntax requires format: DOWNLOAD <URL> AS <ALIAS>".to_string())
    );
    assert_eq!(
        classify_keyword(0, "DOWNLOAD", "", "", false),
        LineItem::Fail("Line 1: URL is required (DOWNLOAD)".to_string())
    );
}

#[test]
fn classify_keyword_limits_only_when_known() {
    assert_eq!(classify_keyword(0, "CPU_LIMIT", "2", "", true), LineItem::CpuLimit("2".to_string()));
    assert_eq!(
        classify_keyword(0, "CPU_LIMIT", "2", "", false),
        LineItem::Fail("Line 1: Unknown keyword".to_string())
    );
    assert_eq!(classify_keyword(0, "MEMORY_LIMIT", "1g", "", true), LineItem::MemoryLimit("1g".to_string()));
}

#[test]
fn split_unit_takes_one_unit_letter() {
    let p = split_unit("512m");
    assert_eq!((p.number.as_str(), p.multiplier), ("512", 1048576));
    let p = split_unit("2 g");
    assert_eq!((p.number.as_str(), p.multiplier), ("2", 1073741824));
    let p = split_unit("8b");
    assert_eq!((p.number.as_str(), p.multiplier), ("8", 1));
    let p = split_unit("2M");
    assert_eq!((p.number.as_str(), p.multiplier), ("2M", 1));
    let p = split_unit("1kk");
    assert_eq!((p.number.as_str(), p.multiplier), ("1k", 1024));
}

fn classify_text(line: &str, with_limits: bool) -> LineItem {
    let v: Vec<char> = line.chars().collect();
    classify_line(&v, 0, v.len(), 0, with_limits)
}

#[test]
fn classify_line_reads_keywords_in_any_case() {
    for kw in ["FROM", "from", "fRoM"] {
        assert_eq!(classify_text(&format!("  {} alpine  ", kw), false), LineItem::From("alpine".to_string()));
    }
    assert_eq!(classify_text("cpu_limit 2", true), LineItem::CpuLimit("2".to_string()));
    assert_eq!(
        classify_text("Download u As a", false),
        LineItem::Download { url: "u".to_string(), alias: "a".to_string() }
    );
    assert_eq!(classify_text("FROMX alpine", false), LineItem::Fail("Line 1: Unknown keyword".to_string()));
}

#[test]
fn memory_units_are_read_in_any_case() {
    let upper = memory_limit_parts(" 2G ");
    let lower = memory_limit_parts("2g");
    assert_eq!(upper.number, "2");
    assert_eq!(upper.multiplier, 1073741824);
    assert_eq!(upper.number, lower.number);
    assert_eq!(upper.multiplier, lower.multiplier);
    assert_eq!(memory_limit_parts("512K").multiplier, 1024);
}
