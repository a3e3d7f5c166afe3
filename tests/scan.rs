use aegrep::config::Config;
use aegrep::error::ScanError;
use aegrep::lines::split_lines;
use aegrep::pattern::Pattern;
use aegrep::scan::{collect_matches, scan, scan_bytes, MatchRecord};

fn pattern(src: &str) -> Pattern {
    Pattern::new(src).unwrap()
}

fn record(line: usize, text: &str) -> MatchRecord {
    MatchRecord { line, text: text.to_string() }
}

fn run(content: &str, src: &str) -> Vec<MatchRecord> {
    scan(Some(content.as_bytes().to_vec()), &pattern(src)).unwrap()
}

#[test]
fn substring_matches_one_line() {
    assert_eq!(run("apple\nbanana\ncherry\n", "an"), vec![record(1, "banana")]);
}

#[test]
fn anchored_pattern_matches_two_lines() {
    assert_eq!(
        run("foo\nbar\nbaz\n", "^b"),
        vec![record(1, "bar"), record(2, "baz")]
    );
}

#[test]
fn empty_file_gives_no_records() {
    assert_eq!(run("", ".*"), vec![]);
}

#[test]
fn invalid_utf8_gives_no_records() {
    let p = pattern(".*");
    assert_eq!(scan(Some(vec![0xff]), &p), Ok(vec![]));
    assert_eq!(scan_bytes(vec![b'a', b'\n', 0xc3, b'\n'], &p), vec![]);
}

#[test]
fn unreadable_file_is_io_error() {
    assert_eq!(scan(None, &pattern("x")), Err(ScanError::IoError));
}

#[test]
fn unbalanced_group_is_pattern_error() {
    assert!(matches!(Pattern::new("("), Err(ScanError::PatternError)));
    assert!(matches!(
        Config::new("(", Some("/no/such/file".to_string())),
        Err(ScanError::PatternError)
    ));
    assert!(matches!(Config::new("(", None), Err(ScanError::PatternError)));
}

#[test]
fn missing_file_is_missing_argument() {
    assert!(matches!(Config::new("x", None), Err(ScanError::MissingArgument)));
}

#[test]
fn config_keeps_pattern_and_path() {
    let c = Config::new("a+b", Some("input.txt".to_string())).unwrap();
    assert_eq!(c.pattern.as_str(), "a+b");
    assert_eq!(c.path, "input.txt");
}

#[test]
fn every_matching_line_and_no_other() {
    assert_eq!(
        run("x1\ny\nx2\nzx\n", "x"),
        vec![record(0, "x1"), record(2, "x2"), record(3, "zx")]
    );
    assert_eq!(run("a\nb\n", "q"), vec![]);
}

#[test]
fn record_lines_strictly_increase() {
    let rs = run("a\na\nb\na\n\na", "a");
    assert_eq!(rs.len(), 4);
    for w in rs.windows(2) {
        assert!(w[0].line < w[1].line);
    }
}

#[test]
fn crlf_and_lf_give_the_same_text() {
    let lf = run("one\ntwo\n", "o");
    let crlf = run("one\r\ntwo\r\n", "o");
    assert_eq!(lf, vec![record(0, "one"), record(1, "two")]);
    assert_eq!(crlf, lf);
    assert_eq!(run("one\r\n", "\r"), vec![]);
}

#[test]
fn final_line_without_terminator_is_kept() {
    assert_eq!(run("a\nab", "b"), vec![record(1, "ab")]);
    assert_eq!(run("a\r", "a"), vec![record(0, "a\r")]);
}

#[test]
fn empty_lines_are_counted() {
    assert_eq!(run("\n\nx\n", "^$"), vec![record(0, ""), record(1, "")]);
    assert_eq!(run("\n\nx\n", "x"), vec![record(2, "x")]);
}

#[test]
fn repeated_scans_agree() {
    let p = pattern("an");
    let content = b"apple\nbanana\ncanal\n".to_vec();
    let first = scan(Some(content.clone()), &p);
    let second = scan(Some(content), &p);
    assert_eq!(first, second);
    assert_eq!(first, Ok(vec![record(1, "banana"), record(2, "canal")]));
}

#[test]
fn non_ascii_text_is_decoded() {
    assert_eq!(run("héllo\nwörld\n", "ö"), vec![record(1, "wörld")]);
    assert_eq!(run("héllo\nwörld\n", "^h.l"), vec![record(0, "héllo")]);
}

#[test]
fn split_lines_handles_terminators() {
    assert_eq!(split_lines("a\n\nb"), vec!["a", "", "b"]);
    assert_eq!(split_lines("\n"), vec![""]);
    assert_eq!(split_lines(""), Vec::<String>::new());
    assert_eq!(split_lines("x\r\ny\rz\r\n"), vec!["x", "y\rz"]);
}

#[test]
fn collect_matches_keeps_flagged_lines() {
    let lines = vec!["p".to_string(), "q".to_string(), "r".to_string()];
    assert_eq!(
        collect_matches(&lines, &vec![true, false, true]),
        vec![record(0, "p"), record(2, "r")]
    );
    assert_eq!(collect_matches(&lines, &vec![false, false, false]), vec![]);
}
