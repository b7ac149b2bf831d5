use cathead::error::ConfigError;
use cathead::headr::{get_args, parse_positive_int, run, DEFAULT_LINES};
use cathead::orchestrate::{Engine, ReadPlan};
use cathead::parse::{parse_usize, ParseFailure};
use cathead::source::Fetched;
use cathead::truncate::{
    head_bytes, measure_lines, take_bytes, take_lines, truncate, TruncateMode,
};

fn opened(content: &[u8]) -> Fetched {
    Fetched::Opened { content: content.to_vec(), failure: None }
}

fn names(list: &[&str]) -> Vec<String> {
    list.iter().map(|name| name.to_string()).collect()
}

#[test]
fn test_parse_positive_int() {
    let res = parse_positive_int("3", "hoge");
    assert!(res.is_ok());
    assert_eq!(res.unwrap(), 3);

    let res = parse_positive_int("foo", "fuga");
    assert!(res.is_err());
    assert_eq!(
        res.unwrap_err().to_string(),
        "invalid value 'foo' for fuga: invalid digit found in string".to_string()
    );
    let res = parse_positive_int("0", "piyo");
    assert!(res.is_err());
    assert_eq!(res.unwrap_err().to_string(), "invalid value '0' (must be > 0)".to_string());
}

#[test]
fn parse_positive_int_names_each_error() {
    assert_eq!(
        parse_positive_int("", "opt"),
        Err(ConfigError::Malformed {
            value: "".to_string(),
            option: "opt".to_string(),
            failure: ParseFailure::Empty,
        })
    );
    assert_eq!(
        parse_positive_int("12x", "opt"),
        Err(ConfigError::Malformed {
            value: "12x".to_string(),
            option: "opt".to_string(),
            failure: ParseFailure::InvalidDigit,
        })
    );
    assert_eq!(
        parse_positive_int("99999999999999999999999999", "opt"),
        Err(ConfigError::Malformed {
            value: "99999999999999999999999999".to_string(),
            option: "opt".to_string(),
            failure: ParseFailure::TooLarge,
        })
    );
    assert_eq!(
        parse_positive_int("000", "opt"),
        Err(ConfigError::NotPositive { value: "000".to_string() })
    );
    assert_eq!(parse_positive_int("+42", "opt"), Ok(42));
    assert_eq!(parse_positive_int("007", "opt"), Ok(7));
}

#[test]
fn config_error_messages() {
    let empty = parse_positive_int("", "'--lines <LINES>'").unwrap_err();
    assert_eq!(
        empty.to_string(),
        "invalid value '' for '--lines <LINES>': cannot parse integer from empty string"
    );
    let large = parse_positive_int("99999999999999999999999999", "n").unwrap_err();
    assert_eq!(
        large.to_string(),
        "invalid value '99999999999999999999999999' for n: number too large to fit in target type"
    );
    assert_eq!(
        ConfigError::NumberingConflict.to_string(),
        "the argument '--number-nonblank' cannot be used with '--number'"
    );
}

#[test]
fn parse_usize_agrees_with_the_standard_parser() {
    let max = usize::MAX.to_string();
    let mut past = max.clone();
    past.push('0');
    let texts: Vec<String> = vec![
        "0".to_string(),
        "1".to_string(),
        "+1".to_string(),
        "+".to_string(),
        "-".to_string(),
        "-1".to_string(),
        "++1".to_string(),
        " 1".to_string(),
        "1 ".to_string(),
        "1_000".to_string(),
        "12a".to_string(),
        "a12".to_string(),
        "\u{663}".to_string(),
        max.clone(),
        past.clone(),
        "18446744073709551616".to_string(),
        "00000000000000000000000000000000000001".to_string(),
        format!("{}x", max),
        format!("{}x", past),
        format!("+{}", max),
    ];
    for text in texts.iter() {
        let ours = parse_usize(text.as_bytes());
        let theirs = text.parse::<usize>();
        match (&ours, &theirs) {
            (Ok(a), Ok(b)) => assert_eq!(a, b),
            (Err(failure), Err(error)) => {
                assert_eq!(failure.describe(), error.to_string(), "for {:?}", text)
            }
            _ => panic!("disagreement on {:?}: {:?} and {:?}", text, ours, theirs),
        }
    }
    assert_eq!(parse_usize(b""), Err(ParseFailure::Empty));
    assert_eq!(parse_usize(max.as_bytes()), Ok(usize::MAX));
    assert_eq!(parse_usize(past.as_bytes()), Err(ParseFailure::TooLarge));
}

#[test]
fn get_args_builds_the_options() {
    let config = get_args(names(&["a", "b"]), Some("3"), None).unwrap();
    assert_eq!(config.files(), &names(&["a", "b"]));
    assert_eq!(config.lines(), 3);
    assert_eq!(config.bytes(), None);
    assert_eq!(config.engine(), Engine::Truncate(TruncateMode::Lines(3)));

    let config = get_args(Vec::new(), None, Some("7")).unwrap();
    assert_eq!(config.files(), &names(&["-"]));
    assert_eq!(config.lines(), DEFAULT_LINES);
    assert_eq!(config.lines(), 10);
    assert_eq!(config.bytes(), Some(7));
    assert_eq!(config.engine(), Engine::Truncate(TruncateMode::Bytes(7)));
    assert_eq!(config.engine().read_plan(), ReadPlan::Bytes(7));
}

#[test]
fn get_args_reports_bad_limits() {
    assert_eq!(
        get_args(names(&["a"]), Some("x"), None).unwrap_err(),
        "error: invalid value 'x' for '--lines <LINES>': invalid digit found in string bar"
    );
    assert_eq!(
        get_args(names(&["a"]), Some("0"), None).unwrap_err(),
        "error: invalid value '0' (must be > 0) bar"
    );
    assert_eq!(
        get_args(names(&["a"]), None, Some("1k")).unwrap_err(),
        "invalid value '1k' for '--bytes <BYTES>': invalid digit found in string"
    );
    assert_eq!(
        get_args(names(&["a"]), None, Some("0")).unwrap_err(),
        "invalid value '0' (must be > 0)"
    );
    assert_eq!(
        get_args(names(&["a"]), Some("x"), Some("y")).unwrap_err(),
        "error: invalid value 'x' for '--lines <LINES>': invalid digit found in string bar"
    );
}

#[test]
fn byte_window_keeps_the_first_bytes() {
    assert_eq!(take_bytes(b"hello world", 5), b"hello");
    assert_eq!(take_bytes(b"hello", 5), b"hello");
    assert_eq!(take_bytes(b"hi", 5), b"hi");
    assert_eq!(take_bytes(b"", 5), b"");
    assert_eq!(take_bytes(b"hello", 0), b"");
}

#[test]
fn byte_window_of_a_window_is_the_window() {
    let content = b"one\ntwo\nthree\n";
    for limit in 0..20 {
        let once = take_bytes(content, limit).to_vec();
        let twice = take_bytes(&once, limit).to_vec();
        assert_eq!(once, twice);
        assert_eq!(once.len(), limit.min(content.len()));
        assert_eq!(head_bytes(&once, limit), head_bytes(content, limit));
    }
}

#[test]
fn bytes_mode_example() {
    assert_eq!(head_bytes(b"hello world", 5), b"hello".to_vec());
    let config = get_args(names(&["greeting"]), None, Some("5")).unwrap();
    let report = run(config, &vec![opened(b"hello world")]);
    assert_eq!(report.stdout, b"hello".to_vec());
    assert_eq!(report.stderr, Vec::<u8>::new());
}

#[test]
fn bytes_mode_replaces_what_is_not_text() {
    assert_eq!(head_bytes(&[0xff, b'a'], 2), "\u{fffd}a".as_bytes().to_vec());
    // The window cuts the two bytes of the letter in two.
    assert_eq!(head_bytes("é".as_bytes(), 1), "\u{fffd}".as_bytes().to_vec());
    assert_eq!(head_bytes("é".as_bytes(), 2), "é".as_bytes().to_vec());
    assert_eq!(
        truncate(&[b'o', b'k', 0x80], TruncateMode::Bytes(10)),
        "ok\u{fffd}".as_bytes().to_vec()
    );
}

#[test]
fn line_window_keeps_the_first_lines() {
    assert_eq!(take_lines(b"a\nb\nc\n", 2), b"a\nb\n");
    assert_eq!(take_lines(b"a\nb\nc\n", 3), b"a\nb\nc\n");
    assert_eq!(take_lines(b"a\nb\nc\n", 10), b"a\nb\nc\n");
    assert_eq!(take_lines(b"a\nb\nc", 3), b"a\nb\nc");
    assert_eq!(take_lines(b"a\r\nb\r\n", 1), b"a\r\n");
    assert_eq!(take_lines(b"\n\n\n", 2), b"\n\n");
    assert_eq!(take_lines(b"", 2), b"");
    assert_eq!(take_lines(b"a\nb\n", 0), b"");
    assert_eq!(take_lines(b"no newline", 1), b"no newline");
}

#[test]
fn line_window_counts_the_lines() {
    let content = b"one\ntwo\n\nfour\nlast";
    for limit in 0..8 {
        let (count, end) = measure_lines(content, limit);
        assert_eq!(count, limit.min(5));
        assert_eq!(&content[..end], take_lines(content, limit));
        let again = measure_lines(take_lines(content, limit), usize::MAX);
        assert_eq!(again.0, count);
    }
    assert_eq!(measure_lines(b"a\nb\n", 5), (2, 4));
    assert_eq!(measure_lines(b"a\nb", 5), (2, 3));
}

#[test]
fn lines_mode_keeps_invalid_bytes_as_they_are() {
    assert_eq!(
        truncate(&[0xff, b'\n', b'x', b'\n'], TruncateMode::Lines(1)),
        vec![0xff, b'\n']
    );
}

#[test]
fn two_files_example() {
    let config = get_args(names(&["A", "B"]), Some("10"), None).unwrap();
    let report = run(config, &vec![opened(b"one\ntwo\n"), opened(b"three\n")]);
    assert_eq!(report.stdout, b"==> A <==\none\ntwo\n\n==> B <==\nthree\n".to_vec());
    assert_eq!(report.stderr, Vec::<u8>::new());
}

#[test]
fn one_file_has_no_header() {
    let config = get_args(names(&["A"]), Some("1"), None).unwrap();
    let report = run(config, &vec![opened(b"one\ntwo\n")]);
    assert_eq!(report.stdout, b"one\n".to_vec());
}

#[test]
fn missing_file_is_reported_and_skipped() {
    let config = get_args(names(&["A", "gone", "B"]), Some("1"), None).unwrap();
    let sources = vec![
        opened(b"one\ntwo\n"),
        Fetched::Unopened { cause: "No such file or directory (os error 2)".to_string() },
        opened(b"three\n"),
    ];
    let report = run(config, &sources);
    assert_eq!(report.stdout, b"==> A <==\none\n\n==> B <==\nthree\n".to_vec());
    assert_eq!(report.stderr, b"gone: No such file or directory (os error 2)\n".to_vec());
}

#[test]
fn read_failure_counts_only_where_the_engine_reads_on() {
    let broken = Fetched::Opened { content: b"a\nb\n".to_vec(), failure: Some("boom".to_string()) };
    let config = get_args(names(&["f"]), Some("2"), None).unwrap();
    let report = run(config, &vec![broken.clone()]);
    assert_eq!(report.stdout, b"a\nb\n".to_vec());
    assert_eq!(report.stderr, Vec::<u8>::new());

    let config = get_args(names(&["f"]), Some("3"), None).unwrap();
    let report = run(config, &vec![broken.clone()]);
    assert_eq!(report.stdout, b"a\nb\n".to_vec());
    assert_eq!(report.stderr, b"f: boom\n".to_vec());

    let config = get_args(names(&["f"]), None, Some("3")).unwrap();
    let report = run(config, &vec![broken]);
    assert_eq!(report.stdout, b"a\nb".to_vec());
    assert_eq!(report.stderr, Vec::<u8>::new());

    let nothing = Fetched::Opened { content: Vec::new(), failure: Some("boom".to_string()) };
    let config = get_args(names(&["f"]), None, Some("3")).unwrap();
    let report = run(config, &vec![nothing]);
    assert_eq!(report.stdout, Vec::<u8>::new());
    assert_eq!(report.stderr, b"f: boom\n".to_vec());
}

#[test]
fn engine_says_whether_it_reads_on() {
    let lines = Engine::Truncate(TruncateMode::Lines(2));
    assert!(lines.wants_more(b"a\n"));
    assert!(!lines.wants_more(b"a\nb\n"));
    assert!(!lines.wants_more(b"a\nb\nc\n"));
    let bytes = Engine::Truncate(TruncateMode::Bytes(2));
    assert!(bytes.wants_more(b""));
    assert!(!bytes.wants_more(b"a"));
    assert!(!Engine::Truncate(TruncateMode::Bytes(0)).wants_more(b""));
    assert_eq!(lines.read_plan(), ReadPlan::Lines(2));
    assert!(ReadPlan::Lines(2).allows_line(1));
    assert!(!ReadPlan::Lines(2).allows_line(2));
    assert!(ReadPlan::ToEnd.allows_line(usize::MAX));
    assert!(!ReadPlan::Bytes(9).allows_line(0));
    assert_eq!(lines.transform(b"a\nb\nc\n"), b"a\nb\n".to_vec());
}
