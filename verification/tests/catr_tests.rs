use cathead::ascii::append;
use cathead::catr::{get_args, run};
use cathead::decimal::push_number;
use cathead::error::ConfigError;
use cathead::lines::{line_end, text_end};
use cathead::number::{number_lines, NumberMode};
use cathead::orchestrate::{
    orchestrate, process_file, push_diagnostic, push_header, Engine, ReadPlan,
};
use cathead::source::{or_standard_input, resolve, Fetched, InputKind};

fn opened_text(content: &str) -> Fetched {
    Fetched::Opened { content: content.as_bytes().to_vec(), failure: None }
}

fn file_names(list: &[&str]) -> Vec<String> {
    list.iter().map(|name| name.to_string()).collect()
}

fn field(n: usize) -> String {
    let mut out = Vec::new();
    push_number(&mut out, n);
    String::from_utf8(out).unwrap()
}

#[test]
fn number_field_is_right_justified() {
    assert_eq!(field(0), "     0");
    assert_eq!(field(1), "     1");
    assert_eq!(field(9), "     9");
    assert_eq!(field(10), "    10");
    assert_eq!(field(12345), " 12345");
    assert_eq!(field(123456), "123456");
    assert_eq!(field(1234567), "1234567");
    assert_eq!(field(usize::MAX), usize::MAX.to_string());
    for n in [0usize, 5, 42, 999, 1000, 99999, 100000, 999999, 1000000] {
        assert_eq!(field(n), format!("{:>6}", n));
    }
}

#[test]
fn push_number_appends() {
    let mut out = b"x".to_vec();
    push_number(&mut out, 7);
    assert_eq!(out, b"x     7".to_vec());
    append(&mut out, b"yz");
    assert_eq!(out, b"x     7yz".to_vec());
}

#[test]
fn lines_are_found() {
    let content = b"ab\n\ncd\r\nlast";
    assert_eq!(line_end(content, 0), 3);
    assert_eq!(line_end(content, 1), 3);
    assert_eq!(line_end(content, 3), 4);
    assert_eq!(line_end(content, 4), 8);
    assert_eq!(line_end(content, 8), 12);
    assert_eq!(line_end(content, 12), 12);
    assert_eq!(text_end(content, 0, 3), 2);
    assert_eq!(text_end(content, 3, 4), 3);
    assert_eq!(text_end(content, 4, 8), 6);
    assert_eq!(text_end(content, 8, 12), 12);
    assert_eq!(text_end(b"\r\n", 0, 2), 0);
    assert_eq!(text_end(b"a\r", 0, 2), 2);
}

#[test]
fn nonblank_example() {
    assert_eq!(
        number_lines(b"foo\n\nbar\n", NumberMode::NonBlank),
        b"     1\tfoo\n\n     2\tbar\n".to_vec()
    );
    let config = get_args(file_names(&["A"]), false, true).unwrap();
    let report = run(config, &vec![opened_text("foo\n\nbar\n")]);
    assert_eq!(report.stdout, b"     1\tfoo\n\n     2\tbar\n".to_vec());
    assert_eq!(report.stderr, Vec::<u8>::new());
}

#[test]
fn every_line_is_numbered() {
    assert_eq!(
        number_lines(b"foo\n\nbar\n", NumberMode::All),
        b"     1\tfoo\n     2\t\n     3\tbar\n".to_vec()
    );
    let mut content = Vec::new();
    let mut expected = String::new();
    for k in 1..=12 {
        content.extend_from_slice(format!("line {}\n", k).as_bytes());
        expected.push_str(&format!("{:>6}\tline {}\n", k, k));
    }
    assert_eq!(number_lines(&content, NumberMode::All), expected.into_bytes());
}

#[test]
fn blank_lines_get_no_number() {
    assert_eq!(
        number_lines(b"\n\n\na\n\n\nb\n\nc\n", NumberMode::NonBlank),
        b"\n\n\n     1\ta\n\n\n     2\tb\n\n     3\tc\n".to_vec()
    );
    assert_eq!(
        number_lines(b"a\nb\nc\n", NumberMode::NonBlank),
        b"     1\ta\n     2\tb\n     3\tc\n".to_vec()
    );
}

#[test]
fn plain_lines_are_written_as_they_are() {
    assert_eq!(number_lines(b"foo\n\nbar\n", NumberMode::Plain), b"foo\n\nbar\n".to_vec());
    assert_eq!(number_lines(b"", NumberMode::Plain), Vec::<u8>::new());
    assert_eq!(number_lines(b"", NumberMode::All), Vec::<u8>::new());
}

#[test]
fn terminators_are_stripped_and_written_anew() {
    assert_eq!(number_lines(b"no newline", NumberMode::Plain), b"no newline\n".to_vec());
    assert_eq!(number_lines(b"a\r\nb\r\n", NumberMode::Plain), b"a\nb\n".to_vec());
    assert_eq!(number_lines(b"a\r", NumberMode::Plain), b"a\r\n".to_vec());
    assert_eq!(number_lines(b"\r\n", NumberMode::NonBlank), b"\n".to_vec());
    assert_eq!(number_lines(b"a\r\r\n", NumberMode::All), b"     1\ta\r\n".to_vec());
    assert_eq!(number_lines(b" \n", NumberMode::NonBlank), b"     1\t \n".to_vec());
}

#[test]
fn get_args_builds_the_numbering_options() {
    let config = get_args(file_names(&["a", "b"]), true, false).unwrap();
    assert_eq!(config.files(), &file_names(&["a", "b"]));
    assert!(config.number_lines());
    assert!(!config.number_nonblank_lines());
    assert_eq!(config.mode(), NumberMode::All);
    assert_eq!(config.engine(), Engine::Number(NumberMode::All));
    assert_eq!(config.engine().read_plan(), ReadPlan::ToEnd);

    let config = get_args(Vec::new(), false, true).unwrap();
    assert_eq!(config.files(), &file_names(&["-"]));
    assert_eq!(config.mode(), NumberMode::NonBlank);

    let config = get_args(Vec::new(), false, false).unwrap();
    assert_eq!(config.mode(), NumberMode::Plain);
}

#[test]
fn get_args_refuses_both_numberings() {
    assert_eq!(get_args(file_names(&["a"]), true, true).unwrap_err(), ConfigError::NumberingConflict);
}

#[test]
fn hyphen_names_the_standard_input() {
    assert_eq!(resolve("-"), InputKind::StandardInput);
    assert_eq!(resolve("--"), InputKind::File);
    assert_eq!(resolve(""), InputKind::File);
    assert_eq!(resolve("a-"), InputKind::File);
    assert_eq!(resolve("file.txt"), InputKind::File);
    assert_eq!(resolve("\u{2212}"), InputKind::File);
    assert_eq!(or_standard_input(Vec::new()), file_names(&["-"]));
    assert_eq!(or_standard_input(file_names(&["x", "x"])), file_names(&["x", "x"]));
}

#[test]
fn headers_and_diagnostics_are_formed() {
    let mut out = Vec::new();
    push_header(&mut out, "first", 0);
    assert_eq!(out, b"==> first <==\n".to_vec());
    push_header(&mut out, "sec\u{f6}nd", 1);
    assert_eq!(out, "==> first <==\n\n==> sec\u{f6}nd <==\n".as_bytes().to_vec());
    let mut err = Vec::new();
    push_diagnostic(&mut err, "name", "cause");
    assert_eq!(err, b"name: cause\n".to_vec());
}

#[test]
fn several_files_get_headers_and_numbers_of_their_own() {
    let config = get_args(file_names(&["A", "B"]), true, false).unwrap();
    let report = run(config, &vec![opened_text("x\ny\n"), opened_text("z\n")]);
    assert_eq!(
        report.stdout,
        b"==> A <==\n     1\tx\n     2\ty\n\n==> B <==\n     1\tz\n".to_vec()
    );
}

#[test]
fn header_of_a_later_file_keeps_its_blank_line() {
    let config = get_args(file_names(&["gone", "B"]), false, false).unwrap();
    let sources = vec![Fetched::Unopened { cause: "denied".to_string() }, opened_text("z\n")];
    let report = run(config, &sources);
    assert_eq!(report.stdout, b"\n==> B <==\nz\n".to_vec());
    assert_eq!(report.stderr, b"gone: denied\n".to_vec());
}

#[test]
fn one_header_for_each_opened_file() {
    let engine = Engine::Number(NumberMode::Plain);
    let files = file_names(&["a", "b", "c", "d"]);
    let sources = vec![
        opened_text("1\n"),
        Fetched::Unopened { cause: "x".to_string() },
        opened_text(""),
        opened_text("4\n"),
    ];
    let report = orchestrate(&engine, &files, &sources);
    let text = String::from_utf8(report.stdout).unwrap();
    assert_eq!(text, "==> a <==\n1\n\n==> c <==\n\n==> d <==\n4\n");
    assert_eq!(text.matches("==> ").count(), 3);
    assert_eq!(report.stderr, b"b: x\n".to_vec());

    let alone = orchestrate(&engine, &file_names(&["a"]), &vec![opened_text("1\n")]);
    assert_eq!(alone.stdout, b"1\n".to_vec());
    let none = orchestrate(&engine, &Vec::new(), &Vec::new());
    assert_eq!(none.stdout, Vec::<u8>::new());
    assert_eq!(none.stderr, Vec::<u8>::new());
}

#[test]
fn a_run_is_its_files_one_after_the_other() {
    let engine = Engine::Number(NumberMode::NonBlank);
    let files = file_names(&["a", "b", "c"]);
    let sources = vec![
        opened_text("1\n\n2\n"),
        Fetched::Unopened { cause: "x".to_string() },
        Fetched::Opened { content: b"3\n".to_vec(), failure: Some("lost".to_string()) },
    ];
    let whole = orchestrate(&engine, &files, &sources);
    let mut stdout = Vec::new();
    let mut stderr = Vec::new();
    for i in 0..files.len() {
        let part = process_file(&engine, &files[i], i, files.len(), &sources[i]);
        stdout.extend_from_slice(&part.stdout);
        stderr.extend_from_slice(&part.stderr);
    }
    assert_eq!(whole.stdout, stdout);
    assert_eq!(whole.stderr, stderr);
    assert_eq!(whole.stderr, b"b: x\nc: lost\n".to_vec());
    assert_eq!(
        whole.stdout,
        b"==> a <==\n     1\t1\n\n     2\t2\n\n==> c <==\n     1\t3\n".to_vec()
    );
}
