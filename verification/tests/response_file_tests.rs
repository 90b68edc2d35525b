use rustc_worker::response_file::{response_file_arguments, ResponseFileError};

fn arguments_of(content: &[u8]) -> Vec<String> {
    response_file_arguments(content).unwrap()
}

fn lines_of_std(content: &[u8]) -> std::io::Result<Vec<String>> {
    std::io::BufRead::lines(content).collect()
}

#[test]
fn response_file_with_one_argument_per_line() {
    assert_eq!(
        arguments_of(b"--crate-name\nfoo\nsrc/lib.rs\n"),
        vec!["--crate-name".to_string(), "foo".to_string(), "src/lib.rs".to_string()]
    );
}

#[test]
fn response_file_without_a_last_line_feed() {
    assert_eq!(arguments_of(b"a\nb"), vec!["a".to_string(), "b".to_string()]);
    assert_eq!(arguments_of(b"only"), vec!["only".to_string()]);
}

#[test]
fn response_file_that_is_empty() {
    assert_eq!(arguments_of(b""), Vec::<String>::new());
}

#[test]
fn response_file_with_empty_lines() {
    assert_eq!(arguments_of(b"\n"), vec![String::new()]);
    assert_eq!(arguments_of(b"\n\n"), vec![String::new(), String::new()]);
    assert_eq!(arguments_of(b"a\n\nb\n"), vec!["a".to_string(), String::new(), "b".to_string()]);
}

#[test]
fn response_file_with_carriage_returns() {
    assert_eq!(arguments_of(b"a\r\nb\r\n"), vec!["a".to_string(), "b".to_string()]);
    assert_eq!(arguments_of(b"a\r\n\r\n"), vec!["a".to_string(), String::new()]);
    // only one carriage return belongs to the line's end, and only before a line feed
    assert_eq!(arguments_of(b"a\r\r\nb\r"), vec!["a\r".to_string(), "b\r".to_string()]);
    assert_eq!(arguments_of(b"a\rb\n"), vec!["a\rb".to_string()]);
    assert_eq!(arguments_of(b"\r"), vec!["\r".to_string()]);
    assert_eq!(arguments_of(b"\r\n"), vec![String::new()]);
}

#[test]
fn response_file_keeps_blanks_and_text() {
    assert_eq!(
        arguments_of("  --cfg feature=\"a b\" \n\tключ\n🦀\n".as_bytes()),
        vec!["  --cfg feature=\"a b\" ".to_string(), "\tключ".to_string(), "🦀".to_string()]
    );
}

#[test]
fn response_file_with_a_line_that_is_no_utf8() {
    assert_eq!(
        response_file_arguments(&[b'a', b'\n', 0xff, b'\n', b'c', b'\n']),
        Err(ResponseFileError::LineNotUtf8 { line: 1 })
    );
    assert_eq!(
        response_file_arguments(&[0xc3, 0x28]),
        Err(ResponseFileError::LineNotUtf8 { line: 0 })
    );
    assert_eq!(
        response_file_arguments(&[b'a', b'\n', b'b', b'\n', 0xe2, 0x82]),
        Err(ResponseFileError::LineNotUtf8 { line: 2 })
    );
}

#[test]
fn response_file_names_the_first_bad_line() {
    assert_eq!(
        response_file_arguments(&[b'a', b'\n', 0xff, b'\n', 0xfe, b'\n']),
        Err(ResponseFileError::LineNotUtf8 { line: 1 })
    );
}

#[test]
fn response_file_does_not_cut_inside_a_character() {
    // a line feed never is part of a longer UTF-8 sequence
    assert_eq!(arguments_of("é\nü".as_bytes()), vec!["é".to_string(), "ü".to_string()]);
    assert_eq!(
        response_file_arguments(&[0xc3, b'\n', 0xa9]),
        Err(ResponseFileError::LineNotUtf8 { line: 0 })
    );
}

#[test]
fn response_file_agrees_with_the_lines_of_std() {
    let cases: Vec<&[u8]> = vec![
        b"",
        b"\n",
        b"\r\n",
        b"\r",
        b"a",
        b"a\n",
        b"a\r\n",
        b"a\r",
        b"a\n\n",
        b"a\r\n\r\nb",
        b"a\r\r\n",
        b"\n\r\n\r",
        b"one\ntwo\r\nthree",
        b"--edition=2021\n-C\nopt-level=3\n--extern\nfoo=libfoo.rlib\n",
        "ключ\r\nзначение\n".as_bytes(),
        &[0xff, b'\n'],
        &[b'a', b'\n', 0xc3],
    ];
    for content in cases {
        match lines_of_std(content) {
            Ok(lines) => assert_eq!(response_file_arguments(content), Ok(lines)),
            Err(_) => assert!(response_file_arguments(content).is_err()),
        }
    }
}
