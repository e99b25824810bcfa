use dscode::cmdline::{build_command_line, quote_arg};

fn wide(s: &str) -> Vec<u16> {
    let mut v: Vec<u16> = s.encode_utf16().collect();
    v.push(0);
    v
}

#[test]
fn plain_argument_is_left_as_is() {
    assert_eq!(quote_arg("probe"), "probe");
    assert_eq!(quote_arg(r"C:\dir\file.js"), r"C:\dir\file.js");
}

#[test]
fn empty_argument_is_quoted() {
    assert_eq!(quote_arg(""), "\"\"");
}

#[test]
fn argument_with_space_or_tab_is_quoted() {
    assert_eq!(quote_arg("a b"), "\"a b\"");
    assert_eq!(quote_arg("a\tb"), "\"a\tb\"");
}

#[test]
fn quote_inside_argument_is_escaped() {
    assert_eq!(quote_arg("a\"b"), r#""a\"b""#);
}

#[test]
fn backslashes_before_quote_are_doubled() {
    // a, two backslashes, a quote, b
    assert_eq!(quote_arg("a\\\\\"b"), r#""a\\\\\"b""#);
}

#[test]
fn trailing_backslashes_are_doubled_before_closing_quote() {
    assert_eq!(quote_arg(r"C:\my dir\"), r#""C:\my dir\\""#);
}

#[test]
fn backslashes_inside_quoted_argument_stay_single() {
    assert_eq!(quote_arg(r"C:\Program Files\node.exe"), r#""C:\Program Files\node.exe""#);
}

#[test]
fn command_line_quotes_script_path_with_spaces() {
    let args = vec![
        String::from(r"C:\Temp\dsh win spawn path with spaces 1\print argv.js"),
        String::from("probe"),
    ];
    let line = build_command_line(r"C:\node\node.exe", &args);
    assert_eq!(
        line,
        wide(r#"C:\node\node.exe "C:\Temp\dsh win spawn path with spaces 1\print argv.js" probe"#)
    );
}

#[test]
fn command_line_without_arguments_is_the_program() {
    let line = build_command_line(r"C:\Windows\System32\cmd.exe", &[]);
    assert_eq!(line, wide(r"C:\Windows\System32\cmd.exe"));
}

#[test]
fn command_line_ends_in_one_nul() {
    let args = vec![String::from("/d"), String::from("/c"), String::from("echo %X% && cd")];
    let line = build_command_line(r"C:\Windows\System32\cmd.exe", &args);
    assert_eq!(line, wide(r#"C:\Windows\System32\cmd.exe /d /c "echo %X% && cd""#));
    assert_eq!(line.iter().filter(|u| **u == 0).count(), 1);
}

#[test]
fn command_line_encodes_non_bmp_characters_as_surrogate_pairs() {
    let line = build_command_line("p", &[String::from("\u{1F600}")]);
    assert_eq!(line, vec![0x70, 0x20, 0xD83D, 0xDE00, 0]);
}

#[test]
fn program_path_with_spaces_is_quoted_without_escapes() {
    let line = build_command_line(r"C:\Program Files\DSCode\node\node.exe", &[String::from("-e")]);
    assert_eq!(line, wide(r#""C:\Program Files\DSCode\node\node.exe" -e"#));
}
