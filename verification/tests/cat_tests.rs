use vcat::cat::{cat_content, concat_paths, print_simple, print_with_options};
use vcat::cli::NumberingMode;
use vcat::options::OutputOptions;

fn opts(numbering_mode: NumberingMode, show_ends: bool) -> OutputOptions {
    OutputOptions { numbering_mode, show_ends }
}

#[test]
fn simple_round_trip_binary() {
    let content: Vec<u8> = vec![0, 255, 10, 13, 128, 7, 10, 10, 42];
    let out = cat_content(&content, &opts(NumberingMode::Never, false)).unwrap();
    assert_eq!(out, content);
}

#[test]
fn simple_round_trip_empty() {
    let content: Vec<u8> = Vec::new();
    let out = cat_content(&content, &opts(NumberingMode::Never, false)).unwrap();
    assert_eq!(out, content);
}

#[test]
fn print_simple_is_copy() {
    let content: Vec<u8> = b"no newline at all".to_vec();
    assert_eq!(print_simple(&content), content);
}

#[test]
fn number_all_lines() {
    let content: Vec<u8> = b"a\n\nb\n".to_vec();
    let out = cat_content(&content, &opts(NumberingMode::All, false)).unwrap();
    assert_eq!(out, b"     0\ta     1\t     2\tb".to_vec());
}

#[test]
fn number_non_empty_lines() {
    let content: Vec<u8> = b"a\n\nb\n".to_vec();
    let out = cat_content(&content, &opts(NumberingMode::NonEmpty, false)).unwrap();
    assert_eq!(out, b"     0\ta     2\tb".to_vec());
}

#[test]
fn show_ends_marks_lines() {
    let content: Vec<u8> = b"a\n\n".to_vec();
    let out = cat_content(&content, &opts(NumberingMode::Never, true)).unwrap();
    assert_eq!(out, b"a$\n     $\n".to_vec());
}

#[test]
fn show_ends_with_numbering() {
    let content: Vec<u8> = b"a\n\n".to_vec();
    let out = cat_content(&content, &opts(NumberingMode::All, true)).unwrap();
    assert_eq!(out, b"     0\ta$\n     1\t     $\n".to_vec());
}

#[test]
fn crlf_terminator_stripped() {
    let content: Vec<u8> = b"a\r\n".to_vec();
    let out = cat_content(&content, &opts(NumberingMode::Never, true)).unwrap();
    assert_eq!(out, b"a$\n".to_vec());
}

#[test]
fn lone_trailing_cr_kept() {
    let content: Vec<u8> = b"a\r".to_vec();
    let out = cat_content(&content, &opts(NumberingMode::Never, true)).unwrap();
    assert_eq!(out, b"a\r$\n".to_vec());
}

#[test]
fn unterminated_final_line() {
    let content: Vec<u8> = b"a\nb".to_vec();
    let out = cat_content(&content, &opts(NumberingMode::All, false)).unwrap();
    assert_eq!(out, b"     0\ta     1\tb".to_vec());
}

#[test]
fn multibyte_utf8_line_accepted() {
    let content: Vec<u8> = vec![0xC3, 0xA9, 0x0A];
    let out = cat_content(&content, &opts(NumberingMode::All, true)).unwrap();
    let mut expected: Vec<u8> = b"     0\t".to_vec();
    expected.extend([0xC3, 0xA9, b'$', b'\n']);
    assert_eq!(out, expected);
}

#[test]
fn invalid_utf8_first_line() {
    let content: Vec<u8> = vec![0xFF, 0x0A, b'a', 0x0A];
    let e = cat_content(&content, &opts(NumberingMode::All, false)).unwrap_err();
    assert_eq!(e.line_number, 0);
    assert_eq!(e.written, Vec::<u8>::new());
}

#[test]
fn invalid_utf8_later_line() {
    let content: Vec<u8> = vec![b'o', b'k', 0x0A, 0xFF, 0x0A, b'z', 0x0A];
    let e = print_with_options(&content, &opts(NumberingMode::All, false)).unwrap_err();
    assert_eq!(e.line_number, 1);
    assert_eq!(e.written, b"     0\tok".to_vec());
}

#[test]
fn invalid_utf8_ignored_when_simple() {
    let content: Vec<u8> = vec![0xFF, 0x0A];
    let out = cat_content(&content, &opts(NumberingMode::Never, false)).unwrap();
    assert_eq!(out, content);
}

#[test]
fn two_paths_concatenated() {
    let c1: Vec<u8> = b"a\nb\n".to_vec();
    let c2: Vec<u8> = b"c\n".to_vec();
    let contents = vec![c1.clone(), c2.clone()];
    let o = opts(NumberingMode::Never, false);
    let out = concat_paths(&contents, &o).unwrap();
    let mut expected = cat_content(&c1, &o).unwrap();
    expected.extend(cat_content(&c2, &o).unwrap());
    assert_eq!(out, expected);
    assert_eq!(out, b"a\nb\nc\n".to_vec());
}

#[test]
fn numbering_restarts_per_path() {
    let contents = vec![b"a\nb\n".to_vec(), b"c\n".to_vec()];
    let out = concat_paths(&contents, &opts(NumberingMode::All, false)).unwrap();
    assert_eq!(out, b"     0\ta     1\tb     0\tc".to_vec());
}

#[test]
fn concat_error_reports_path_and_line() {
    let contents = vec![b"a\n".to_vec(), vec![b'b', 0x0A, 0xFE, 0x0A]];
    let e = concat_paths(&contents, &opts(NumberingMode::All, false)).unwrap_err();
    assert_eq!(e.path_index, 1);
    assert_eq!(e.line_number, 1);
    assert_eq!(e.written, b"     0\ta     0\tb".to_vec());
}

#[test]
fn concat_no_paths() {
    let contents: Vec<Vec<u8>> = Vec::new();
    let out = concat_paths(&contents, &opts(NumberingMode::All, true)).unwrap();
    assert_eq!(out, Vec::<u8>::new());
}

#[test]
fn annotated_empty_content_has_no_lines() {
    let content: Vec<u8> = Vec::new();
    let out = cat_content(&content, &opts(NumberingMode::All, true)).unwrap();
    assert_eq!(out, Vec::<u8>::new());
}

#[test]
fn simple_run_is_idempotent() {
    let content: Vec<u8> = vec![1, 2, 3, 10, 0, 200];
    let o = opts(NumberingMode::Never, false);
    let first = cat_content(&content, &o).unwrap();
    let second = cat_content(&content, &o).unwrap();
    assert_eq!(first, second);
}
