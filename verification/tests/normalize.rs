//! Behavioural tests of the normalizer: what is dropped, what survives, and
//! which inputs are rejected.

use decomment::normalize;
use decomment::span::{NormalizeError, SpanKind};

fn run(input: &str) -> String {
    let v = input.as_bytes().to_vec();
    let out = normalize(&v).unwrap();
    String::from_utf8(out).unwrap()
}

fn err_of(input: &str) -> NormalizeError {
    let v = input.as_bytes().to_vec();
    normalize(&v).unwrap_err()
}

#[test]
fn empty_input() {
    assert_eq!(run(""), "");
}

#[test]
fn code_only_unchanged() {
    assert_eq!(run("fn main() {}\n"), "fn main() {}\n");
}

#[test]
fn standalone_line_comment_vanishes_with_line() {
    assert_eq!(run("// gone\ncode\n"), "code\n");
}

#[test]
fn indented_standalone_comment_vanishes_with_indentation() {
    assert_eq!(run("  // gone\ncode\n"), "code\n");
}

#[test]
fn standalone_comment_at_end_of_input() {
    assert_eq!(run("x\n// tail"), "x\n");
}

#[test]
fn comment_only_buffer_becomes_empty() {
    assert_eq!(run("// only"), "");
}

#[test]
fn trailing_line_comment_survives_with_gap() {
    let s = "x = 1;  // note\n";
    assert_eq!(run(s), s);
}

#[test]
fn run_of_standalone_comment_lines_leaves_no_blank_lines() {
    assert_eq!(run("a\n// one\n// two\n// three\n// four\nb\n"), "a\nb\n");
}

#[test]
fn indented_run_of_standalone_comment_lines() {
    assert_eq!(run("a\n    // one\n    // two\nb\n"), "a\nb\n");
}

#[test]
fn existing_blank_lines_are_kept() {
    assert_eq!(run("a\n\n// gone\n\nb\n"), "a\n\n\nb\n");
}

#[test]
fn block_comment_is_kept_standalone() {
    let s = "/* header */\nx\n";
    assert_eq!(run(s), s);
}

#[test]
fn block_comment_is_kept_trailing() {
    let s = "return 42; /* trailing */\n";
    assert_eq!(run(s), s);
}

#[test]
fn nested_block_comment_kept_verbatim() {
    let s = "/* a /* b /* c */ */ d */\nx\n";
    assert_eq!(run(s), s);
}

#[test]
fn comment_syntax_inside_string_is_immune() {
    let s = "let s = \"// not /* a */ comment\";\n";
    assert_eq!(run(s), s);
}

#[test]
fn escaped_quote_does_not_end_string() {
    let s = "let s = \"a\\\"b // still in string\";\n";
    assert_eq!(run(s), s);
}

#[test]
fn escaped_backslash_then_quote_ends_string() {
    // The string is `"a\\"`; the comment after it is trailing and kept.
    let s = "let s = \"a\\\\\"; // kept\n";
    assert_eq!(run(s), s);
}

#[test]
fn char_literal_with_slash_is_immune() {
    let s = "let c = '/'; let d = '*';\n";
    assert_eq!(run(s), s);
}

#[test]
fn comment_syntax_inside_raw_string_is_immune() {
    let s = "let r = r#\"// raw /* raw */\"#;\nx\n";
    assert_eq!(run(s), s);
}

#[test]
fn raw_string_fence_must_match() {
    // The `"#` inside does not close an `r##` string; the `//` before the
    // real close is still literal content.
    let s = "let r = r##\"a\"# // b\"##;\n";
    assert_eq!(run(s), s);
}

#[test]
fn identifier_ending_in_r_is_not_a_raw_string() {
    let s = "for x in y {}\nlet var = 1;\n";
    assert_eq!(run(s), s);
}

#[test]
fn crlf_line_ending_is_elided_with_the_line() {
    assert_eq!(run("  // gone\r\nkeep\r\n"), "keep\r\n");
}

#[test]
fn unterminated_block_comment_is_an_error() {
    assert_eq!(
        err_of("x\n/* open"),
        NormalizeError::UnterminatedConstruct { kind: SpanKind::BlockComment, start_offset: 2 },
    );
}

#[test]
fn unterminated_inner_block_comment_is_an_error() {
    assert_eq!(
        err_of("/* a /* b */"),
        NormalizeError::UnterminatedConstruct { kind: SpanKind::BlockComment, start_offset: 0 },
    );
}

#[test]
fn unterminated_string_is_an_error() {
    assert_eq!(
        err_of("let s = \"abc"),
        NormalizeError::UnterminatedConstruct { kind: SpanKind::StringLiteral, start_offset: 8 },
    );
}

#[test]
fn escape_at_end_of_input_is_an_error() {
    assert_eq!(
        err_of("\"abc\\"),
        NormalizeError::UnterminatedConstruct { kind: SpanKind::StringLiteral, start_offset: 0 },
    );
}

#[test]
fn unterminated_char_is_an_error() {
    assert_eq!(
        err_of("'x"),
        NormalizeError::UnterminatedConstruct { kind: SpanKind::CharLiteral, start_offset: 0 },
    );
}

#[test]
fn unterminated_raw_string_is_an_error() {
    assert_eq!(
        err_of("let r = r\"abc"),
        NormalizeError::UnterminatedConstruct { kind: SpanKind::RawString, start_offset: 8 },
    );
}

#[test]
fn line_comment_at_end_of_input_is_not_an_error() {
    assert_eq!(run("x // fine"), "x // fine");
}

#[test]
fn block_opener_inside_line_comment_is_inert() {
    // The `/*` belongs to the dropped line comment, so nothing is left open.
    assert_eq!(run("// /*\ncode\n"), "code\n");
}

#[test]
fn comment_syntax_inside_block_comment_is_inert() {
    let s = "/* // not a line comment */\nx\n";
    assert_eq!(run(s), s);
}

#[test]
fn tab_indented_standalone_comment_vanishes() {
    assert_eq!(run("\t// gone\ncode\n"), "code\n");
}

#[test]
fn escaped_quote_in_char_literal() {
    let s = "let c = '\\''; // kept\n";
    assert_eq!(run(s), s);
}

#[test]
fn multiline_string_then_standalone_comment() {
    assert_eq!(
        run("let s = \"a\nb\";\n// gone\nx\n"),
        "let s = \"a\nb\";\nx\n",
    );
}

#[test]
fn standalone_comment_on_first_line_of_buffer() {
    assert_eq!(run("// gone\nx\n"), "x\n");
}

#[test]
fn idempotent_on_mixed_input() {
    let input = "a\n// gone\nb /* keep */ // keep\n  // gone\nlet s = \"//\";\n";
    let once = run(input);
    let twice = run(&once);
    assert_eq!(twice, once);
    assert_eq!(once, "a\nb /* keep */ // keep\nlet s = \"//\";\n");
}
