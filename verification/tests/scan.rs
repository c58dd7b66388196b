//! Tests of the scanner's spans and of the classifier and policy.

use decomment::scan::scan;
use decomment::span::{Span, SpanKind};
use decomment::classify::{classify, policy_keep, policy_drop_whole_line};

fn spans_of(input: &str) -> Vec<Span> {
    scan(&input.as_bytes().to_vec()).unwrap()
}

#[test]
fn spans_tile_simple_input() {
    let spans = spans_of("a//b\nc");
    assert_eq!(spans.len(), 3);
    assert_eq!(spans[0].kind, SpanKind::Code);
    assert_eq!((spans[0].start, spans[0].end), (0, 1));
    assert_eq!(spans[1].kind, SpanKind::LineComment);
    assert_eq!((spans[1].start, spans[1].end), (1, 4));
    assert_eq!(spans[2].kind, SpanKind::Code);
    assert_eq!((spans[2].start, spans[2].end), (4, 6));
}

#[test]
fn terminator_belongs_to_code_not_comment() {
    let spans = spans_of("// c\nx");
    assert_eq!(spans[0].kind, SpanKind::LineComment);
    assert_eq!(spans[0].end, 4);
    assert_eq!(spans[1].start, 4);
}

#[test]
fn line_numbers_are_one_based() {
    let spans = spans_of("a\n/* b */");
    assert_eq!(spans.len(), 2);
    assert_eq!(spans[0].line, 1);
    assert_eq!(spans[1].line, 2);
    assert_eq!(spans[1].kind, SpanKind::BlockComment);
}

#[test]
fn nested_block_comment_is_one_span_with_depth() {
    let spans = spans_of("/* /* x */ */y");
    assert_eq!(spans.len(), 2);
    assert_eq!(spans[0].kind, SpanKind::BlockComment);
    assert_eq!((spans[0].start, spans[0].end), (0, 13));
    assert_eq!(spans[0].depth_reached, 2);
}

#[test]
fn literal_kinds_are_recognised() {
    let spans = spans_of("\"s\" 'c' r\"w\"");
    let kinds: Vec<SpanKind> = spans.iter().map(|sp| sp.kind).collect();
    assert_eq!(
        kinds,
        vec![
            SpanKind::StringLiteral,
            SpanKind::Code,
            SpanKind::CharLiteral,
            SpanKind::Code,
            SpanKind::RawString,
        ],
    );
}

#[test]
fn whole_buffer_is_covered() {
    let input = "a /* b */ \"c\" // d";
    let spans = spans_of(input);
    assert_eq!(spans[0].start, 0);
    for w in spans.windows(2) {
        assert_eq!(w[0].end, w[1].start);
    }
    assert_eq!(spans[spans.len() - 1].end, input.len());
}

#[test]
fn classifier_distinguishes_standalone_from_trailing() {
    let text = "x // t\n  // s\n".as_bytes().to_vec();
    let spans = scan(&text).unwrap();
    let trailing = &spans[1];
    assert_eq!(trailing.kind, SpanKind::LineComment);
    let c1 = classify(&text, trailing);
    assert!(!c1.standalone);
    assert!(c1.line_is_comment_only);
    let standalone = &spans[3];
    assert_eq!(standalone.kind, SpanKind::LineComment);
    let c2 = classify(&text, standalone);
    assert!(c2.standalone);
    assert!(c2.line_is_comment_only);
    assert!(policy_keep(trailing.kind, &c1));
    assert!(!policy_keep(standalone.kind, &c2));
    assert!(policy_drop_whole_line(standalone.kind, &c2));
    assert!(!policy_drop_whole_line(trailing.kind, &c1));
}

#[test]
fn block_comment_is_kept_whatever_its_classification() {
    let text = "/* b */\n".as_bytes().to_vec();
    let spans = scan(&text).unwrap();
    let c = classify(&text, &spans[0]);
    assert!(c.standalone);
    assert!(c.line_is_comment_only);
    assert!(policy_keep(spans[0].kind, &c));
    assert!(!policy_drop_whole_line(spans[0].kind, &c));
}
