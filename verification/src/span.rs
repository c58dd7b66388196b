//! The span data model: the atomic pieces the scanner cuts the source into,
//! and the error reported when a construct is still open at end of input.
use vstd::prelude::*;
use crate::text::newlines_before;

verus! {

/// What a span of source text is: code, one of the two comment forms, or one
/// of the three literal forms whose content must never be read as comment
/// syntax.
#[derive(Clone, Copy, Debug, PartialEq, Eq, Structural)]
pub enum SpanKind {
    Code,
    LineComment,
    BlockComment,
    StringLiteral,
    CharLiteral,
    RawString,
}

/// Mathematical image of a span: its kind, its half-open byte range, and for
/// block comments the greatest nesting depth reached inside it.
pub ghost struct SpanModel {
    pub kind: SpanKind,
    pub start: int,
    pub end: int,
    pub depth: int,
}

/// One piece of the source text, as produced by the scanner.
///
/// `start` and `end` are byte offsets, half-open, with `start < end`;
/// `line` is the 1-based line number of `start`; `depth_reached` is the
/// greatest block-comment nesting depth inside the span (1 outside block
/// comments).
#[derive(Clone, Copy, Debug)]
pub struct Span {
    pub kind: SpanKind,
    pub start: usize,
    pub end: usize,
    pub line: usize,
    pub depth_reached: usize,
}

impl View for Span {
    type V = SpanModel;

    open spec fn view(&self) -> SpanModel {
        SpanModel {
            kind: self.kind,
            start: self.start as int,
            end: self.end as int,
            depth: self.depth_reached as int,
        }
    }
}

/// The models of a vector of spans, in order.
pub open spec fn models(spans: Seq<Span>) -> Seq<SpanModel> {
    spans.map_values(|sp: Span| sp@)
}

/// The spans exactly partition `[0, s.len())`: the first starts at 0, each
/// ends where the next begins, the last ends at the buffer end, and every
/// span is non-empty.
pub open spec fn tiles(s: Seq<u8>, spans: Seq<SpanModel>) -> bool {
    &&& (spans.len() == 0 ==> s.len() == 0)
    &&& (spans.len() > 0 ==> spans[0].start == 0 && spans[spans.len() - 1].end == s.len())
    &&& (forall|k: int| 0 <= k < spans.len() ==> spans[k].start < spans[k].end)
    &&& (forall|k: int| 0 <= k < spans.len() - 1 ==> #[trigger] spans[k].end == spans[k + 1].start)
}

/// A span's line number is correct for the text `s`.
pub open spec fn line_ok(s: Seq<u8>, sp: Span) -> bool {
    sp.line == newlines_before(s, sp.start as int) + 1
}

/// The failure the scanner reports: a block comment, string literal, char
/// literal, or raw string literal still open at end of input. `kind` names
/// the open construct and `start_offset` is where it began.
#[derive(Clone, Copy, Debug, PartialEq, Eq, Structural)]
pub enum NormalizeError {
    UnterminatedConstruct { kind: SpanKind, start_offset: usize },
}

/// Mathematical image of a scan failure.
pub ghost struct ErrModel {
    pub kind: SpanKind,
    pub offset: int,
}

} // verus!
