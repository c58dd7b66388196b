//! The classifier and the policy.
//!
//! The classifier decides, for a comment span, whether only whitespace
//! precedes it on its line (`standalone`) and whether the rest of its last
//! line is blank as well (`line_is_comment_only`). The policy is the pure
//! mapping from kind and classification to keep or drop: block comments and
//! every literal are always kept, a line comment is kept exactly when code
//! precedes it on its line, and a dropped line comment that is the sole
//! content of its line takes the whole line with it.
use vstd::prelude::*;
use crate::span::{Span, SpanKind, SpanModel};
use crate::text::{standalone, standalone_at, comment_only, comment_only_after};

verus! {

/// How a comment span sits on its line.
#[derive(Clone, Copy, Debug)]
pub struct Classification {
    /// Only horizontal whitespace stands between the start of the span's
    /// line and the span.
    pub standalone: bool,
    /// The rest of the span's last line, up to and including its terminator,
    /// is whitespace as well.
    pub line_is_comment_only: bool,
}

/// Annotate one span with its classification.
pub fn classify(src: &Vec<u8>, sp: &Span) -> (c: Classification)
    requires
        sp.start <= src@.len(),
        sp.end <= src@.len(),
    ensures
        c.standalone == standalone_at(src@, sp.start as int),
        c.line_is_comment_only == comment_only_after(src@, sp.end as int),
{
    Classification {
        standalone: standalone(src, sp.start),
        line_is_comment_only: comment_only(src, sp.end),
    }
}

/// The span at `j` is dropped: a line comment with nothing but whitespace
/// before it on its line.
pub open spec fn drop_span(s: Seq<u8>, ms: Seq<SpanModel>, j: int) -> bool {
    &&& 0 <= j < ms.len()
    &&& ms[j].kind is LineComment
    &&& standalone_at(s, ms[j].start)
}

/// The span at `j` is dropped together with its line: it is dropped and is
/// the sole content of its line.
pub open spec fn drop_line(s: Seq<u8>, ms: Seq<SpanModel>, j: int) -> bool {
    &&& drop_span(s, ms, j)
    &&& comment_only_after(s, ms[j].end)
}

/// The policy's keep decision: everything survives except a standalone line
/// comment.
pub fn policy_keep(kind: SpanKind, c: &Classification) -> (r: bool)
    ensures
        r == !(kind is LineComment && c.standalone),
{
    !(matches!(kind, SpanKind::LineComment) && c.standalone)
}

/// The policy's whole-line decision: a dropped line comment that is the sole
/// content of its line takes the line's leading whitespace and terminator
/// with it.
pub fn policy_drop_whole_line(kind: SpanKind, c: &Classification) -> (r: bool)
    ensures
        r == (kind is LineComment && c.standalone && c.line_is_comment_only),
{
    matches!(kind, SpanKind::LineComment) && c.standalone && c.line_is_comment_only
}

} // verus!
