//! The library's laws: what the scanner and rewriter together guarantee of
//! every input, stated once and proved from the public contracts.
use vstd::prelude::*;
use crate::span::{SpanModel, tiles};
use crate::scan::{scan_spec, span_wf, lemma_scan_from_wf};
use crate::classify::{drop_span, drop_line};
use crate::rewrite::{contribution, rewrite_from, rewrite_spec, trim_end_idx, lemma_trim_end_idx};
use crate::text::{NL, SLASH, is_hws, standalone_at, comment_only_after};

verus! {

/// Tiling invariant: the spans of a successful scan exactly partition
/// `[0, s.len())` — the first starts at 0, each ends where the next begins,
/// the last ends at the buffer end, and every span is non-empty.
pub proof fn lemma_scan_tiles(s: Seq<u8>)
    requires
        scan_spec(s) is Ok,
    ensures
        tiles(s, scan_spec(s)->Ok_0),
{
    lemma_scan_from_wf(s, 0);
}

/// Earlier spans lie entirely before later ones.
proof fn lemma_order(s: Seq<u8>, ms: Seq<SpanModel>, a: int, b: int)
    requires
        tiles(s, ms),
        0 <= a < b < ms.len(),
    ensures
        ms[a].end <= ms[b].start,
    decreases b - a,
{
    if a + 1 < b {
        lemma_order(s, ms, a, b - 1);
    }
}

/// The output up to span `k`: the ordered concatenation of the first `k`
/// contributions.
pub open spec fn rewrite_upto(s: Seq<u8>, ms: Seq<SpanModel>, k: int) -> Seq<u8>
    decreases k,
{
    if k <= 0 {
        Seq::empty()
    } else {
        rewrite_upto(s, ms, k - 1) + contribution(s, ms, k - 1)
    }
}

/// The output splits at any span: what the spans before `k` contribute,
/// then what the spans from `k` on contribute.
pub proof fn lemma_rewrite_split(s: Seq<u8>, ms: Seq<SpanModel>, k: int)
    requires
        0 <= k <= ms.len(),
    ensures
        rewrite_spec(s, ms) == rewrite_upto(s, ms, k) + rewrite_from(s, ms, k),
    decreases k,
{
    if k == 0 {
        assert(rewrite_upto(s, ms, 0) + rewrite_from(s, ms, 0) =~= rewrite_from(s, ms, 0));
    } else {
        lemma_rewrite_split(s, ms, k - 1);
        assert(rewrite_from(s, ms, k - 1) == contribution(s, ms, k - 1) + rewrite_from(s, ms, k));
        assert(rewrite_upto(s, ms, k - 1) + (contribution(s, ms, k - 1) + rewrite_from(s, ms, k))
            =~= (rewrite_upto(s, ms, k - 1) + contribution(s, ms, k - 1)) + rewrite_from(s, ms, k));
    }
}

/// Every span whose contribution is its verbatim bytes appears contiguously
/// in the output, at the offset of everything contributed before it.
pub proof fn lemma_contribution_in_output(s: Seq<u8>, ms: Seq<SpanModel>, k: int)
    requires
        0 <= k < ms.len(),
    ensures
        ({
            let off = rewrite_upto(s, ms, k).len() as int;
            let c = contribution(s, ms, k);
            &&& off + c.len() <= rewrite_spec(s, ms).len()
            &&& rewrite_spec(s, ms).subrange(off, off + c.len()) == c
        }),
{
    lemma_rewrite_split(s, ms, k);
    assert(rewrite_from(s, ms, k) == contribution(s, ms, k) + rewrite_from(s, ms, k + 1));
    let off = rewrite_upto(s, ms, k).len() as int;
    let c = contribution(s, ms, k);
    assert(rewrite_spec(s, ms).subrange(off, off + c.len()) =~= c);
}

/// Nesting preservation and literal immunity, shared core: a block comment,
/// string, char, or raw-string span reaches the output byte for byte.
pub proof fn lemma_kept_verbatim(s: Seq<u8>, k: int)
    requires
        scan_spec(s) is Ok,
        0 <= k < scan_spec(s)->Ok_0.len(),
        !(scan_spec(s)->Ok_0[k].kind is Code),
        !(scan_spec(s)->Ok_0[k].kind is LineComment),
    ensures
        ({
            let ms = scan_spec(s)->Ok_0;
            contribution(s, ms, k) == s.subrange(ms[k].start, ms[k].end)
        }),
{
    let ms = scan_spec(s)->Ok_0;
    lemma_scan_from_wf(s, 0);
    assert(span_wf(s, ms[k]));
    assert(!drop_span(s, ms, k));
    assert(s[ms[k].start] != NL);
    if k + 1 < ms.len() && drop_line(s, ms, k + 1) {
        assert(!is_hws(s[ms[k].end - 1]));
        assert(trim_end_idx(s, ms[k].start, ms[k].end) == ms[k].end);
    }
}

/// Nesting preservation: a block comment — however deeply `/* ... */` nests
/// inside it — is one single span, and its full text stands unmodified and
/// contiguous in the output.
pub proof fn lemma_block_comment_preserved(s: Seq<u8>, k: int)
    requires
        scan_spec(s) is Ok,
        0 <= k < scan_spec(s)->Ok_0.len(),
        scan_spec(s)->Ok_0[k].kind is BlockComment,
    ensures
        ({
            let ms = scan_spec(s)->Ok_0;
            let out = rewrite_spec(s, ms);
            let off = rewrite_upto(s, ms, k).len() as int;
            &&& contribution(s, ms, k) == s.subrange(ms[k].start, ms[k].end)
            &&& off + (ms[k].end - ms[k].start) <= out.len()
            &&& out.subrange(off, off + (ms[k].end - ms[k].start)) == s.subrange(ms[k].start, ms[k].end)
        }),
{
    let ms = scan_spec(s)->Ok_0;
    lemma_scan_from_wf(s, 0);
    lemma_kept_verbatim(s, k);
    lemma_contribution_in_output(s, ms, k);
}

/// Literal immunity: a string, char, or raw-string span — whatever `//` or
/// `/*` text it contains — reaches the output byte for byte, and no other
/// span overlaps a single byte of it, so none of its content is ever part of
/// a comment.
pub proof fn lemma_literal_immune(s: Seq<u8>, k: int)
    requires
        scan_spec(s) is Ok,
        0 <= k < scan_spec(s)->Ok_0.len(),
        scan_spec(s)->Ok_0[k].kind is StringLiteral || scan_spec(s)->Ok_0[k].kind is CharLiteral
            || scan_spec(s)->Ok_0[k].kind is RawString,
    ensures
        ({
            let ms = scan_spec(s)->Ok_0;
            &&& contribution(s, ms, k) == s.subrange(ms[k].start, ms[k].end)
            &&& forall|j: int| 0 <= j < ms.len() && j != k
                ==> #[trigger] ms[j].end <= ms[k].start || ms[k].end <= ms[j].start
        }),
{
    let ms = scan_spec(s)->Ok_0;
    lemma_scan_from_wf(s, 0);
    lemma_scan_tiles(s);
    lemma_kept_verbatim(s, k);
    assert forall|j: int| 0 <= j < ms.len() && j != k
        implies #[trigger] ms[j].end <= ms[k].start || ms[k].end <= ms[j].start by {
        if j < k {
            lemma_order(s, ms, j, k);
        } else {
            lemma_order(s, ms, k, j);
        }
    }
}

/// Trailing retention: a line comment preceded by code on its line is kept
/// byte for byte — leading gap included, since the span before it is not
/// trimmed on its account.
pub proof fn lemma_trailing_comment_kept(s: Seq<u8>, k: int)
    requires
        scan_spec(s) is Ok,
        0 <= k < scan_spec(s)->Ok_0.len(),
        scan_spec(s)->Ok_0[k].kind is LineComment,
        !standalone_at(s, scan_spec(s)->Ok_0[k].start),
    ensures
        ({
            let ms = scan_spec(s)->Ok_0;
            &&& contribution(s, ms, k) == s.subrange(ms[k].start, ms[k].end)
            &&& !drop_span(s, ms, k)
            &&& !drop_line(s, ms, k)
        }),
{
    let ms = scan_spec(s)->Ok_0;
    lemma_scan_from_wf(s, 0);
    assert(span_wf(s, ms[k]));
    assert(s[ms[k].start] == SLASH);
    if k + 1 < ms.len() && drop_line(s, ms, k + 1) {
        assert(ms[k].end == ms[k + 1].start);
        assert(span_wf(s, ms[k + 1]));
        assert(s[ms[k + 1].start] == SLASH);
        assert(ms[k].end == s.len() || s[ms[k].end] == NL);
        assert(false);
    }
}

/// A standalone line comment is always the sole content of its line — its
/// span runs to the terminator — so the policy drops the whole line.
pub proof fn lemma_standalone_is_whole_line(s: Seq<u8>, k: int)
    requires
        scan_spec(s) is Ok,
        0 <= k < scan_spec(s)->Ok_0.len(),
        scan_spec(s)->Ok_0[k].kind is LineComment,
        standalone_at(s, scan_spec(s)->Ok_0[k].start),
    ensures
        ({
            let ms = scan_spec(s)->Ok_0;
            &&& drop_span(s, ms, k)
            &&& drop_line(s, ms, k)
            &&& contribution(s, ms, k) == Seq::<u8>::empty()
            &&& (k + 1 < ms.len() ==> s[ms[k + 1].start] == NL)
        }),
{
    let ms = scan_spec(s)->Ok_0;
    lemma_scan_from_wf(s, 0);
    assert(span_wf(s, ms[k]));
    assert(comment_only_after(s, ms[k].end));
    if k + 1 < ms.len() {
        assert(ms[k].end == ms[k + 1].start);
        assert(ms[k].end < s.len());
    }
}

/// Blank-line elimination: the code span standing between two dropped
/// comment-only lines — one terminator and the next line's indentation —
/// contributes nothing, so a run of N such lines vanishes with zero residual
/// blank lines.
pub proof fn lemma_between_dropped_lines(s: Seq<u8>, k: int)
    requires
        scan_spec(s) is Ok,
        0 < k,
        k + 1 < scan_spec(s)->Ok_0.len(),
        drop_line(s, scan_spec(s)->Ok_0, k - 1),
        drop_line(s, scan_spec(s)->Ok_0, k + 1),
        s[scan_spec(s)->Ok_0[k].start] == NL,
        forall|p: int| scan_spec(s)->Ok_0[k].start < p < scan_spec(s)->Ok_0[k].end
            ==> is_hws(#[trigger] s[p]),
    ensures
        contribution(s, scan_spec(s)->Ok_0, k) == Seq::<u8>::empty(),
{
    let ms = scan_spec(s)->Ok_0;
    lemma_scan_from_wf(s, 0);
    assert(span_wf(s, ms[k]));
    assert(!(ms[k].kind is LineComment));
    assert(!drop_span(s, ms, k));
    let lo = ms[k].start + 1;
    lemma_trim_all_hws(s, lo, ms[k].end);
    assert(contribution(s, ms, k) =~= Seq::<u8>::empty());
}

/// With nothing dropped, the output from span `k` on is the source text from
/// span `k`'s start on.
proof fn lemma_rewrite_verbatim_from(s: Seq<u8>, ms: Seq<SpanModel>, k: int)
    requires
        tiles(s, ms),
        forall|j: int| 0 <= j < ms.len() ==> 0 <= #[trigger] ms[j].start && ms[j].end <= s.len(),
        forall|j: int| 0 <= j < ms.len() ==> !drop_span(s, ms, j),
        0 <= k <= ms.len(),
    ensures
        rewrite_from(s, ms, k) == s.subrange(
            if k < ms.len() { ms[k].start } else { s.len() as int },
            s.len() as int,
        ),
    decreases ms.len() - k,
{
    if k == ms.len() {
        assert(rewrite_from(s, ms, k) =~= s.subrange(s.len() as int, s.len() as int));
    } else {
        lemma_rewrite_verbatim_from(s, ms, k + 1);
        assert(!drop_line(s, ms, k + 1) || !(k + 1 < ms.len()));
        assert(contribution(s, ms, k) == s.subrange(ms[k].start, ms[k].end));
        if k + 1 < ms.len() {
            assert(ms[k].end == ms[k + 1].start);
        } else {
            assert(ms[k].end == s.len());
        }
        assert(s.subrange(ms[k].start, ms[k].end) + s.subrange(ms[k].end, s.len() as int)
            =~= s.subrange(ms[k].start, s.len() as int));
    }
}

/// Idempotence, the fixed-point half: a buffer in which no line comment
/// stands alone on its line is returned unchanged — there is nothing to
/// drop, every contribution is verbatim, and the tiled spans reassemble the
/// buffer. A first pass leaves no standalone line comment behind, so this is
/// why a second pass is a no-op.
pub proof fn lemma_no_standalone_is_fixed_point(s: Seq<u8>)
    requires
        scan_spec(s) is Ok,
        forall|k: int| 0 <= k < scan_spec(s)->Ok_0.len() ==> !drop_span(s, scan_spec(s)->Ok_0, k),
    ensures
        crate::normalize_spec(s) == Ok::<Seq<u8>, crate::span::ErrModel>(s),
{
    let ms = scan_spec(s)->Ok_0;
    lemma_scan_tiles(s);
    lemma_scan_from_wf(s, 0);
    assert(forall|j: int| 0 <= j < ms.len() ==> span_wf(s, #[trigger] ms[j]));
    lemma_rewrite_verbatim_from(s, ms, 0);
    if ms.len() == 0 {
        assert(rewrite_spec(s, ms) =~= s);
    } else {
        assert(s.subrange(0, s.len() as int) =~= s);
    }
}

/// Trimming a range of pure horizontal whitespace removes all of it.
proof fn lemma_trim_all_hws(s: Seq<u8>, lo: int, hi: int)
    requires
        0 <= lo <= hi <= s.len(),
        forall|p: int| lo <= p < hi ==> is_hws(#[trigger] s[p]),
    ensures
        trim_end_idx(s, lo, hi) == lo,
    decreases hi - lo,
{
    if lo < hi {
        lemma_trim_all_hws(s, lo, hi - 1);
    }
}

/// Code preservation: a code span's contribution is a contiguous slice of
/// its source bytes; at most one leading terminator (after a dropped line)
/// and trailing horizontal whitespace (before a dropped line) are removed,
/// and nothing else.
pub proof fn lemma_code_preserved(s: Seq<u8>, k: int)
    requires
        scan_spec(s) is Ok,
        0 <= k < scan_spec(s)->Ok_0.len(),
        scan_spec(s)->Ok_0[k].kind is Code,
    ensures
        ({
            let ms = scan_spec(s)->Ok_0;
            exists|lo: int, hi: int|
                {
                    &&& contribution(s, ms, k) == s.subrange(lo, hi)
                    &&& ms[k].start <= lo <= ms[k].start + 1
                    &&& lo <= hi <= ms[k].end
                    &&& (lo == ms[k].start + 1 ==> s[ms[k].start] == NL && k > 0 && drop_line(
                        s,
                        ms,
                        k - 1,
                    ))
                    &&& forall|p: int| hi <= p < ms[k].end ==> is_hws(#[trigger] s[p])
                }
        }),
{
    let ms = scan_spec(s)->Ok_0;
    lemma_scan_from_wf(s, 0);
    assert(span_wf(s, ms[k]));
    assert(!drop_span(s, ms, k));
    let lo = if k > 0 && drop_line(s, ms, k - 1) && s[ms[k].start] == NL {
        ms[k].start + 1
    } else {
        ms[k].start
    };
    let hi = if k + 1 < ms.len() && drop_line(s, ms, k + 1) {
        trim_end_idx(s, lo, ms[k].end)
    } else {
        ms[k].end
    };
    lemma_trim_end_idx(s, lo, ms[k].end);
    assert(contribution(s, ms, k) == s.subrange(lo, hi));
    assert(forall|p: int| hi <= p < ms[k].end ==> is_hws(#[trigger] s[p]));
}

} // verus!
