//! The rewriter: emit every kept span verbatim; a dropped comment-only line
//! vanishes whole, its leading whitespace and its terminator with it.
use vstd::prelude::*;
use crate::span::{Span, SpanModel, models};
use crate::scan::{scan_spec, span_wf, lemma_scan_from_wf};
use crate::classify::{classify, policy_keep, policy_drop_whole_line, drop_span, drop_line};
use crate::text::{NL, is_hws, hws};

verus! {

/// Index that ends `[lo, hi)` once its trailing horizontal whitespace is
/// removed.
pub open spec fn trim_end_idx(s: Seq<u8>, lo: int, hi: int) -> int
    decreases hi - lo,
{
    if lo < hi && is_hws(s[hi - 1]) {
        trim_end_idx(s, lo, hi - 1)
    } else {
        hi
    }
}

/// Trimming stays inside the range, stops at a non-whitespace byte, and
/// removes only whitespace.
pub proof fn lemma_trim_end_idx(s: Seq<u8>, lo: int, hi: int)
    requires
        lo <= hi,
    ensures
        lo <= trim_end_idx(s, lo, hi) <= hi,
        trim_end_idx(s, lo, hi) > lo ==> !is_hws(s[trim_end_idx(s, lo, hi) - 1]),
        forall|p: int| trim_end_idx(s, lo, hi) <= p < hi ==> is_hws(#[trigger] s[p]),
    decreases hi - lo,
{
    if lo < hi && is_hws(s[hi - 1]) {
        lemma_trim_end_idx(s, lo, hi - 1);
    }
}

/// What span `k` contributes to the output.
///
/// A dropped line comment contributes nothing. Any other span contributes
/// its source bytes, except that a span straight after a dropped
/// comment-only line loses the one terminator at its head, and a span
/// straight before one loses its trailing horizontal whitespace — the
/// dropped line's leading indentation.
pub open spec fn contribution(s: Seq<u8>, ms: Seq<SpanModel>, k: int) -> Seq<u8> {
    if drop_span(s, ms, k) {
        Seq::empty()
    } else {
        let lo = if k > 0 && drop_line(s, ms, k - 1) && s[ms[k].start] == NL {
            ms[k].start + 1
        } else {
            ms[k].start
        };
        let hi = if k + 1 < ms.len() && drop_line(s, ms, k + 1) {
            trim_end_idx(s, lo, ms[k].end)
        } else {
            ms[k].end
        };
        s.subrange(lo, hi)
    }
}

/// The output from span `k` on: the ordered concatenation of the
/// contributions.
pub open spec fn rewrite_from(s: Seq<u8>, ms: Seq<SpanModel>, k: int) -> Seq<u8>
    decreases ms.len() - k,
{
    if k < 0 || k >= ms.len() {
        Seq::empty()
    } else {
        contribution(s, ms, k) + rewrite_from(s, ms, k + 1)
    }
}

/// The whole rewritten text for a scanned buffer.
pub open spec fn rewrite_spec(s: Seq<u8>, ms: Seq<SpanModel>) -> Seq<u8> {
    rewrite_from(s, ms, 0)
}

/// Rebuild the text from the scanned spans, keeping every span the policy
/// keeps and eliding each dropped comment-only line whole.
pub fn rewrite(src: &Vec<u8>, spans: &Vec<Span>) -> (out: Vec<u8>)
    requires
        scan_spec(src@) == Ok::<Seq<SpanModel>, crate::span::ErrModel>(models(spans@)),
    ensures
        out@ == rewrite_spec(src@, models(spans@)),
{
    let ghost s = src@;
    let ghost ms = models(spans@);
    proof {
        lemma_scan_from_wf(src@, 0);
        assert(forall|k: int| 0 <= k < ms.len() ==> ms[k] == #[trigger] spans@[k]@);
    }
    let n = spans.len();

    // The classifier pass: the policy's decisions for every span.
    let mut dropped: Vec<bool> = Vec::new();
    let mut whole_line: Vec<bool> = Vec::new();
    let mut k: usize = 0;
    while k < n
        invariant
            0 <= k <= n,
            n == spans@.len(),
            ms == models(spans@),
            forall|j: int| 0 <= j < ms.len() ==> ms[j] == #[trigger] spans@[j]@,
            forall|j: int| 0 <= j < ms.len() ==> span_wf(s, #[trigger] ms[j]),
            s == src@,
            dropped@.len() == k,
            whole_line@.len() == k,
            forall|j: int| 0 <= j < k ==> dropped@[j] == drop_span(s, ms, j),
            forall|j: int| 0 <= j < k ==> whole_line@[j] == drop_line(s, ms, j),
        decreases n - k,
    {
        let sp = spans[k];
        proof {
            assert(span_wf(s, ms[k as int]));
            assert(ms[k as int] == spans@[k as int]@);
        }
        let c = classify(src, &sp);
        dropped.push(!policy_keep(sp.kind, &c));
        whole_line.push(policy_drop_whole_line(sp.kind, &c));
        k = k + 1;
    }

    // The rewrite pass.
    let mut out: Vec<u8> = Vec::new();
    let mut k: usize = 0;
    while k < n
        invariant
            0 <= k <= n,
            n == spans@.len(),
            ms == models(spans@),
            forall|j: int| 0 <= j < ms.len() ==> ms[j] == #[trigger] spans@[j]@,
            forall|j: int| 0 <= j < ms.len() ==> span_wf(s, #[trigger] ms[j]),
            s == src@,
            dropped@.len() == n,
            whole_line@.len() == n,
            forall|j: int| 0 <= j < n ==> dropped@[j] == drop_span(s, ms, j),
            forall|j: int| 0 <= j < n ==> whole_line@[j] == drop_line(s, ms, j),
            rewrite_from(s, ms, 0) == out@ + rewrite_from(s, ms, k as int),
        decreases n - k,
    {
        let ghost out0 = out@;
        if !dropped[k] {
            let sp = spans[k];
            let lo = if k > 0 && whole_line[k - 1] && src[sp.start] == NL {
                sp.start + 1
            } else {
                sp.start
            };
            let mut hi = sp.end;
            if k + 1 < n && whole_line[k + 1] {
                proof {
                    lemma_trim_end_idx(s, lo as int, sp.end as int);
                }
                while hi > lo && hws(src[hi - 1])
                    invariant
                        lo <= hi <= sp.end,
                        sp.end <= s.len(),
                        s == src@,
                        trim_end_idx(s, lo as int, sp.end as int) == trim_end_idx(s, lo as int, hi as int),
                    decreases hi - lo,
                {
                    hi = hi - 1;
                }
                assert(hi as int == trim_end_idx(s, lo as int, sp.end as int));
            }
            let mut p = lo;
            while p < hi
                invariant
                    lo <= p <= hi,
                    hi <= s.len(),
                    s == src@,
                    out@ == out0 + s.subrange(lo as int, p as int),
                decreases hi - p,
            {
                out.push(src[p]);
                proof {
                    assert(s.subrange(lo as int, p + 1)
                        =~= s.subrange(lo as int, p as int).push(s[p as int]));
                    assert(out@ =~= out0 + s.subrange(lo as int, p + 1));
                }
                p = p + 1;
            }
            proof {
                assert(contribution(s, ms, k as int) == s.subrange(lo as int, hi as int));
                assert(out@ == out0 + contribution(s, ms, k as int));
            }
        } else {
            proof {
                assert(contribution(s, ms, k as int) =~= Seq::<u8>::empty());
                assert(out@ =~= out0 + contribution(s, ms, k as int));
            }
        }
        proof {
            assert(rewrite_from(s, ms, k as int)
                == contribution(s, ms, k as int) + rewrite_from(s, ms, k + 1));
            assert(out0 + (contribution(s, ms, k as int) + rewrite_from(s, ms, k + 1))
                =~= (out0 + contribution(s, ms, k as int)) + rewrite_from(s, ms, k + 1));
        }
        k = k + 1;
    }
    proof {
        assert(out@ + rewrite_from(s, ms, n as int) =~= out@);
    }
    out
}

} // verus!
