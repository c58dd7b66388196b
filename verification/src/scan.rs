//! The scanner: a single-pass state machine that tiles the source text into
//! code, comment, and literal spans, or reports the construct left open at
//! end of input.
//!
//! The mathematical scanner is the family of `spec` functions below; the
//! executable scanner is proved to return exactly what they describe.
use vstd::prelude::*;
use crate::span::{Span, SpanKind, SpanModel, ErrModel, NormalizeError, models, line_ok, tiles};
use crate::text::{NL, SLASH, STAR, DQUOTE, SQUOTE, POUND, BACKSLASH, RAW_R, is_ident_byte,
    ident_byte, newlines_before};

verus! {

/// Number of bytes a line comment's body runs from `i`: up to, and not
/// including, the next terminator or the end of input.
pub open spec fn lc_len(s: Seq<u8>, i: int) -> nat
    decreases s.len() - i,
{
    if i < 0 || i >= s.len() || s[i] == NL {
        0
    } else {
        (lc_len(s, i + 1) + 1) as nat
    }
}

/// Number of bytes from `i` through the closing quote `q` of a string or
/// char literal whose opening quote stands just before `i`; a backslash
/// escapes the following byte unconditionally. `None` when the literal is
/// still open at end of input.
pub open spec fn quoted_len(s: Seq<u8>, i: int, q: u8) -> Option<nat>
    decreases s.len() - i,
{
    if i < 0 || i >= s.len() {
        None
    } else if s[i] == q {
        Some(1nat)
    } else if s[i] == BACKSLASH {
        if i + 1 >= s.len() {
            None
        } else {
            match quoted_len(s, i + 2, q) {
                Some(n) => Some((n + 2) as nat),
                None => None,
            }
        }
    } else {
        match quoted_len(s, i + 1, q) {
            Some(n) => Some((n + 1) as nat),
            None => None,
        }
    }
}

/// Number of bytes from `i` (inside a block comment at nesting depth
/// `depth >= 1`) through the `*/` that closes the outermost level; each
/// `/*` seen on the way deepens the nesting. `None` when the comment is
/// still open at end of input.
pub open spec fn block_len(s: Seq<u8>, i: int, depth: int) -> Option<nat>
    decreases s.len() - i,
{
    if i < 0 || i >= s.len() {
        None
    } else if i + 1 < s.len() && s[i] == SLASH && s[i + 1] == STAR {
        match block_len(s, i + 2, depth + 1) {
            Some(n) => Some((n + 2) as nat),
            None => None,
        }
    } else if i + 1 < s.len() && s[i] == STAR && s[i + 1] == SLASH {
        if depth == 1 {
            Some(2nat)
        } else {
            match block_len(s, i + 2, depth - 1) {
                Some(n) => Some((n + 2) as nat),
                None => None,
            }
        }
    } else {
        match block_len(s, i + 1, depth) {
            Some(n) => Some((n + 1) as nat),
            None => None,
        }
    }
}

/// Greatest nesting depth reached scanning a block comment from `i` at depth
/// `depth`, with `peak` the greatest depth seen so far.
pub open spec fn block_peak(s: Seq<u8>, i: int, depth: int, peak: int) -> int
    decreases s.len() - i,
{
    if i < 0 || i >= s.len() {
        peak
    } else if i + 1 < s.len() && s[i] == SLASH && s[i + 1] == STAR {
        block_peak(s, i + 2, depth + 1, if peak >= depth + 1 { peak } else { depth + 1 })
    } else if i + 1 < s.len() && s[i] == STAR && s[i + 1] == SLASH {
        if depth == 1 {
            peak
        } else {
            block_peak(s, i + 2, depth - 1, peak)
        }
    } else {
        block_peak(s, i + 1, depth, peak)
    }
}

/// Length of the run of `#` fence characters starting at `i`.
pub open spec fn hash_run(s: Seq<u8>, i: int) -> nat
    decreases s.len() - i,
{
    if i < 0 || i >= s.len() || s[i] != POUND {
        0
    } else {
        (hash_run(s, i + 1) + 1) as nat
    }
}

/// The `h` bytes starting at `i` are all `#` fence characters.
pub open spec fn hashes_at(s: Seq<u8>, i: int, h: int) -> bool {
    &&& 0 <= i
    &&& i + h <= s.len()
    &&& forall|k: int| 0 <= k < h ==> #[trigger] s[i + k] == POUND
}

/// Number of bytes from `i` (inside a raw string whose fence is `h` hashes)
/// through the closing quote and its `h` hashes; no escapes are interpreted.
/// `None` when the literal is still open at end of input.
pub open spec fn raw_len(s: Seq<u8>, i: int, h: int) -> Option<nat>
    decreases s.len() - i,
{
    if i < 0 || i >= s.len() {
        None
    } else if s[i] == DQUOTE && hashes_at(s, i + 1, h) {
        Some((1 + h) as nat)
    } else {
        match raw_len(s, i + 1, h) {
            Some(n) => Some((n + 1) as nat),
            None => None,
        }
    }
}

/// A line comment `//` opens at `j`.
pub open spec fn starts_line(s: Seq<u8>, j: int) -> bool {
    0 <= j && j + 1 < s.len() && s[j] == SLASH && s[j + 1] == SLASH
}

/// A block comment `/*` opens at `j`.
pub open spec fn starts_block(s: Seq<u8>, j: int) -> bool {
    0 <= j && j + 1 < s.len() && s[j] == SLASH && s[j + 1] == STAR
}

/// A string literal opens at `j`.
pub open spec fn starts_string(s: Seq<u8>, j: int) -> bool {
    0 <= j < s.len() && s[j] == DQUOTE
}

/// A char literal opens at `j`.
pub open spec fn starts_char(s: Seq<u8>, j: int) -> bool {
    0 <= j < s.len() && s[j] == SQUOTE
}

/// A raw string literal opens at `j`: an `r` that does not continue an
/// identifier, a run of `#` fences, and the opening quote.
pub open spec fn starts_raw(s: Seq<u8>, j: int) -> bool {
    &&& 0 <= j < s.len()
    &&& s[j] == RAW_R
    &&& (j == 0 || !is_ident_byte(s[j - 1]))
    &&& j + 1 + hash_run(s, j + 1) < s.len()
    &&& s[j + 1 + hash_run(s, j + 1)] == DQUOTE
}

/// Some non-code construct opens at `j`.
pub open spec fn construct_at(s: Seq<u8>, j: int) -> bool {
    ||| starts_line(s, j)
    ||| starts_block(s, j)
    ||| starts_string(s, j)
    ||| starts_char(s, j)
    ||| starts_raw(s, j)
}

/// Number of plain code bytes from `i` to the next construct opening or the
/// end of input.
pub open spec fn code_len(s: Seq<u8>, i: int) -> nat
    decreases s.len() - i,
{
    if i < 0 || i >= s.len() || construct_at(s, i) {
        0
    } else {
        (code_len(s, i + 1) + 1) as nat
    }
}

/// A line comment's body stops at the buffer end or just before a
/// terminator, and contains no terminator.
pub proof fn lemma_lc_len(s: Seq<u8>, i: int)
    requires
        0 <= i <= s.len(),
    ensures
        i + lc_len(s, i) <= s.len(),
        i + lc_len(s, i) < s.len() ==> s[i + lc_len(s, i)] == NL,
        forall|p: int| i <= p < i + lc_len(s, i) ==> s[p] != NL,
    decreases s.len() - i,
{
    if i < s.len() && s[i] != NL {
        lemma_lc_len(s, i + 1);
    }
}

/// A closed string or char literal ends with its closing quote and fits in
/// the buffer.
pub proof fn lemma_quoted_len(s: Seq<u8>, i: int, q: u8)
    requires
        0 <= i <= s.len(),
        quoted_len(s, i, q) is Some,
    ensures
        1 <= quoted_len(s, i, q)->Some_0,
        i + quoted_len(s, i, q)->Some_0 <= s.len(),
        s[i + quoted_len(s, i, q)->Some_0 - 1] == q,
    decreases s.len() - i,
{
    if s[i] == q {
    } else if s[i] == BACKSLASH {
        lemma_quoted_len(s, i + 2, q);
    } else {
        lemma_quoted_len(s, i + 1, q);
    }
}

/// A closed block comment ends with `*/` and fits in the buffer.
pub proof fn lemma_block_len(s: Seq<u8>, i: int, depth: int)
    requires
        0 <= i <= s.len(),
        block_len(s, i, depth) is Some,
    ensures
        2 <= block_len(s, i, depth)->Some_0,
        i + block_len(s, i, depth)->Some_0 <= s.len(),
        s[i + block_len(s, i, depth)->Some_0 - 2] == STAR,
        s[i + block_len(s, i, depth)->Some_0 - 1] == SLASH,
    decreases s.len() - i,
{
    if i + 1 < s.len() && s[i] == SLASH && s[i + 1] == STAR {
        lemma_block_len(s, i + 2, depth + 1);
    } else if i + 1 < s.len() && s[i] == STAR && s[i + 1] == SLASH {
        if depth != 1 {
            lemma_block_len(s, i + 2, depth - 1);
        }
    } else {
        lemma_block_len(s, i + 1, depth);
    }
}

/// The fence run fits in the buffer, is all `#`, and is maximal.
pub proof fn lemma_hash_run(s: Seq<u8>, i: int)
    requires
        0 <= i <= s.len(),
    ensures
        i + hash_run(s, i) <= s.len(),
        forall|p: int| i <= p < i + hash_run(s, i) ==> s[p] == POUND,
        i + hash_run(s, i) < s.len() ==> s[i + hash_run(s, i)] != POUND,
    decreases s.len() - i,
{
    if i < s.len() && s[i] == POUND {
        lemma_hash_run(s, i + 1);
    }
}

/// A closed raw string ends with its quote followed by its `h` fence
/// characters, and fits in the buffer.
pub proof fn lemma_raw_len(s: Seq<u8>, i: int, h: int)
    requires
        0 <= i <= s.len(),
        0 <= h,
        raw_len(s, i, h) is Some,
    ensures
        1 + h <= raw_len(s, i, h)->Some_0,
        i + raw_len(s, i, h)->Some_0 <= s.len(),
        s[i + raw_len(s, i, h)->Some_0 - 1 - h] == DQUOTE,
        hashes_at(s, i + raw_len(s, i, h)->Some_0 - h, h),
    decreases s.len() - i,
{
    if s[i] == DQUOTE && hashes_at(s, i + 1, h) {
    } else {
        lemma_raw_len(s, i + 1, h);
    }
}

/// A code run fits in the buffer and stops at the buffer end or at the
/// opening of a construct.
pub proof fn lemma_code_len(s: Seq<u8>, i: int)
    requires
        0 <= i <= s.len(),
    ensures
        i + code_len(s, i) <= s.len(),
        i + code_len(s, i) < s.len() ==> construct_at(s, i + code_len(s, i)),
        forall|p: int| i <= p < i + code_len(s, i) ==> !construct_at(s, p),
    decreases s.len() - i,
{
    if i < s.len() && !construct_at(s, i) {
        lemma_code_len(s, i + 1);
    }
}

/// Prepend `pre` to the spans of a successful scan; a failed scan stays
/// failed.
pub open spec fn scan_prepend(pre: Seq<SpanModel>, r: Result<Seq<SpanModel>, ErrModel>)
    -> Result<Seq<SpanModel>, ErrModel> {
    match r {
        Ok(rest) => Ok(pre + rest),
        Err(e) => Err(e),
    }
}

/// The scanner itself: the spans tiling `[i, s.len())`, or the construct
/// still open at end of input. Line numbers are not part of the model; they
/// are stated separately over `newlines_before`.
pub open spec fn scan_from(s: Seq<u8>, i: int) -> Result<Seq<SpanModel>, ErrModel>
    decreases s.len() - i,
    via scan_from_decreases
{
    if i < 0 || i >= s.len() {
        Ok(Seq::empty())
    } else if starts_line(s, i) {
        scan_prepend(
            seq![SpanModel { kind: SpanKind::LineComment, start: i, end: i + 2 + lc_len(s, i + 2), depth: 1 }],
            scan_from(s, i + 2 + lc_len(s, i + 2)),
        )
    } else if starts_block(s, i) {
        match block_len(s, i + 2, 1) {
            None => Err(ErrModel { kind: SpanKind::BlockComment, offset: i }),
            Some(n) => scan_prepend(
                seq![SpanModel {
                    kind: SpanKind::BlockComment,
                    start: i,
                    end: i + 2 + n,
                    depth: block_peak(s, i + 2, 1, 1),
                }],
                scan_from(s, i + 2 + n),
            ),
        }
    } else if starts_string(s, i) {
        match quoted_len(s, i + 1, DQUOTE) {
            None => Err(ErrModel { kind: SpanKind::StringLiteral, offset: i }),
            Some(n) => scan_prepend(
                seq![SpanModel { kind: SpanKind::StringLiteral, start: i, end: i + 1 + n, depth: 1 }],
                scan_from(s, i + 1 + n),
            ),
        }
    } else if starts_char(s, i) {
        match quoted_len(s, i + 1, SQUOTE) {
            None => Err(ErrModel { kind: SpanKind::CharLiteral, offset: i }),
            Some(n) => scan_prepend(
                seq![SpanModel { kind: SpanKind::CharLiteral, start: i, end: i + 1 + n, depth: 1 }],
                scan_from(s, i + 1 + n),
            ),
        }
    } else if starts_raw(s, i) {
        match raw_len(s, i + 2 + hash_run(s, i + 1), hash_run(s, i + 1) as int) {
            None => Err(ErrModel { kind: SpanKind::RawString, offset: i }),
            Some(n) => scan_prepend(
                seq![SpanModel {
                    kind: SpanKind::RawString,
                    start: i,
                    end: i + 2 + hash_run(s, i + 1) + n,
                    depth: 1,
                }],
                scan_from(s, i + 2 + hash_run(s, i + 1) + n),
            ),
        }
    } else {
        scan_prepend(
            seq![SpanModel { kind: SpanKind::Code, start: i, end: i + code_len(s, i), depth: 1 }],
            scan_from(s, i + code_len(s, i)),
        )
    }
}

#[via_fn]
proof fn scan_from_decreases(s: Seq<u8>, i: int) {
    if 0 <= i < s.len() {
        if starts_line(s, i) {
            lemma_lc_len(s, i + 2);
        } else if starts_block(s, i) {
            if block_len(s, i + 2, 1) is Some {
                lemma_block_len(s, i + 2, 1);
            }
        } else if starts_string(s, i) {
            if quoted_len(s, i + 1, DQUOTE) is Some {
                lemma_quoted_len(s, i + 1, DQUOTE);
            }
        } else if starts_char(s, i) {
            if quoted_len(s, i + 1, SQUOTE) is Some {
                lemma_quoted_len(s, i + 1, SQUOTE);
            }
        } else if starts_raw(s, i) {
            lemma_hash_run(s, i + 1);
            let h = hash_run(s, i + 1) as int;
            if raw_len(s, i + 2 + h, h) is Some {
                lemma_raw_len(s, i + 2 + h, h);
            }
        } else {
            lemma_code_len(s, i);
        }
    }
}

/// The scan of a whole buffer.
pub open spec fn scan_spec(s: Seq<u8>) -> Result<Seq<SpanModel>, ErrModel> {
    scan_from(s, 0)
}

/// What the scanner guarantees of each single span: a non-empty range inside
/// the buffer and, per kind, the delimiters that open and close it.
pub open spec fn span_wf(s: Seq<u8>, m: SpanModel) -> bool {
    &&& 0 <= m.start < m.end <= s.len()
    &&& m.depth >= 1
    &&& match m.kind {
        SpanKind::Code => forall|p: int| m.start <= p < m.end ==> !construct_at(s, p),
        SpanKind::LineComment => {
            &&& m.end - m.start >= 2
            &&& s[m.start] == SLASH
            &&& s[m.start + 1] == SLASH
            &&& m.end == m.start + 2 + lc_len(s, m.start + 2)
            &&& (m.end == s.len() || s[m.end] == NL)
            &&& forall|p: int| m.start <= p < m.end ==> s[p] != NL
        },
        SpanKind::BlockComment => {
            &&& m.end - m.start >= 4
            &&& s[m.start] == SLASH
            &&& s[m.start + 1] == STAR
            &&& s[m.end - 2] == STAR
            &&& s[m.end - 1] == SLASH
            &&& block_len(s, m.start + 2, 1) == Some((m.end - m.start - 2) as nat)
            &&& m.depth == block_peak(s, m.start + 2, 1, 1)
        },
        SpanKind::StringLiteral => {
            &&& m.end - m.start >= 2
            &&& s[m.start] == DQUOTE
            &&& s[m.end - 1] == DQUOTE
            &&& quoted_len(s, m.start + 1, DQUOTE) == Some((m.end - m.start - 1) as nat)
        },
        SpanKind::CharLiteral => {
            &&& m.end - m.start >= 2
            &&& s[m.start] == SQUOTE
            &&& s[m.end - 1] == SQUOTE
            &&& quoted_len(s, m.start + 1, SQUOTE) == Some((m.end - m.start - 1) as nat)
        },
        SpanKind::RawString => {
            &&& m.end - m.start >= 3
            &&& s[m.start] == RAW_R
            &&& (s[m.end - 1] == DQUOTE || s[m.end - 1] == POUND)
            &&& raw_len(s, m.start + 2 + hash_run(s, m.start + 1), hash_run(s, m.start + 1) as int)
                == Some((m.end - m.start - 2 - hash_run(s, m.start + 1)) as nat)
        },
    }
}

/// A successful scan from `i` tiles `[i, s.len())` with well-formed spans:
/// the first starts at `i`, each ends where the next begins, and the last
/// ends at the buffer end.
pub proof fn lemma_scan_from_wf(s: Seq<u8>, i: int)
    requires
        0 <= i <= s.len(),
        scan_from(s, i) is Ok,
    ensures
        ({
            let sp = scan_from(s, i)->Ok_0;
            &&& (sp.len() == 0 ==> i == s.len())
            &&& (sp.len() > 0 ==> sp[0].start == i && sp[sp.len() - 1].end == s.len())
            &&& forall|k: int| 0 <= k < sp.len() ==> span_wf(s, #[trigger] sp[k])
            &&& forall|k: int| 0 <= k < sp.len() - 1 ==> #[trigger] sp[k].end == sp[k + 1].start
        }),
    decreases s.len() - i,
{
    let sp = scan_from(s, i)->Ok_0;
    if i >= s.len() {
    } else {
        let (m, e): (SpanModel, int) = if starts_line(s, i) {
            lemma_lc_len(s, i + 2);
            let e = i + 2 + lc_len(s, i + 2);
            (SpanModel { kind: SpanKind::LineComment, start: i, end: e, depth: 1 }, e)
        } else if starts_block(s, i) {
            lemma_block_len(s, i + 2, 1);
            lemma_block_peak_lower(s, i + 2, 1, 1);
            let e = i + 2 + block_len(s, i + 2, 1)->Some_0;
            (SpanModel {
                kind: SpanKind::BlockComment,
                start: i,
                end: e,
                depth: block_peak(s, i + 2, 1, 1),
            }, e)
        } else if starts_string(s, i) {
            lemma_quoted_len(s, i + 1, DQUOTE);
            let e = i + 1 + quoted_len(s, i + 1, DQUOTE)->Some_0;
            (SpanModel { kind: SpanKind::StringLiteral, start: i, end: e, depth: 1 }, e)
        } else if starts_char(s, i) {
            lemma_quoted_len(s, i + 1, SQUOTE);
            let e = i + 1 + quoted_len(s, i + 1, SQUOTE)->Some_0;
            (SpanModel { kind: SpanKind::CharLiteral, start: i, end: e, depth: 1 }, e)
        } else if starts_raw(s, i) {
            lemma_hash_run(s, i + 1);
            let h = hash_run(s, i + 1) as int;
            lemma_raw_len(s, i + 2 + h, h);
            let e = i + 2 + h + raw_len(s, i + 2 + h, h)->Some_0;
            assert(s[e - 1] == DQUOTE || s[e - 1] == POUND) by {
                let n = raw_len(s, i + 2 + h, h)->Some_0;
                if h == 0 {
                    assert(s[i + 2 + h + n - 1 - h] == DQUOTE);
                } else {
                    assert(hashes_at(s, i + 2 + h + n - h, h));
                    assert(s[(i + 2 + n) + (h - 1)] == POUND);
                }
            }
            (SpanModel { kind: SpanKind::RawString, start: i, end: e, depth: 1 }, e)
        } else {
            lemma_code_len(s, i);
            let e = i + code_len(s, i);
            (SpanModel { kind: SpanKind::Code, start: i, end: e, depth: 1 }, e)
        };
        lemma_scan_from_wf(s, e);
        let rest = scan_from(s, e)->Ok_0;
        assert(sp == seq![m] + rest);
        assert(span_wf(s, m));
        assert forall|k: int| 0 <= k < sp.len() implies span_wf(s, #[trigger] sp[k]) by {
            if k > 0 {
                assert(sp[k] == rest[k - 1]);
            }
        }
        assert forall|k: int| 0 <= k < sp.len() - 1 implies #[trigger] sp[k].end == sp[k + 1].start by {
            if k == 0 {
                if rest.len() == 0 {
                } else {
                    assert(sp[1] == rest[0]);
                }
            } else {
                assert(sp[k] == rest[k - 1]);
                assert(sp[k + 1] == rest[k]);
            }
        }
        if sp.len() > 0 {
            assert(sp[sp.len() - 1].end == s.len()) by {
                if rest.len() == 0 {
                    assert(sp[sp.len() - 1] == m);
                } else {
                    assert(sp[sp.len() - 1] == rest[rest.len() - 1]);
                }
            }
        }
    }
}

/// Extend a construct length measured from `here` back to `base`.
pub open spec fn ext_len(base: int, here: int, o: Option<nat>) -> Option<nat> {
    match o {
        Some(n) => Some(((here - base) + n) as nat),
        None => None,
    }
}

/// Prepending in two steps is prepending the concatenation.
proof fn lemma_prepend_assoc(a: Seq<SpanModel>, b: Seq<SpanModel>, r: Result<Seq<SpanModel>, ErrModel>)
    ensures
        scan_prepend(a, scan_prepend(b, r)) == scan_prepend(a + b, r),
{
    match r {
        Ok(rest) => {
            assert((a + b) + rest =~= a + (b + rest));
        },
        Err(_) => {},
    }
}

/// Carry the count of terminators before position `a` forward to position
/// `b`.
fn newlines_upto(src: &Vec<u8>, a: usize, b: usize, nl: usize) -> (r: usize)
    requires
        a <= b <= src@.len(),
        nl == newlines_before(src@, a as int),
        nl <= a,
    ensures
        r == newlines_before(src@, b as int),
        r <= b,
{
    let mut p = a;
    let mut l = nl;
    while p < b
        invariant
            a <= p <= b <= src@.len(),
            l == newlines_before(src@, p as int),
            l <= p,
        decreases b - p,
    {
        if src[p] == NL {
            l = l + 1;
        }
        p = p + 1;
    }
    l
}

/// Whether the `h` bytes at `p` are all `#` fence characters.
fn hashes_follow(src: &Vec<u8>, p: usize, h: usize) -> (r: bool)
    requires
        p <= src@.len(),
    ensures
        r == hashes_at(src@, p as int, h as int),
{
    let n = src.len();
    if h > n - p {
        return false;
    }
    let mut k: usize = 0;
    while k < h
        invariant
            0 <= k <= h,
            p + h <= n,
            n == src@.len(),
            forall|t: int| 0 <= t < k ==> #[trigger] src@[p + t] == POUND,
        decreases h - k,
    {
        if src[p + k] != POUND {
            assert(!hashes_at(src@, p as int, h as int)) by {
                assert(src@[p + k as int] != POUND);
            }
            return false;
        }
        k = k + 1;
    }
    true
}

/// First position at or after `a` that is not a `#` fence character.
fn hash_run_end(src: &Vec<u8>, a: usize) -> (e: usize)
    requires
        a <= src@.len(),
    ensures
        e as int == a + hash_run(src@, a as int),
        a <= e <= src@.len(),
{
    let n = src.len();
    let mut j = a;
    while j < n && src[j] == POUND
        invariant
            a <= j <= n,
            n == src@.len(),
            hash_run(src@, a as int) == (j - a) + hash_run(src@, j as int),
        decreases n - j,
    {
        j = j + 1;
    }
    j
}

/// Whether some non-code construct opens at `j`.
fn construct_check(src: &Vec<u8>, j: usize) -> (r: bool)
    requires
        j < src@.len(),
    ensures
        r == construct_at(src@, j as int),
{
    let n = src.len();
    let b = src[j];
    if b == SLASH {
        j + 1 < n && (src[j + 1] == SLASH || src[j + 1] == STAR)
    } else if b == DQUOTE || b == SQUOTE {
        true
    } else if b == RAW_R {
        if j > 0 && ident_byte(src[j - 1]) {
            false
        } else {
            let h = hash_run_end(src, j + 1);
            h < n && src[h] == DQUOTE
        }
    } else {
        false
    }
}

/// End of the line comment opening at `i`.
fn lc_end(src: &Vec<u8>, i: usize) -> (e: usize)
    requires
        i + 2 <= src@.len(),
    ensures
        e as int == i + 2 + lc_len(src@, i + 2),
        i + 2 <= e <= src@.len(),
{
    let n = src.len();
    let mut j = i + 2;
    while j < n && src[j] != NL
        invariant
            i + 2 <= j <= n,
            n == src@.len(),
            lc_len(src@, i + 2) == (j - i - 2) + lc_len(src@, j as int),
        decreases n - j,
    {
        j = j + 1;
    }
    j
}

/// End of the block comment opening at `i`, with the greatest nesting depth
/// reached, or `None` when it is still open at end of input.
fn block_end(src: &Vec<u8>, i: usize) -> (r: Option<(usize, usize)>)
    requires
        starts_block(src@, i as int),
    ensures
        match r {
            Some(ep) => {
                &&& block_len(src@, i + 2, 1) == Some((ep.0 - i - 2) as nat)
                &&& ep.1 as int == block_peak(src@, i + 2, 1, 1)
                &&& i + 4 <= ep.0 <= src@.len()
            },
            None => block_len(src@, i + 2, 1) is None,
        },
{
    let n = src.len();
    let mut j = i + 2;
    let mut depth: usize = 1;
    let mut peak: usize = 1;
    loop
        invariant
            i + 2 <= j <= n,
            n == src@.len(),
            1 <= depth <= j,
            1 <= peak <= j,
            block_len(src@, i + 2, 1) == ext_len(i + 2, j as int, block_len(src@, j as int, depth as int)),
            block_peak(src@, i + 2, 1, 1) == block_peak(src@, j as int, depth as int, peak as int),
        decreases n - j,
    {
        if j >= n {
            return None;
        }
        if j + 1 < n && src[j] == SLASH && src[j + 1] == STAR {
            depth = depth + 1;
            if depth > peak {
                peak = depth;
            }
            j = j + 2;
        } else if j + 1 < n && src[j] == STAR && src[j + 1] == SLASH {
            if depth == 1 {
                return Some((j + 2, peak));
            }
            depth = depth - 1;
            j = j + 2;
        } else {
            j = j + 1;
        }
    }
}

/// End of the string or char literal whose opening quote `q` stands at `i`,
/// or `None` when it is still open at end of input.
fn quoted_end(src: &Vec<u8>, i: usize, q: u8) -> (r: Option<usize>)
    requires
        i < src@.len(),
    ensures
        match r {
            Some(e) => {
                &&& quoted_len(src@, i + 1, q) == Some((e - i - 1) as nat)
                &&& i + 2 <= e <= src@.len()
            },
            None => quoted_len(src@, i + 1, q) is None,
        },
{
    let n = src.len();
    let mut j = i + 1;
    loop
        invariant
            i + 1 <= j <= n,
            n == src@.len(),
            quoted_len(src@, i + 1, q) == ext_len(i + 1, j as int, quoted_len(src@, j as int, q)),
        decreases n - j,
    {
        if j >= n {
            return None;
        }
        if src[j] == q {
            return Some(j + 1);
        }
        if src[j] == BACKSLASH {
            if j + 1 >= n {
                return None;
            }
            j = j + 2;
        } else {
            j = j + 1;
        }
    }
}

/// End of the raw string literal opening at `i`, or `None` when it is still
/// open at end of input.
fn raw_end(src: &Vec<u8>, i: usize) -> (r: Option<usize>)
    requires
        starts_raw(src@, i as int),
    ensures
        ({
            let h = hash_run(src@, i + 1) as int;
            match r {
                Some(e) => {
                    &&& raw_len(src@, i + 2 + h, h) == Some((e - (i + 2 + h)) as nat)
                    &&& i + 3 + h <= e <= src@.len()
                },
                None => raw_len(src@, i + 2 + h, h) is None,
            }
        }),
{
    let n = src.len();
    proof {
        lemma_hash_run(src@, i + 1);
    }
    let hend = hash_run_end(src, i + 1);
    let h = hend - (i + 1);
    let base = hend + 1;
    let mut j = base;
    loop
        invariant
            base == i + 2 + hash_run(src@, i + 1),
            h == hash_run(src@, i + 1),
            base <= j <= n,
            n == src@.len(),
            raw_len(src@, base as int, h as int)
                == ext_len(base as int, j as int, raw_len(src@, j as int, h as int)),
        decreases n - j,
    {
        if j >= n {
            return None;
        }
        if src[j] == DQUOTE && hashes_follow(src, j + 1, h) {
            return Some(j + 1 + h);
        }
        j = j + 1;
    }
}

/// End of the plain code run starting at `i`.
fn code_end(src: &Vec<u8>, i: usize) -> (e: usize)
    requires
        i < src@.len(),
        !construct_at(src@, i as int),
    ensures
        e as int == i + code_len(src@, i as int),
        i < e <= src@.len(),
{
    let n = src.len();
    let mut j = i;
    while j < n && !construct_check(src, j)
        invariant
            i <= j <= n,
            n == src@.len(),
            code_len(src@, i as int) == (j - i) + code_len(src@, j as int),
        decreases n - j,
    {
        j = j + 1;
    }
    j
}

/// Scan a whole buffer into its ordered, gap-free span sequence, or report
/// the construct still open at end of input.
///
/// On success the spans are exactly `scan_spec` of the text and each span
/// carries the 1-based line number of its start; on failure the error names
/// the open construct's kind and start offset, exactly as `scan_spec` does.
pub fn scan(src: &Vec<u8>) -> (r: Result<Vec<Span>, NormalizeError>)
    ensures
        match r {
            Ok(spans) => {
                &&& scan_spec(src@) == Ok::<Seq<SpanModel>, ErrModel>(models(spans@))
                &&& tiles(src@, models(spans@))
                &&& forall|k: int| 0 <= k < spans@.len()
                    ==> span_wf(src@, #[trigger] models(spans@)[k])
                &&& forall|k: int| 0 <= k < spans@.len() ==> line_ok(src@, #[trigger] spans@[k])
            },
            Err(e) => {
                &&& scan_spec(src@) is Err
                &&& (e matches NormalizeError::UnterminatedConstruct { kind, start_offset }
                    && scan_spec(src@)->Err_0 == ErrModel { kind, offset: start_offset as int })
            },
        },
{
    let n = src.len();
    let mut i: usize = 0;
    let mut nl: usize = 0;
    let mut spans: Vec<Span> = Vec::new();
    while i < n
        invariant
            0 <= i <= n,
            n == src@.len(),
            nl == newlines_before(src@, i as int),
            nl <= i,
            scan_from(src@, 0) == scan_prepend(models(spans@), scan_from(src@, i as int)),
            forall|k: int| 0 <= k < spans@.len() ==> line_ok(src@, #[trigger] spans@[k]),
        decreases n - i,
    {
        let ghost pre = models(spans@);
        let span: Span;
        if !construct_check(src, i) {
            let e = code_end(src, i);
            span = Span { kind: SpanKind::Code, start: i, end: e, line: nl + 1, depth_reached: 1 };
            nl = newlines_upto(src, i, e, nl);
            i = e;
        } else if src[i] == SLASH && src[i + 1] == SLASH {
            let e = lc_end(src, i);
            span = Span { kind: SpanKind::LineComment, start: i, end: e, line: nl + 1, depth_reached: 1 };
            nl = newlines_upto(src, i, e, nl);
            i = e;
        } else if src[i] == SLASH {
            match block_end(src, i) {
                Some(ep) => {
                    span = Span {
                        kind: SpanKind::BlockComment,
                        start: i,
                        end: ep.0,
                        line: nl + 1,
                        depth_reached: ep.1,
                    };
                    nl = newlines_upto(src, i, ep.0, nl);
                    i = ep.0;
                },
                None => {
                    return Err(NormalizeError::UnterminatedConstruct {
                        kind: SpanKind::BlockComment,
                        start_offset: i,
                    });
                },
            }
        } else if src[i] == DQUOTE {
            match quoted_end(src, i, DQUOTE) {
                Some(e) => {
                    span = Span {
                        kind: SpanKind::StringLiteral,
                        start: i,
                        end: e,
                        line: nl + 1,
                        depth_reached: 1,
                    };
                    nl = newlines_upto(src, i, e, nl);
                    i = e;
                },
                None => {
                    return Err(NormalizeError::UnterminatedConstruct {
                        kind: SpanKind::StringLiteral,
                        start_offset: i,
                    });
                },
            }
        } else if src[i] == SQUOTE {
            match quoted_end(src, i, SQUOTE) {
                Some(e) => {
                    span = Span {
                        kind: SpanKind::CharLiteral,
                        start: i,
                        end: e,
                        line: nl + 1,
                        depth_reached: 1,
                    };
                    nl = newlines_upto(src, i, e, nl);
                    i = e;
                },
                None => {
                    return Err(NormalizeError::UnterminatedConstruct {
                        kind: SpanKind::CharLiteral,
                        start_offset: i,
                    });
                },
            }
        } else {
            assert(starts_raw(src@, i as int));
            match raw_end(src, i) {
                Some(e) => {
                    span = Span {
                        kind: SpanKind::RawString,
                        start: i,
                        end: e,
                        line: nl + 1,
                        depth_reached: 1,
                    };
                    nl = newlines_upto(src, i, e, nl);
                    i = e;
                },
                None => {
                    return Err(NormalizeError::UnterminatedConstruct {
                        kind: SpanKind::RawString,
                        start_offset: i,
                    });
                },
            }
        }
        proof {
            assert(scan_from(src@, span.start as int)
                == scan_prepend(seq![span@], scan_from(src@, i as int)));
            lemma_prepend_assoc(pre, seq![span@], scan_from(src@, i as int));
        }
        spans.push(span);
        proof {
            assert(models(spans@) =~= pre + seq![span@]);
        }
    }
    proof {
        assert(scan_from(src@, n as int) == Ok::<Seq<SpanModel>, ErrModel>(Seq::empty()));
        assert(models(spans@) + Seq::<SpanModel>::empty() =~= models(spans@));
        lemma_scan_from_wf(src@, 0);
    }
    Ok(spans)
}

/// The peak nesting depth is at least the greatest depth already seen.
pub proof fn lemma_block_peak_lower(s: Seq<u8>, i: int, depth: int, peak: int)
    requires
        peak >= 1,
    ensures
        block_peak(s, i, depth, peak) >= 1,
    decreases s.len() - i,
{
    if 0 <= i < s.len() {
        if i + 1 < s.len() && s[i] == SLASH && s[i + 1] == STAR {
            lemma_block_peak_lower(s, i + 2, depth + 1, if peak >= depth + 1 { peak } else { depth + 1 });
        } else if i + 1 < s.len() && s[i] == STAR && s[i + 1] == SLASH {
            if depth != 1 {
                lemma_block_peak_lower(s, i + 2, depth - 1, peak);
            }
        } else {
            lemma_block_peak_lower(s, i + 1, depth, peak);
        }
    }
}

} // verus!
