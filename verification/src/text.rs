//! Byte-level helpers: the characters the scanner and classifier care about,
//! line geometry, and the whitespace predicates used for classification.
use vstd::prelude::*;

verus! {

/// Line feed: the line terminator.
pub const NL: u8 = 10;
/// Carriage return, treated as horizontal whitespace so that `\r\n` endings
/// are consumed together with the terminator they precede.
pub const CR: u8 = 13;
/// Horizontal tab.
pub const TAB: u8 = 9;
/// Space.
pub const SP: u8 = 32;
/// `/`, which opens line and block comments and closes block comments.
pub const SLASH: u8 = 47;
/// `*`, the second byte of `/*` and first of `*/`.
pub const STAR: u8 = 42;
/// `"`, the string-literal delimiter.
pub const DQUOTE: u8 = 34;
/// `'`, the char-literal delimiter.
pub const SQUOTE: u8 = 39;
/// `#`, the raw-string fence character.
pub const POUND: u8 = 35;
/// `\`, the escape character inside string and char literals.
pub const BACKSLASH: u8 = 92;
/// `r`, which introduces a raw string literal.
pub const RAW_R: u8 = 114;

/// Horizontal whitespace: space, tab, or a carriage return (so that a `\r\n`
/// line ending is elided as whitespace plus the terminator).
pub open spec fn is_hws(b: u8) -> bool {
    b == SP || b == TAB || b == CR
}

/// Executable mirror of `is_hws`.
pub fn hws(b: u8) -> (r: bool)
    ensures
        r == is_hws(b),
{
    b == SP || b == TAB || b == CR
}

/// A byte that may continue an identifier; a raw string opener `r` preceded
/// by such a byte is part of an ordinary identifier, not a raw string.
pub open spec fn is_ident_byte(b: u8) -> bool {
    (48 <= b && b <= 57) || (65 <= b && b <= 90) || (97 <= b && b <= 122) || b == 95
}

/// Executable mirror of `is_ident_byte`.
pub fn ident_byte(b: u8) -> (r: bool)
    ensures
        r == is_ident_byte(b),
{
    (48 <= b && b <= 57) || (65 <= b && b <= 90) || (97 <= b && b <= 122) || b == 95
}

/// Offset of the first byte of the line containing position `p`: the
/// position just after the last terminator before `p`, or the buffer start.
pub open spec fn line_start(s: Seq<u8>, p: int) -> int
    decreases p,
{
    if p <= 0 {
        0
    } else if s[p - 1] == NL {
        p
    } else {
        line_start(s, p - 1)
    }
}

/// The line start lies between the buffer start and `p` itself.
pub proof fn lemma_line_start_bounds(s: Seq<u8>, p: int)
    requires
        0 <= p,
    ensures
        0 <= line_start(s, p) <= p,
    decreases p,
{
    if p > 0 && s[p - 1] != NL {
        lemma_line_start_bounds(s, p - 1);
    }
}

/// A comment starting at `p` is standalone when only horizontal whitespace
/// stands between the start of its line and `p`.
pub open spec fn standalone_at(s: Seq<u8>, p: int) -> bool {
    forall|k: int| line_start(s, p) <= k < p ==> is_hws(s[k])
}

/// Everything from position `e` to the next terminator (or the buffer end)
/// is horizontal whitespace: the comment ending at `e` is the only content
/// on the rest of its line.
pub open spec fn comment_only_after(s: Seq<u8>, e: int) -> bool
    decreases s.len() - e,
{
    if e < 0 {
        false
    } else if e >= s.len() {
        true
    } else if s[e] == NL {
        true
    } else if is_hws(s[e]) {
        comment_only_after(s, e + 1)
    } else {
        false
    }
}

/// Number of line terminators strictly before position `p`; the 1-based
/// line number of `p` is this count plus one.
pub open spec fn newlines_before(s: Seq<u8>, p: int) -> int
    decreases p,
{
    if p <= 0 {
        0
    } else if s[p - 1] == NL {
        newlines_before(s, p - 1) + 1
    } else {
        newlines_before(s, p - 1)
    }
}

/// Decide `standalone_at(s, p)` by scanning backward from `p` to the
/// enclosing line's start.
pub fn standalone(src: &Vec<u8>, p: usize) -> (r: bool)
    requires
        p <= src@.len(),
    ensures
        r == standalone_at(src@, p as int),
{
    let mut k: usize = p;
    while k > 0 && src[k - 1] != NL
        invariant
            0 <= k <= p <= src@.len(),
            line_start(src@, p as int) == line_start(src@, k as int),
            forall|j: int| k <= j < p ==> is_hws(src@[j]),
        decreases k,
    {
        if !hws(src[k - 1]) {
            proof {
                lemma_line_start_bounds(src@, k - 1);
                assert(line_start(src@, k as int) == line_start(src@, k - 1));
            }
            return false;
        }
        k = k - 1;
    }
    assert(line_start(src@, k as int) == k as int);
    true
}

/// Decide `comment_only_after(s, e)` by scanning forward from `e` to the
/// next terminator or the buffer end.
pub fn comment_only(src: &Vec<u8>, e: usize) -> (r: bool)
    requires
        e <= src@.len(),
    ensures
        r == comment_only_after(src@, e as int),
{
    let n = src.len();
    let mut k: usize = e;
    while k < n
        invariant
            e <= k <= n,
            n == src@.len(),
            comment_only_after(src@, e as int) == comment_only_after(src@, k as int),
        decreases n - k,
    {
        if src[k] == NL {
            return true;
        }
        if !hws(src[k]) {
            return false;
        }
        k = k + 1;
    }
    true
}

} // verus!
