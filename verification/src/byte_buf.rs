//! Byte-sequence helpers shared by the renderers: runs of spaces and
//! newlines, saturating length arithmetic, and small output-buffer
//! operations with exact contracts.
use vstd::prelude::*;

verus! {

pub const NL: u8 = 10;
pub const SP: u8 = 32;
pub const TAB: u8 = 9;
pub const CR: u8 = 13;
pub const HASH: u8 = 35;
pub const QUOTE: u8 = 34;
pub const BSLASH: u8 = 92;
pub const COMMA: u8 = 44;
pub const SEMI: u8 = 59;
pub const EQS: u8 = 61;
pub const LBRACE: u8 = 123;
pub const RBRACE: u8 = 125;
pub const LBRACK: u8 = 91;
pub const RBRACK: u8 = 93;
pub const LANGLE: u8 = 60;
pub const RANGLE: u8 = 62;
pub const LPAREN: u8 = 40;
pub const RPAREN: u8 = 41;

/// `n` spaces (none when `n` is negative).
pub open spec fn spaces(n: int) -> Seq<u8> {
    Seq::new(if n >= 0 { n as nat } else { 0 }, |i: int| 32u8)
}

/// `n` newlines (none when `n` is negative).
pub open spec fn newlines(n: int) -> Seq<u8> {
    Seq::new(if n >= 0 { n as nat } else { 0 }, |i: int| 10u8)
}

/// Addition clipped at the largest machine length, mirroring how the
/// renderer tracks indents and line lengths in a `usize`.
pub open spec fn sat_add(a: int, b: int) -> int {
    if a + b > usize::MAX { usize::MAX as int } else { a + b }
}

pub open spec fn contains_newline(s: Seq<u8>) -> bool {
    exists|i: int| 0 <= i < s.len() && s[i] == 10u8
}

/// Number of newline bytes in `s[a..b)`.
pub open spec fn newline_count_range(s: Seq<u8>, a: int, b: int) -> int
    decreases b - a,
{
    if a >= b {
        0
    } else {
        (if 0 <= a < s.len() && s[a] == NL { 1int } else { 0int }) + newline_count_range(s, a + 1, b)
    }
}

pub fn exceeds(a: usize, b: usize, m: usize) -> (r: bool)
    ensures
        r == (a + b > m),
{
    (a as u128) + (b as u128) > (m as u128)
}

pub fn exceeds3(a: usize, b: usize, c: usize, m: usize) -> (r: bool)
    ensures
        r == (a + b + c > m),
{
    (a as u128) + (b as u128) + (c as u128) > (m as u128)
}

pub fn add_clip(a: usize, b: usize) -> (r: usize)
    ensures
        r as int == sat_add(a as int, b as int),
{
    if a > usize::MAX - b {
        usize::MAX
    } else {
        a + b
    }
}

/// Append every byte of `s` to `out`.
pub fn push_all(out: &mut Vec<u8>, s: &Vec<u8>)
    ensures
        final(out)@ == old(out)@ + s@,
{
    let mut i: usize = 0;
    while i < s.len()
        invariant
            i <= s@.len(),
            out@ == old(out)@ + s@.subrange(0, i as int),
        decreases s@.len() - i,
    {
        out.push(s[i]);
        i = i + 1;
        proof {
            assert(s@.subrange(0, i as int) =~= s@.subrange(0, i - 1) + seq![s@[i - 1]]);
            assert(out@ =~= old(out)@ + s@.subrange(0, i as int));
        }
    }
    proof {
        assert(s@.subrange(0, i as int) =~= s@);
    }
}

/// Append `n` spaces to `out`.
pub fn push_spaces(out: &mut Vec<u8>, n: usize)
    ensures
        final(out)@ == old(out)@ + spaces(n as int),
{
    let mut i: usize = 0;
    while i < n
        invariant
            i <= n,
            out@ == old(out)@ + spaces(i as int),
        decreases n - i,
    {
        out.push(32u8);
        i = i + 1;
        proof {
            assert(out@ =~= old(out)@ + spaces(i as int));
        }
    }
}

/// Append `n` newlines to `out`.
pub fn push_newlines(out: &mut Vec<u8>, n: usize)
    ensures
        final(out)@ == old(out)@ + newlines(n as int),
{
    let mut i: usize = 0;
    while i < n
        invariant
            i <= n,
            out@ == old(out)@ + newlines(i as int),
        decreases n - i,
    {
        out.push(10u8);
        i = i + 1;
        proof {
            assert(out@ =~= old(out)@ + newlines(i as int));
        }
    }
}

/// Blank lines preserved between two top-level items: one fewer than the
/// newlines in the source gap between them, never negative.
pub open spec fn blanks_between(src: Seq<u8>, end_byte: int, start_byte: int) -> int {
    if start_byte <= end_byte {
        0
    } else {
        let n = newline_count_range(src, end_byte, start_byte);
        if n >= 1 {
            n - 1
        } else {
            0
        }
    }
}

pub fn count_blanks(src: &Vec<u8>, end_byte: usize, start_byte: usize) -> (r: usize)
    requires
        end_byte < start_byte ==> start_byte <= src@.len(),
    ensures
        r as int == blanks_between(src@, end_byte as int, start_byte as int),
{
    if start_byte <= end_byte {
        return 0;
    }
    let mut k = end_byte;
    let mut cnt: usize = 0;
    while k < start_byte
        invariant
            end_byte <= k <= start_byte <= src@.len(),
            cnt <= k - end_byte,
            cnt + newline_count_range(src@, k as int, start_byte as int) == newline_count_range(
                src@,
                end_byte as int,
                start_byte as int,
            ),
        decreases start_byte - k,
    {
        if src[k] == NL {
            cnt = cnt + 1;
        }
        k = k + 1;
    }
    if cnt >= 1 {
        cnt - 1
    } else {
        0
    }
}

/// A copy of `s[a..b)`.
pub fn copy_range(s: &Vec<u8>, a: usize, b: usize) -> (r: Vec<u8>)
    requires
        a <= b <= s@.len(),
    ensures
        r@ == s@.subrange(a as int, b as int),
{
    let mut out: Vec<u8> = Vec::new();
    let mut i: usize = a;
    while i < b
        invariant
            a <= i <= b <= s@.len(),
            out@ == s@.subrange(a as int, i as int),
        decreases b - i,
    {
        out.push(s[i]);
        i = i + 1;
        proof {
            assert(out@ =~= s@.subrange(a as int, i as int));
        }
    }
    out
}

pub fn has_newline(s: &Vec<u8>) -> (r: bool)
    ensures
        r == contains_newline(s@),
{
    let mut i: usize = 0;
    while i < s.len()
        invariant
            i <= s@.len(),
            forall|j: int| 0 <= j < i ==> s@[j] != 10u8,
        decreases s@.len() - i,
    {
        if s[i] == 10u8 {
            return true;
        }
        i = i + 1;
    }
    false
}

} // verus!
