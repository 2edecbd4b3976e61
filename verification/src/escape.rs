//! Unescaping of quoted-literal content before it is re-parsed as an
//! embedded structure. Exactly two escape sequences are recognised:
//! `\"` becomes `"` and `\\` becomes `\`; any other backslash stays as it
//! is, its following byte untouched.
use vstd::prelude::*;

use crate::byte_buf::{BSLASH, QUOTE};

verus! {

/// The unescaped form of `s[i..]`.
pub open spec fn spec_unescape_from(s: Seq<u8>, i: int) -> Seq<u8>
    decreases s.len() - i,
{
    if i < 0 || i >= s.len() {
        Seq::<u8>::empty()
    } else if s[i] == BSLASH {
        if i + 1 < s.len() && (s[i + 1] == QUOTE || s[i + 1] == BSLASH) {
            seq![s[i + 1]] + spec_unescape_from(s, i + 2)
        } else {
            seq![BSLASH] + spec_unescape_from(s, i + 1)
        }
    } else {
        seq![s[i]] + spec_unescape_from(s, i + 1)
    }
}

pub open spec fn spec_unescape(s: Seq<u8>) -> Seq<u8> {
    spec_unescape_from(s, 0)
}

/// Unescaping never lengthens the text; the parser's recursion into an
/// embedded literal leans on this bound.
pub proof fn lemma_unescape_len(s: Seq<u8>, i: int)
    requires
        0 <= i <= s.len(),
    ensures
        spec_unescape_from(s, i).len() <= s.len() - i,
    decreases s.len() - i,
{
    if i < 0 || i >= s.len() {
    } else if s[i] == BSLASH {
        if i + 1 < s.len() && (s[i + 1] == QUOTE || s[i + 1] == BSLASH) {
            lemma_unescape_len(s, i + 2);
        } else {
            lemma_unescape_len(s, i + 1);
        }
    } else {
        lemma_unescape_len(s, i + 1);
    }
}

pub fn unescape_bytes(s: &Vec<u8>) -> (r: Vec<u8>)
    ensures
        r@ == spec_unescape(s@),
{
    let mut out: Vec<u8> = Vec::new();
    let mut i: usize = 0;
    while i < s.len()
        invariant
            i <= s@.len(),
            out@ + spec_unescape_from(s@, i as int) == spec_unescape(s@),
        decreases s@.len() - i,
    {
        let b = s[i];
        if b == BSLASH {
            if i + 1 < s.len() && (s[i + 1] == QUOTE || s[i + 1] == BSLASH) {
                out.push(s[i + 1]);
                i = i + 2;
            } else {
                out.push(BSLASH);
                i = i + 1;
            }
        } else {
            out.push(b);
            i = i + 1;
        }
        proof {
            assert(out@ + spec_unescape_from(s@, i as int) =~= spec_unescape(s@));
        }
    }
    proof {
        assert(out@ =~= spec_unescape(s@));
    }
    out
}

} // verus!
