//! The executable comment renderer: verbatim when the comment fits its
//! line, greedy word wrap behind a re-applied `# ` prefix otherwise.
use vstd::prelude::*;

use crate::byte_buf::{exceeds, push_all, push_spaces, spaces, HASH, NL, SP};
use crate::render_spec::{
    blk_comment, is_ws, mll, wrap_bytes, wrap_word_cl, wrap_word_emit, wrap_word_first, Cfg,
};

verus! {

pub fn byte_is_ws(b: u8) -> (r: bool)
    ensures
        r == is_ws(b),
{
    b == SP || b == 9 || b == 10 || b == 13 || b == 11 || b == 12
}

/// Whether word `w` still fits on line `cl` within `maxc = mll - ind - 2`
/// content bytes.
fn word_fits(cl_len: usize, w_len: usize, ind: usize, m: usize) -> (r: bool)
    ensures
        r == (cl_len + 1 + w_len <= m - ind - 2),
{
    (cl_len as i128) + 1 + (w_len as i128) <= (m as i128) - (ind as i128) - 2
}

/// Fold word `cur` into the line under construction, flushing the finished
/// line into `out` when the word no longer fits.
fn wrap_step(
    out: &mut Vec<u8>,
    cl: &mut Vec<u8>,
    first: &mut bool,
    cur: &Vec<u8>,
    pfx: &Vec<u8>,
    ind: usize,
    c: &Cfg,
)
    ensures
        final(out)@ == old(out)@ + wrap_word_emit(
            old(cl)@,
            cur@,
            *old(first),
            pfx@,
            mll(*c) - ind - 2,
        ),
        final(cl)@ == wrap_word_cl(old(cl)@, cur@, mll(*c) - ind - 2),
        *final(first) == wrap_word_first(old(cl)@, cur@, *old(first), mll(*c) - ind - 2),
{
    if cl.len() == 0 {
        let mut w: Vec<u8> = Vec::new();
        push_all(&mut w, cur);
        *cl = w;
    } else if word_fits(cl.len(), cur.len(), ind, c.max_line_length) {
        cl.push(SP);
        push_all(cl, cur);
        proof {
            assert(cl@ =~= wrap_word_cl(old(cl)@, cur@, mll(*c) - ind - 2));
        }
    } else {
        if !*first {
            out.push(NL);
        }
        push_all(out, pfx);
        push_all(out, cl);
        let mut w: Vec<u8> = Vec::new();
        push_all(&mut w, cur);
        *cl = w;
        *first = false;
        proof {
            assert(out@ =~= old(out)@ + wrap_word_emit(
                old(cl)@,
                cur@,
                *old(first),
                pfx@,
                mll(*c) - ind - 2,
            ));
        }
    }
}

/// Append the rendered comment to `out`.
#[verifier::rlimit(100)]
#[verifier::spinoff_prover]
pub fn emit_comment(t: &Vec<u8>, ind: usize, c: &Cfg, out: &mut Vec<u8>)
    ensures
        final(out)@ == old(out)@ + blk_comment(t@, ind as int, *c),
{
    if !exceeds(ind, t.len(), c.max_line_length) {
        push_spaces(out, ind);
        push_all(out, t);
        proof {
            assert(out@ =~= old(out)@ + blk_comment(t@, ind as int, *c));
        }
        return ;
    }
    let mut st: usize = 0;
    if t.len() > 0 && t[0] == HASH {
        st = 1;
    }
    if st < t.len() && t[st] == SP {
        st = st + 1;
    }
    let ghost content = if t@.len() > 0 && t@[0] == HASH {
        if t@.len() > 1 && t@[1] == SP {
            t@.drop_first().drop_first()
        } else {
            t@.drop_first()
        }
    } else {
        if t@.len() > 0 && t@[0] == SP {
            t@.drop_first()
        } else {
            t@
        }
    };
    proof {
        assert(content =~= t@.subrange(st as int, t@.len() as int));
        assert(blk_comment(t@, ind as int, *c) == wrap_bytes(
            content,
            0,
            Seq::<u8>::empty(),
            Seq::<u8>::empty(),
            true,
            spaces(ind as int) + seq![HASH, SP],
            mll(*c) - ind - 2,
        ));
    }
    let mut pfx: Vec<u8> = Vec::new();
    push_spaces(&mut pfx, ind);
    pfx.push(HASH);
    pfx.push(SP);
    let mut cur: Vec<u8> = Vec::new();
    let mut cl: Vec<u8> = Vec::new();
    let mut first: bool = true;
    let mut p: usize = st;
    proof {
        assert(pfx@ =~= spaces(ind as int) + seq![HASH, SP]);
        assert(cur@ =~= Seq::<u8>::empty());
        assert(cl@ =~= Seq::<u8>::empty());
        assert(out@ + wrap_bytes(content, p - st, cur@, cl@, first, pfx@, mll(*c) - ind - 2)
            == old(out)@ + blk_comment(t@, ind as int, *c));
    }
    while p < t.len()
        invariant
            st <= p <= t@.len(),
            pfx@ == spaces(ind as int) + seq![HASH, SP],
            content == t@.subrange(st as int, t@.len() as int),
            out@ + wrap_bytes(
                content,
                p - st,
                cur@,
                cl@,
                first,
                pfx@,
                mll(*c) - ind - 2,
            ) == old(out)@ + blk_comment(t@, ind as int, *c),
        decreases t@.len() - p,
    {
        proof {
            assert(content[p - st] == t@[p as int]);
        }
        let b = t[p];
        if byte_is_ws(b) {
            if cur.len() > 0 {
                wrap_step(out, &mut cl, &mut first, &cur, &pfx, ind, c);
                cur = Vec::new();
            }
        } else {
            cur.push(b);
        }
        p = p + 1;
    }
    if cur.len() > 0 {
        wrap_step(out, &mut cl, &mut first, &cur, &pfx, ind, c);
    }
    if cl.len() > 0 {
        if !first {
            out.push(NL);
        }
        push_all(out, &pfx);
        push_all(out, &cl);
    }
    proof {
        assert(out@ =~= old(out)@ + blk_comment(t@, ind as int, *c));
    }
}

} // verus!
