//! The executable block renderer: appends to the output buffer exactly the
//! sequences that `render_spec` defines, indentation and packing included.
use vstd::prelude::*;

use crate::byte_buf::{
    add_clip, exceeds, has_newline, push_all, push_spaces, spaces, COMMA, EQS, LANGLE, LBRACE, LBRACK,
    LPAREN, NL, RANGLE, RBRACE, RBRACK, RPAREN, SEMI, SP,
};
use crate::checks::{
    arr_block_check, arr_forced_check, block_complex_check, struct_block_check, val_block_check,
    val_forced_check,
};
use crate::comment::emit_comment;
use crate::inline::{inline_array, inline_elem, inline_fields, inline_structure, inline_value,
    render_converted};
use crate::model::{
    ArrayElem, BlockEntry, BlockItem, Field, FieldValue, Structure, TypedPayload, TypedValue,
    ValueLeaf,
};
use crate::names::is_special_name;
use crate::render_spec::{
    arr_elem_block, arr_items, arr_struct_multiline, blk_angle, blk_angle_items, blk_array,
    comma_sp, elem_forced_multiline, elem_has_block, inl_elem,
    blk_block, blk_comment, blk_field, blk_fields_from, blk_items, blk_structure, blk_typed,
    blk_value, comma_nl, comment_hoisted, fits, iw, mll, step_of, tc_suffix, tc_text, trailing,
    val_forced_multiline, val_has_block, val_step_cll, val_step_started, val_step_text, Cfg,
};

verus! {

/// The inline-versus-block decision for a structure at a given indent.
pub fn structure_fits(s: &Structure, ind: usize, c: &Cfg) -> (r: bool)
    ensures
        r == fits(*s, ind as int, *c),
{
    if struct_block_check(s) {
        return false;
    }
    if is_special_name(&s.name) {
        return false;
    }
    let il = inline_structure(s, ind, c);
    !exceeds(ind, il.len(), c.max_line_length) && !has_newline(&il)
}

pub fn emit_structure(s: &Structure, ind: usize, c: &Cfg, out: &mut Vec<u8>)
    ensures
        final(out)@ == old(out)@ + blk_structure(*s, ind as int, *c),
    decreases *s, 0int,
{
    if structure_fits(s, ind, c) {
        push_spaces(out, ind);
        let il = inline_structure(s, ind, c);
        push_all(out, &il);
        proof {
            assert(out@ =~= old(out)@ + blk_structure(*s, ind as int, *c));
        }
    } else {
        push_spaces(out, ind);
        push_all(out, &s.name);
        if s.fields.len() > 0 {
            out.push(COMMA);
            out.push(NL);
            let ind2 = add_clip(ind, c.indent_width);
            emit_fields(&s.fields, ind2, c, out);
        }
        if s.has_semicolon {
            out.push(SEMI);
        }
        proof {
            assert(out@ =~= old(out)@ + blk_structure(*s, ind as int, *c));
        }
    }
}

pub fn emit_fields(fs: &Vec<Field>, ind: usize, c: &Cfg, out: &mut Vec<u8>)
    ensures
        final(out)@ == old(out)@ + blk_fields_from(fs@, 0, ind as int, *c),
    decreases fs@, 0int,
{
    let mut i: usize = 0;
    while i < fs.len()
        invariant
            i <= fs@.len(),
            out@ + blk_fields_from(fs@, i as int, ind as int, *c) == old(out)@
                + blk_fields_from(fs@, 0, ind as int, *c),
        decreases fs@.len() - i,
    {
        if i > 0 {
            out.push(COMMA);
            out.push(NL);
        }
        emit_field(&fs[i], ind, c, out);
        i = i + 1;
        proof {
            assert(out@ + blk_fields_from(fs@, i as int, ind as int, *c) =~= old(out)@
                + blk_fields_from(fs@, 0, ind as int, *c));
        }
    }
    proof {
        assert(out@ =~= old(out)@ + blk_fields_from(fs@, 0, ind as int, *c));
    }
}

pub fn emit_field(f: &Field, ind: usize, c: &Cfg, out: &mut Vec<u8>)
    ensures
        final(out)@ == old(out)@ + blk_field(*f, ind as int, *c),
    decreases *f, 0int,
{
    push_spaces(out, ind);
    push_all(out, &f.name);
    out.push(EQS);
    emit_value(&f.value, ind, c, out);
    proof {
        assert(out@ =~= old(out)@ + blk_field(*f, ind as int, *c));
    }
}

pub fn emit_value(v: &FieldValue, ind: usize, c: &Cfg, out: &mut Vec<u8>)
    ensures
        final(out)@ == old(out)@ + blk_value(*v, ind as int, *c),
    decreases *v, 0int,
{
    match v {
        FieldValue::Block(es) => emit_block(es, ind, c, out),
        FieldValue::Arr(es) => emit_array(es, ind, c, out),
        FieldValue::Angle(vs) => emit_angle(vs, ind, c, out),
        FieldValue::Typed(tv) => emit_typed(tv, ind, c, out),
        FieldValue::Leaf(ValueLeaf::Plain(t)) => push_all(out, t),
        FieldValue::Leaf(ValueLeaf::Embedded(s)) => {
            let sub = render_converted(s, ind, c);
            push_all(out, &sub);
        },
    }
}

pub fn emit_typed(tv: &TypedValue, ind: usize, c: &Cfg, out: &mut Vec<u8>)
    ensures
        final(out)@ == old(out)@ + blk_typed(*tv, ind as int, *c),
    decreases *tv, 0int,
{
    out.push(LPAREN);
    push_all(out, &tv.ty_name);
    out.push(RPAREN);
    match &tv.payload {
        TypedPayload::Arr(es) => emit_array(es, ind, c, out),
        TypedPayload::Angle(vs) => emit_angle(vs, ind, c, out),
        TypedPayload::Plain(t) => push_all(out, t),
    }
    proof {
        assert(out@ =~= old(out)@ + blk_typed(*tv, ind as int, *c));
    }
}

pub fn emit_angle(vs: &Vec<FieldValue>, ind: usize, c: &Cfg, out: &mut Vec<u8>)
    ensures
        final(out)@ == old(out)@ + blk_angle(vs@, ind as int, *c),
    decreases vs@, 0int,
{
    out.push(LANGLE);
    if vs.len() > 0 {
        let mut i: usize = 0;
        while i < vs.len()
            invariant
                i <= vs@.len(),
                out@ + blk_angle_items(vs@, i as int, ind as int, *c) == old(out)@
                    + seq![LANGLE] + blk_angle_items(vs@, 0, ind as int, *c),
            decreases vs@.len() - i,
        {
            if i > 0 {
                out.push(COMMA);
                out.push(SP);
            }
            emit_value(&vs[i], ind, c, out);
            i = i + 1;
            proof {
                assert(out@ + blk_angle_items(vs@, i as int, ind as int, *c) =~= old(out)@
                    + seq![LANGLE] + blk_angle_items(vs@, 0, ind as int, *c));
            }
        }
    }
    out.push(RANGLE);
    proof {
        assert(out@ =~= old(out)@ + blk_angle(vs@, ind as int, *c));
    }
}

/// The comment trailing entry `i` on the same source row, if any.
fn trailing_comment<'a>(es: &'a Vec<BlockEntry>, i: usize) -> (tc: Option<&'a Vec<u8>>)
    requires
        i < es@.len(),
        !(es@[i as int].item is Comment),
    ensures
        match tc {
            Some(t) => trailing(es@, i as int) == Some(t@),
            None => trailing(es@, i as int) is None,
        },
{
    let n = es.len();
    if i < n - 1 {
        if es[i + 1].start_row == es[i].end_row {
            match &es[i + 1].item {
                BlockItem::Comment(t) => {
                    return Some(t);
                },
                _ => {
                    return None;
                },
            }
        }
    }
    None
}

/// A value entry holding a nested block: always on a line of its own, with
/// any trailing comment kept beside it.
#[verifier::rlimit(100)]
#[verifier::spinoff_prover]
fn emit_val_block_step(
    v: &FieldValue,
    tc: Option<&Vec<u8>>,
    Ghost(tcs): Ghost<Option<Seq<u8>>>,
    is_last: bool,
    started: bool,
    cll: usize,
    ind2: usize,
    complex: bool,
    c: &Cfg,
    out: &mut Vec<u8>,
)
    requires
        match tc {
            Some(t) => tcs == Some(t@),
            None => tcs is None,
        },
        val_has_block(*v),
    ensures
        final(out)@ == old(out)@ + val_step_text(
            *v,
            tcs,
            is_last,
            started,
            cll as int,
            ind2 as int,
            complex,
            *c,
        ),
    decreases *v, 1int,
{
    if started {
        out.push(COMMA);
        out.push(NL);
    }
    push_spaces(out, ind2);
    emit_value(v, ind2, c, out);
    out.push(COMMA);
    match tc {
        Some(t) => {
            out.push(SP);
            out.push(SP);
            push_all(out, t);
        },
        None => {},
    }
    out.push(NL);
    proof {
        assert(out@ =~= old(out)@ + val_step_text(
            *v,
            tcs,
            is_last,
            started,
            cll as int,
            ind2 as int,
            complex,
            *c,
        ));
    }
}

/// Emit the hoisted form of an over-long trailing comment, closing any open
/// packed line first; returns whether a packed line is still open.
#[verifier::rlimit(100)]
#[verifier::spinoff_prover]
fn emit_hoisted_comment(
    tc: Option<&Vec<u8>>,
    Ghost(tcs): Ghost<Option<Seq<u8>>>,
    hoist: bool,
    started: bool,
    ind2: usize,
    c: &Cfg,
    out: &mut Vec<u8>,
) -> (r: bool)
    requires
        match tc {
            Some(t) => tcs == Some(t@),
            None => tcs is None,
        },
        hoist ==> tc is Some,
    ensures
        final(out)@ == old(out)@ + (if hoist {
            (if started {
                comma_nl()
            } else {
                Seq::<u8>::empty()
            }) + blk_comment(tc_text(tcs), ind2 as int, *c) + seq![NL]
        } else {
            Seq::<u8>::empty()
        }),
        r == (if hoist {
            false
        } else {
            started
        }),
{
    if hoist {
        if started {
            out.push(COMMA);
            out.push(NL);
        }
        match tc {
            Some(t) => {
                emit_comment(t, ind2, c, out);
                out.push(NL);
            },
            None => {},
        }
        proof {
            assert(out@ =~= old(out)@ + (if started {
                comma_nl()
            } else {
                Seq::<u8>::empty()
            }) + blk_comment(tc_text(tcs), ind2 as int, *c) + seq![NL]);
        }
        false
    } else {
        started
    }
}

/// A simple value entry in a complex block: a line of its own, the comment
/// hoisted before it when over-long.
#[verifier::rlimit(100)]
#[verifier::spinoff_prover]
fn emit_val_complex_step(
    v: &FieldValue,
    tc: Option<&Vec<u8>>,
    Ghost(tcs): Ghost<Option<Seq<u8>>>,
    is_last: bool,
    started: bool,
    cll: usize,
    ind2: usize,
    c: &Cfg,
    out: &mut Vec<u8>,
)
    requires
        match tc {
            Some(t) => tcs == Some(t@),
            None => tcs is None,
        },
        !val_has_block(*v),
    ensures
        final(out)@ == old(out)@ + val_step_text(
            *v,
            tcs,
            is_last,
            started,
            cll as int,
            ind2 as int,
            true,
            *c,
        ),
    decreases *v, 1int,
{
    let vs = inline_value(v, ind2, c);
    let hoist: bool = match tc {
        Some(t) => (ind2 as u128) + (vs.len() as u128) + 1 + 2 + (t.len() as u128) > (
        c.max_line_length as u128),
        None => false,
    };
    proof {
        assert(hoist == comment_hoisted(*v, tcs, ind2 as int, *c));
    }
    let ghost pre = if hoist {
        (if started {
            comma_nl()
        } else {
            Seq::<u8>::empty()
        }) + blk_comment(tc_text(tcs), ind2 as int, *c) + seq![NL]
    } else {
        Seq::<u8>::empty()
    };
    let started1 = emit_hoisted_comment(tc, Ghost(tcs), hoist, started, ind2, c, out);
    proof {
        assert(out@ =~= old(out)@ + pre);
    }
    let ghost mid = out@;
    if started1 {
        out.push(COMMA);
        out.push(NL);
    }
    push_spaces(out, ind2);
    if val_forced_check(v) || exceeds(ind2, vs.len(), c.max_line_length) {
        emit_value(v, ind2, c, out);
    } else {
        push_all(out, &vs);
    }
    out.push(COMMA);
    if !hoist {
        match tc {
            Some(t) => {
                out.push(SP);
                out.push(SP);
                push_all(out, t);
            },
            None => {},
        }
    }
    out.push(NL);
    proof {
        let ghost rest = (if started1 {
            comma_nl()
        } else {
            Seq::<u8>::empty()
        }) + spaces(ind2 as int) + (if val_forced_multiline(*v) || ind2 + vs@.len() > mll(*c) {
            blk_value(*v, ind2 as int, *c)
        } else {
            vs@
        }) + seq![COMMA] + (if !hoist {
            tc_suffix(tcs)
        } else {
            Seq::<u8>::empty()
        }) + seq![NL];
        assert(out@ =~= mid + rest);
        assert(val_step_text(*v, tcs, is_last, started, cll as int, ind2 as int, true, *c)
            == pre + rest);
        assert(out@ =~= old(out)@ + val_step_text(
            *v,
            tcs,
            is_last,
            started,
            cll as int,
            ind2 as int,
            true,
            *c,
        ));
    }
}

/// A simple value entry in a simple block: packed onto the open line while
/// the budget allows, the comment hoisted before it when over-long.
#[verifier::rlimit(100)]
#[verifier::spinoff_prover]
fn emit_val_packed_step(
    v: &FieldValue,
    tc: Option<&Vec<u8>>,
    Ghost(tcs): Ghost<Option<Seq<u8>>>,
    is_last: bool,
    started: bool,
    cll: usize,
    ind2: usize,
    c: &Cfg,
    out: &mut Vec<u8>,
) -> (r: (bool, usize))
    requires
        match tc {
            Some(t) => tcs == Some(t@),
            None => tcs is None,
        },
        !val_has_block(*v),
    ensures
        final(out)@ == old(out)@ + val_step_text(
            *v,
            tcs,
            is_last,
            started,
            cll as int,
            ind2 as int,
            false,
            *c,
        ),
        r.0 == val_step_started(*v, tcs, is_last, started, false, ind2 as int, *c),
        r.1 as int == val_step_cll(*v, tcs, is_last, started, cll as int, ind2 as int, false,
            *c),
    decreases *v, 1int,
{
    let vs = inline_value(v, ind2, c);
    let hoist: bool = match tc {
        Some(t) => (ind2 as u128) + (vs.len() as u128) + 1 + 2 + (t.len() as u128) > (
        c.max_line_length as u128),
        None => false,
    };
    proof {
        assert(hoist == comment_hoisted(*v, tcs, ind2 as int, *c));
    }
    let started1 = emit_hoisted_comment(tc, Ghost(tcs), hoist, started, ind2, c, out);
    let over: bool = if started1 {
        let vtc: u128 = match tc {
            Some(t) => if hoist {
                0
            } else {
                2 + (t.len() as u128)
            },
            None => 0,
        };
        (cll as u128) + 2 + (vs.len() as u128) + vtc + 1 > (c.max_line_length as u128)
    } else {
        false
    };
    let mut cll1: usize = cll;
    if !started1 {
        push_spaces(out, ind2);
        cll1 = ind2;
    } else if over {
        out.push(COMMA);
        out.push(NL);
        push_spaces(out, ind2);
        cll1 = ind2;
    } else {
        out.push(COMMA);
        out.push(SP);
        cll1 = cll + 2;
    }
    push_all(out, &vs);
    let cll2 = add_clip(cll1, vs.len());
    if is_last {
        out.push(COMMA);
        if !hoist {
            match tc {
                Some(t) => {
                    out.push(SP);
                    out.push(SP);
                    push_all(out, t);
                },
                None => {},
            }
        }
        out.push(NL);
        proof {
            assert(out@ =~= old(out)@ + val_step_text(
                *v,
                tcs,
                is_last,
                started,
                cll as int,
                ind2 as int,
                false,
                *c,
            ));
        }
        (false, cll2)
    } else if !hoist && tc.is_some() {
        out.push(COMMA);
        match tc {
            Some(t) => {
                out.push(SP);
                out.push(SP);
                push_all(out, t);
            },
            None => {},
        }
        out.push(NL);
        proof {
            assert(out@ =~= old(out)@ + val_step_text(
                *v,
                tcs,
                is_last,
                started,
                cll as int,
                ind2 as int,
                false,
                *c,
            ));
        }
        (false, 0)
    } else {
        proof {
            assert(out@ =~= old(out)@ + val_step_text(
                *v,
                tcs,
                is_last,
                started,
                cll as int,
                ind2 as int,
                false,
                *c,
            ));
        }
        (true, cll2)
    }
}

/// One value entry of a nested block: emits its text and returns the new
/// packing state.
#[verifier::rlimit(100)]
#[verifier::spinoff_prover]
fn emit_val_step(
    v: &FieldValue,
    tc: Option<&Vec<u8>>,
    Ghost(tcs): Ghost<Option<Seq<u8>>>,
    is_last: bool,
    started: bool,
    cll: usize,
    ind2: usize,
    complex: bool,
    c: &Cfg,
    out: &mut Vec<u8>,
) -> (r: (bool, usize))
    requires
        match tc {
            Some(t) => tcs == Some(t@),
            None => tcs is None,
        },
    ensures
        final(out)@ == old(out)@ + val_step_text(
            *v,
            tcs,
            is_last,
            started,
            cll as int,
            ind2 as int,
            complex,
            *c,
        ),
        r.0 == val_step_started(*v, tcs, is_last, started, complex, ind2 as int, *c),
        r.1 as int == val_step_cll(*v, tcs, is_last, started, cll as int, ind2 as int, complex,
            *c),
    decreases *v, 2int,
{
    if val_block_check(v) {
        emit_val_block_step(v, tc, Ghost(tcs), is_last, started, cll, ind2, complex, c, out);
        (false, 0)
    } else if complex {
        emit_val_complex_step(v, tc, Ghost(tcs), is_last, started, cll, ind2, c, out);
        (false, 0)
    } else {
        emit_val_packed_step(v, tc, Ghost(tcs), is_last, started, cll, ind2, c, out)
    }
}

/// A standalone comment entry of a nested block.
#[verifier::rlimit(100)]
#[verifier::spinoff_prover]
fn emit_comment_step(t: &Vec<u8>, started: bool, ind2: usize, c: &Cfg, out: &mut Vec<u8>)
    ensures
        final(out)@ == old(out)@ + (if started {
            comma_nl()
        } else {
            Seq::<u8>::empty()
        }) + blk_comment(t@, ind2 as int, *c) + seq![NL],
{
    if started {
        out.push(COMMA);
        out.push(NL);
    }
    emit_comment(t, ind2, c, out);
    out.push(NL);
    proof {
        assert(out@ =~= old(out)@ + (if started {
            comma_nl()
        } else {
            Seq::<u8>::empty()
        }) + blk_comment(t@, ind2 as int, *c) + seq![NL]);
    }
}

/// A structure entry of a nested block, with any trailing comment.
#[verifier::rlimit(100)]
#[verifier::spinoff_prover]
fn emit_struct_step(
    s: &Structure,
    tc: Option<&Vec<u8>>,
    Ghost(tcs): Ghost<Option<Seq<u8>>>,
    started: bool,
    ind2: usize,
    c: &Cfg,
    out: &mut Vec<u8>,
)
    requires
        match tc {
            Some(t) => tcs == Some(t@),
            None => tcs is None,
        },
    ensures
        final(out)@ == old(out)@ + (if started {
            comma_nl()
        } else {
            Seq::<u8>::empty()
        }) + blk_structure(*s, ind2 as int, *c) + seq![COMMA] + tc_suffix(tcs) + seq![NL],
    decreases *s, 1int,
{
    if started {
        out.push(COMMA);
        out.push(NL);
    }
    emit_structure(s, ind2, c, out);
    out.push(COMMA);
    match tc {
        Some(t) => {
            out.push(SP);
            out.push(SP);
            push_all(out, t);
        },
        None => {},
    }
    out.push(NL);
    proof {
        assert(out@ =~= old(out)@ + (if started {
            comma_nl()
        } else {
            Seq::<u8>::empty()
        }) + blk_structure(*s, ind2 as int, *c) + seq![COMMA] + tc_suffix(tcs) + seq![NL]);
    }
}

#[verifier::rlimit(100)]
#[verifier::spinoff_prover]
pub fn emit_block(es: &Vec<BlockEntry>, ind: usize, c: &Cfg, out: &mut Vec<u8>)
    ensures
        final(out)@ == old(out)@ + blk_block(es@, ind as int, *c),
    decreases es@, 0int,
{
    out.push(LBRACE);
    out.push(NL);
    let complex = block_complex_check(es);
    let ind2 = add_clip(ind, c.indent_width);
    let mut i: usize = 0;
    let mut started: bool = false;
    let mut cll: usize = 0;
    proof {
        assert(out@ =~= old(out)@ + seq![LBRACE, NL]);
    }
    while i < es.len()
        invariant
            i <= es@.len(),
            ind2 as int == crate::byte_buf::sat_add(ind as int, iw(*c)),
            complex == crate::render_spec::block_complex(es@),
            out@ + blk_items(es@, i as int, started, cll as int, ind2 as int, complex, *c)
                == old(out)@ + seq![LBRACE, NL] + blk_items(
                es@,
                0,
                false,
                0,
                ind2 as int,
                complex,
                *c,
            ),
        decreases es@.len() - i,
    {
        let ghost out_pre = out@;
        let ghost started0 = started;
        let ghost cll0 = cll as int;
        let ghost i0 = i as int;
        match &es[i].item {
            BlockItem::Comment(t) => {
                emit_comment_step(t, started, ind2, c, out);
                started = false;
                cll = 0;
                i = i + 1;
            },
            BlockItem::Struct(s) => {
                let tc = trailing_comment(es, i);
                emit_struct_step(s, tc, Ghost(trailing(es@, i0)), started, ind2, c, out);
                started = false;
                cll = 0;
                i = if tc.is_some() {
                    i + 2
                } else {
                    i + 1
                };
                proof {
                    assert(i as int == step_of(es@, i0));
                }
            },
            BlockItem::Val(v) => {
                let tc = trailing_comment(es, i);
                let step: usize = if tc.is_some() {
                    i + 2
                } else {
                    i + 1
                };
                let is_last = step >= es.len();
                let st = emit_val_step(v, tc, Ghost(trailing(es@, i0)), is_last, started, cll,
                    ind2, complex, c, out);
                started = st.0;
                cll = st.1;
                i = step;
                proof {
                    assert(i as int == step_of(es@, i0));
                }
            },
        }
        proof {
            assert(out@ + blk_items(es@, i as int, started, cll as int, ind2 as int, complex, *c)
                =~= out_pre + blk_items(es@, i0, started0, cll0, ind2 as int, complex, *c));
        }
    }
    push_spaces(out, ind);
    out.push(RBRACE);
    proof {
        assert(out@ =~= old(out)@ + blk_block(es@, ind as int, *c));
    }
}

/// A structure element of a block-form array.
pub fn emit_arr_struct_multiline(s: &Structure, ind: usize, c: &Cfg, out: &mut Vec<u8>)
    ensures
        final(out)@ == old(out)@ + arr_struct_multiline(*s, ind as int, *c),
    decreases *s, 0int,
{
    push_all(out, &s.name);
    if s.fields.len() > 0 {
        let infl = inline_fields(&s.fields, ind, c);
        let forced = is_special_name(&s.name);
        let nested = struct_block_check(s);
        if forced || nested || crate::byte_buf::exceeds3(ind, infl.len(), 2, c.max_line_length) {
            out.push(COMMA);
            out.push(NL);
            let ind2 = add_clip(ind, c.indent_width);
            emit_fields(&s.fields, ind2, c, out);
        } else {
            out.push(COMMA);
            out.push(SP);
            push_all(out, &infl);
        }
    }
    proof {
        assert(out@ =~= old(out)@ + arr_struct_multiline(*s, ind as int, *c));
    }
}

pub fn emit_arr_elem_block(e: &ArrayElem, ind: usize, c: &Cfg, out: &mut Vec<u8>)
    ensures
        final(out)@ == old(out)@ + arr_elem_block(*e, ind as int, *c),
    decreases *e, 0int,
{
    match e {
        ArrayElem::Struct(s) => emit_arr_struct_multiline(s, ind, c, out),
        ArrayElem::Typed(tv) => emit_typed(tv, ind, c, out),
        ArrayElem::Plain(t) => push_all(out, t),
    }
}

/// An array element holding a nested block: a line of its own in block form.
#[verifier::rlimit(100)]
#[verifier::spinoff_prover]
fn emit_arr_block_elem_step(e: &ArrayElem, started: bool, ind2: usize, c: &Cfg, out: &mut Vec<u8>)
    requires
        elem_has_block(*e),
    ensures
        final(out)@ == old(out)@ + (if started {
            comma_nl()
        } else {
            Seq::<u8>::empty()
        }) + spaces(ind2 as int) + arr_elem_block(*e, ind2 as int, *c) + comma_nl(),
    decreases *e, 2int,
{
    if started {
        out.push(COMMA);
        out.push(NL);
    }
    push_spaces(out, ind2);
    emit_arr_elem_block(e, ind2, c, out);
    out.push(COMMA);
    out.push(NL);
    proof {
        assert(out@ =~= old(out)@ + (if started {
            comma_nl()
        } else {
            Seq::<u8>::empty()
        }) + spaces(ind2 as int) + arr_elem_block(*e, ind2 as int, *c) + comma_nl());
    }
}

/// A structure element without nested blocks: a line of its own, inline when
/// its name allows it and it fits.
#[verifier::rlimit(100)]
#[verifier::spinoff_prover]
fn emit_arr_struct_elem_step(e: &ArrayElem, started: bool, ind2: usize, c: &Cfg, out: &mut Vec<u8>)
    requires
        !elem_has_block(*e),
        *e is Struct,
    ensures
        final(out)@ == old(out)@ + (if started {
            comma_nl()
        } else {
            Seq::<u8>::empty()
        }) + spaces(ind2 as int) + (if elem_forced_multiline(*e) || ind2 + inl_elem(
            *e,
            ind2 as int,
            *c,
        ).len() > mll(*c) {
            arr_elem_block(*e, ind2 as int, *c)
        } else {
            inl_elem(*e, ind2 as int, *c)
        }) + comma_nl(),
    decreases *e, 2int,
{
    let estr = inline_elem(e, ind2, c);
    if started {
        out.push(COMMA);
        out.push(NL);
    }
    push_spaces(out, ind2);
    if crate::checks::elem_forced_check(e) || exceeds(ind2, estr.len(), c.max_line_length) {
        emit_arr_elem_block(e, ind2, c, out);
    } else {
        push_all(out, &estr);
    }
    out.push(COMMA);
    out.push(NL);
    proof {
        assert(out@ =~= old(out)@ + (if started {
            comma_nl()
        } else {
            Seq::<u8>::empty()
        }) + spaces(ind2 as int) + (if elem_forced_multiline(*e) || ind2 + inl_elem(
            *e,
            ind2 as int,
            *c,
        ).len() > mll(*c) {
            arr_elem_block(*e, ind2 as int, *c)
        } else {
            inl_elem(*e, ind2 as int, *c)
        }) + comma_nl());
    }
}

/// A simple array element: packed onto the open line while the budget
/// allows; returns the new packing state.
#[verifier::rlimit(100)]
#[verifier::spinoff_prover]
fn emit_arr_packed_elem_step(
    e: &ArrayElem,
    is_last: bool,
    started: bool,
    cll: usize,
    ind2: usize,
    c: &Cfg,
    out: &mut Vec<u8>,
) -> (r: (bool, usize))
    requires
        !(*e is Struct),
    ensures
        final(out)@ == old(out)@ + (if !started {
            spaces(ind2 as int)
        } else if cll + 2 + inl_elem(*e, ind2 as int, *c).len() > mll(*c) {
            comma_nl() + spaces(ind2 as int)
        } else {
            comma_sp()
        }) + inl_elem(*e, ind2 as int, *c) + (if is_last {
            comma_nl()
        } else {
            Seq::<u8>::empty()
        }),
        !is_last ==> r.0 && r.1 as int == crate::byte_buf::sat_add(
            (if !started {
                ind2 as int
            } else if cll + 2 + inl_elem(*e, ind2 as int, *c).len() > mll(*c) {
                ind2 as int
            } else {
                cll + 2
            }),
            inl_elem(*e, ind2 as int, *c).len() as int,
        ),
        is_last ==> !r.0,
    decreases *e, 2int,
{
    let estr = inline_elem(e, ind2, c);
    let over: bool = if started {
        (cll as u128) + 2 + (estr.len() as u128) > (c.max_line_length as u128)
    } else {
        false
    };
    let mut cll1: usize = cll;
    if !started {
        push_spaces(out, ind2);
        cll1 = ind2;
    } else if over {
        out.push(COMMA);
        out.push(NL);
        push_spaces(out, ind2);
        cll1 = ind2;
    } else {
        out.push(COMMA);
        out.push(SP);
        cll1 = cll + 2;
    }
    push_all(out, &estr);
    let res: (bool, usize) = if is_last {
        out.push(COMMA);
        out.push(NL);
        (false, 0)
    } else {
        (true, add_clip(cll1, estr.len()))
    };
    proof {
        assert(out@ =~= old(out)@ + (if !started {
            spaces(ind2 as int)
        } else if cll + 2 + inl_elem(*e, ind2 as int, *c).len() > mll(*c) {
            comma_nl() + spaces(ind2 as int)
        } else {
            comma_sp()
        }) + inl_elem(*e, ind2 as int, *c) + (if is_last {
            comma_nl()
        } else {
            Seq::<u8>::empty()
        }));
    }
    res
}

#[verifier::rlimit(100)]
#[verifier::spinoff_prover]
pub fn emit_array(es: &Vec<ArrayElem>, ind: usize, c: &Cfg, out: &mut Vec<u8>)
    ensures
        final(out)@ == old(out)@ + blk_array(es@, ind as int, *c),
    decreases es@, 0int,
{
    if es.len() == 0 {
        out.push(LBRACK);
        out.push(RBRACK);
        proof {
            assert(out@ =~= old(out)@ + blk_array(es@, ind as int, *c));
        }
        return ;
    }
    let nested = arr_block_check(es);
    let forced = arr_forced_check(es);
    if !nested && !forced {
        let il = inline_array(es, ind, c);
        if !exceeds(ind, il.len(), c.max_line_length) && !has_newline(&il) {
            push_all(out, &il);
            return ;
        }
    }
    if es.len() == 1 {
        let use_bracketed: bool = match &es[0] {
            ArrayElem::Struct(_) => {
                if nested || forced {
                    true
                } else {
                    let iel = inline_elem(&es[0], ind, c);
                    exceeds(ind, iel.len(), c.max_line_length)
                }
            },
            _ => false,
        };
        if use_bracketed {
            match &es[0] {
                ArrayElem::Struct(s) => {
                    out.push(LBRACK);
                    emit_arr_struct_multiline(s, ind, c, out);
                    out.push(RBRACK);
                    proof {
                        assert(out@ =~= old(out)@ + blk_array(es@, ind as int, *c));
                    }
                    return ;
                },
                _ => {},
            }
        }
    }
    out.push(LBRACK);
    out.push(NL);
    let ind2 = add_clip(ind, c.indent_width);
    let mut i: usize = 0;
    let mut started: bool = false;
    let mut cll: usize = 0;
    proof {
        assert(out@ =~= old(out)@ + seq![LBRACK, NL]);
    }
    while i < es.len()
        invariant
            i <= es@.len(),
            es@.len() > 0,
            ind2 as int == crate::byte_buf::sat_add(ind as int, iw(*c)),
            out@ + arr_items(es@, i as int, started, cll as int, ind2 as int, *c) == old(out)@
                + seq![LBRACK, NL] + arr_items(es@, 0, false, 0, ind2 as int, *c),
        decreases es@.len() - i,
    {
        let ghost out_pre = out@;
        let ghost started0 = started;
        let ghost cll0 = cll as int;
        let ghost i0 = i as int;
        let is_last = i + 1 >= es.len();
        let e = &es[i];
        if crate::checks::elem_block_check(e) {
            emit_arr_block_elem_step(e, started, ind2, c, out);
            started = false;
            cll = 0;
        } else {
            let is_struct: bool = match e {
                ArrayElem::Struct(_) => true,
                _ => false,
            };
            if is_struct {
                emit_arr_struct_elem_step(e, started, ind2, c, out);
                started = false;
                cll = 0;
            } else {
                let st = emit_arr_packed_elem_step(e, is_last, started, cll, ind2, c, out);
                started = st.0;
                cll = st.1;
            }
        }
        i = i + 1;
        proof {
            assert(out@ + arr_items(es@, i as int, started, cll as int, ind2 as int, *c)
                =~= out_pre + arr_items(es@, i0, started0, cll0, ind2 as int, *c));
        }
    }
    push_spaces(out, ind);
    out.push(RBRACK);
    proof {
        assert(out@ =~= old(out)@ + blk_array(es@, ind as int, *c));
    }
}

} // verus!
