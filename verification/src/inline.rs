//! The executable inline renderer: computes the canonical one-line text of a
//! subtree, byte for byte the sequences that `render_spec` defines.
use vstd::prelude::*;

use crate::byte_buf::{
    push_all, push_spaces, COMMA, EQS, LANGLE, LBRACE, LBRACK, LPAREN, NL, RANGLE, RBRACE,
    RBRACK, RPAREN, SEMI, SP,
};
use crate::model::{
    ArrayElem, BlockEntry, BlockItem, Field, FieldValue, Structure, TypedPayload, TypedValue,
    ValueLeaf,
};
use crate::names::is_embed_name;
use crate::render_spec::{
    conv_fields, conv_render, inl_angle, inl_angle_items, inl_array, inl_arr_struct,
    inl_block_items, inl_elem, inl_elems_from, inl_field, inl_fields_from, inl_structure,
    inl_typed, inl_value, iw, mll, Cfg,
};

verus! {

pub fn inline_structure(s: &Structure, ind: usize, c: &Cfg) -> (r: Vec<u8>)
    ensures
        r@ == inl_structure(*s, ind as int, *c),
    decreases *s, 0int, 1int,
{
    let mut out: Vec<u8> = Vec::new();
    push_all(&mut out, &s.name);
    if s.fields.len() > 0 {
        out.push(COMMA);
        out.push(SP);
        let sub = inline_fields(&s.fields, ind, c);
        push_all(&mut out, &sub);
    }
    if s.has_semicolon {
        out.push(SEMI);
    }
    proof {
        assert(out@ =~= inl_structure(*s, ind as int, *c));
    }
    out
}

pub fn inline_fields(fs: &Vec<Field>, ind: usize, c: &Cfg) -> (r: Vec<u8>)
    ensures
        r@ == inl_fields_from(fs@, 0, ind as int, *c),
    decreases fs@, fs@.len(), 0int,
{
    let mut out: Vec<u8> = Vec::new();
    let mut i: usize = 0;
    while i < fs.len()
        invariant
            i <= fs@.len(),
            out@ + inl_fields_from(fs@, i as int, ind as int, *c) == inl_fields_from(
                fs@,
                0,
                ind as int,
                *c,
            ),
        decreases fs@.len() - i,
    {
        if i > 0 {
            out.push(COMMA);
            out.push(SP);
        }
        let sub = inline_field(&fs[i], ind, c);
        push_all(&mut out, &sub);
        i = i + 1;
        proof {
            assert(out@ + inl_fields_from(fs@, i as int, ind as int, *c) =~= inl_fields_from(
                fs@,
                0,
                ind as int,
                *c,
            ));
        }
    }
    proof {
        assert(out@ =~= inl_fields_from(fs@, 0, ind as int, *c));
    }
    out
}

pub fn inline_field(f: &Field, ind: usize, c: &Cfg) -> (r: Vec<u8>)
    ensures
        r@ == inl_field(*f, ind as int, *c),
    decreases *f, 0int, 0int,
{
    let mut out: Vec<u8> = Vec::new();
    push_all(&mut out, &f.name);
    out.push(EQS);
    let sub = inline_value(&f.value, ind, c);
    push_all(&mut out, &sub);
    proof {
        assert(out@ =~= inl_field(*f, ind as int, *c));
    }
    out
}

pub fn inline_value(v: &FieldValue, ind: usize, c: &Cfg) -> (r: Vec<u8>)
    ensures
        r@ == inl_value(*v, ind as int, *c),
    decreases *v, 0int, 0int,
{
    match v {
        FieldValue::Block(es) => {
            let mut out: Vec<u8> = Vec::new();
            out.push(LBRACE);
            let sub = inline_block_items(es, ind, c);
            push_all(&mut out, &sub);
            out.push(RBRACE);
            proof {
                assert(out@ =~= inl_value(*v, ind as int, *c));
            }
            out
        },
        FieldValue::Arr(es) => inline_array(es, ind, c),
        FieldValue::Angle(vs) => inline_angle(vs, ind, c),
        FieldValue::Typed(tv) => inline_typed(tv, ind, c),
        FieldValue::Leaf(ValueLeaf::Plain(t)) => {
            let mut out: Vec<u8> = Vec::new();
            push_all(&mut out, t);
            out
        },
        FieldValue::Leaf(ValueLeaf::Embedded(s)) => render_converted(s, ind, c),
    }
}

pub fn inline_block_items(es: &Vec<BlockEntry>, ind: usize, c: &Cfg) -> (r: Vec<u8>)
    ensures
        r@ == inl_block_items(es@, 0, ind as int, *c),
    decreases es@, es@.len(), 0int,
{
    let mut out: Vec<u8> = Vec::new();
    let mut i: usize = 0;
    while i < es.len()
        invariant
            i <= es@.len(),
            out@ + inl_block_items(es@, i as int, ind as int, *c) == inl_block_items(
                es@,
                0,
                ind as int,
                *c,
            ),
        decreases es@.len() - i,
    {
        if i > 0 {
            out.push(COMMA);
            out.push(SP);
        }
        let sub = match &es[i].item {
            BlockItem::Struct(s) => inline_structure(s, ind, c),
            BlockItem::Val(v) => inline_value(v, ind, c),
            BlockItem::Comment(t) => {
                let mut tcopy: Vec<u8> = Vec::new();
                push_all(&mut tcopy, t);
                tcopy
            },
        };
        push_all(&mut out, &sub);
        i = i + 1;
        proof {
            assert(out@ + inl_block_items(es@, i as int, ind as int, *c) =~= inl_block_items(
                es@,
                0,
                ind as int,
                *c,
            ));
        }
    }
    proof {
        assert(out@ =~= inl_block_items(es@, 0, ind as int, *c));
    }
    out
}

pub fn inline_array(es: &Vec<ArrayElem>, ind: usize, c: &Cfg) -> (r: Vec<u8>)
    ensures
        r@ == inl_array(es@, ind as int, *c),
    decreases es@, es@.len() + 1, 0int,
{
    let mut out: Vec<u8> = Vec::new();
    out.push(LBRACK);
    if es.len() > 0 {
        let sub = inline_elems(es, ind, c);
        push_all(&mut out, &sub);
    }
    out.push(RBRACK);
    proof {
        assert(out@ =~= inl_array(es@, ind as int, *c));
    }
    out
}

pub fn inline_elems(es: &Vec<ArrayElem>, ind: usize, c: &Cfg) -> (r: Vec<u8>)
    ensures
        r@ == inl_elems_from(es@, 0, ind as int, *c),
    decreases es@, es@.len(), 0int,
{
    let mut out: Vec<u8> = Vec::new();
    let mut i: usize = 0;
    while i < es.len()
        invariant
            i <= es@.len(),
            out@ + inl_elems_from(es@, i as int, ind as int, *c) == inl_elems_from(
                es@,
                0,
                ind as int,
                *c,
            ),
        decreases es@.len() - i,
    {
        if i > 0 {
            out.push(COMMA);
            out.push(SP);
        }
        let sub = inline_elem(&es[i], ind, c);
        push_all(&mut out, &sub);
        i = i + 1;
        proof {
            assert(out@ + inl_elems_from(es@, i as int, ind as int, *c) =~= inl_elems_from(
                es@,
                0,
                ind as int,
                *c,
            ));
        }
    }
    proof {
        assert(out@ =~= inl_elems_from(es@, 0, ind as int, *c));
    }
    out
}

pub fn inline_elem(e: &ArrayElem, ind: usize, c: &Cfg) -> (r: Vec<u8>)
    ensures
        r@ == inl_elem(*e, ind as int, *c),
    decreases *e, 0int, 1int,
{
    match e {
        ArrayElem::Struct(s) => inline_arr_struct(s, ind, c),
        ArrayElem::Typed(tv) => inline_typed(tv, ind, c),
        ArrayElem::Plain(t) => {
            let mut out: Vec<u8> = Vec::new();
            push_all(&mut out, t);
            out
        },
    }
}

pub fn inline_arr_struct(s: &Structure, ind: usize, c: &Cfg) -> (r: Vec<u8>)
    ensures
        r@ == inl_arr_struct(*s, ind as int, *c),
    decreases *s, 0int, 0int,
{
    let mut out: Vec<u8> = Vec::new();
    push_all(&mut out, &s.name);
    if s.fields.len() > 0 {
        out.push(COMMA);
        out.push(SP);
        let sub = inline_fields(&s.fields, ind, c);
        push_all(&mut out, &sub);
    }
    proof {
        assert(out@ =~= inl_arr_struct(*s, ind as int, *c));
    }
    out
}

pub fn inline_angle(vs: &Vec<FieldValue>, ind: usize, c: &Cfg) -> (r: Vec<u8>)
    ensures
        r@ == inl_angle(vs@, ind as int, *c),
    decreases vs@, vs@.len() + 1, 0int,
{
    let mut out: Vec<u8> = Vec::new();
    out.push(LANGLE);
    if vs.len() > 0 {
        let sub = inline_angle_items(vs, ind, c);
        push_all(&mut out, &sub);
    }
    out.push(RANGLE);
    proof {
        assert(out@ =~= inl_angle(vs@, ind as int, *c));
    }
    out
}

pub fn inline_angle_items(vs: &Vec<FieldValue>, ind: usize, c: &Cfg) -> (r: Vec<u8>)
    ensures
        r@ == inl_angle_items(vs@, 0, ind as int, *c),
    decreases vs@, vs@.len(), 0int,
{
    let mut out: Vec<u8> = Vec::new();
    let mut i: usize = 0;
    while i < vs.len()
        invariant
            i <= vs@.len(),
            out@ + inl_angle_items(vs@, i as int, ind as int, *c) == inl_angle_items(
                vs@,
                0,
                ind as int,
                *c,
            ),
        decreases vs@.len() - i,
    {
        if i > 0 {
            out.push(COMMA);
            out.push(SP);
        }
        let sub = inline_value(&vs[i], ind, c);
        push_all(&mut out, &sub);
        i = i + 1;
        proof {
            assert(out@ + inl_angle_items(vs@, i as int, ind as int, *c) =~= inl_angle_items(
                vs@,
                0,
                ind as int,
                *c,
            ));
        }
    }
    proof {
        assert(out@ =~= inl_angle_items(vs@, 0, ind as int, *c));
    }
    out
}

pub fn inline_typed(tv: &TypedValue, ind: usize, c: &Cfg) -> (r: Vec<u8>)
    ensures
        r@ == inl_typed(*tv, ind as int, *c),
    decreases *tv, 0int, 0int,
{
    let mut out: Vec<u8> = Vec::new();
    out.push(LPAREN);
    push_all(&mut out, &tv.ty_name);
    out.push(RPAREN);
    match &tv.payload {
        TypedPayload::Arr(es) => {
            let sub = inline_array(es, ind, c);
            push_all(&mut out, &sub);
        },
        TypedPayload::Angle(vs) => {
            let sub = inline_angle(vs, ind, c);
            push_all(&mut out, &sub);
        },
        TypedPayload::Plain(t) => {
            push_all(&mut out, t);
        },
    }
    proof {
        assert(out@ =~= inl_typed(*tv, ind as int, *c));
    }
    out
}

/// The array-syntax replacement text for an embedded structure recovered
/// from a quoted literal, decided against the indent at the splice site.
pub fn render_converted(s: &Structure, ind: usize, c: &Cfg) -> (r: Vec<u8>)
    ensures
        r@ == conv_render(*s, ind as int, *c),
    decreases *s, 0int, 2int,
{
    let il = inline_structure(s, 0, c);
    let forced = is_embed_name(&s.name);
    let mut out: Vec<u8> = Vec::new();
    out.push(LBRACK);
    if forced || crate::byte_buf::exceeds3(ind, il.len(), 2, c.max_line_length) {
        push_all(&mut out, &s.name);
        out.push(COMMA);
        out.push(NL);
        let find = crate::byte_buf::add_clip(ind, c.indent_width);
        let sub = conv_fields_exec(&s.fields, find, c);
        push_all(&mut out, &sub);
        push_spaces(&mut out, ind);
        out.push(RBRACK);
        proof {
            assert(out@ =~= conv_render(*s, ind as int, *c));
        }
    } else {
        push_all(&mut out, &il);
        out.push(RBRACK);
        proof {
            assert(out@ =~= conv_render(*s, ind as int, *c));
        }
    }
    out
}

pub fn conv_fields_exec(fs: &Vec<Field>, find: usize, c: &Cfg) -> (r: Vec<u8>)
    ensures
        r@ == conv_fields(fs@, 0, find as int, *c),
    decreases fs@, fs@.len(), 0int,
{
    let mut out: Vec<u8> = Vec::new();
    let mut i: usize = 0;
    while i < fs.len()
        invariant
            i <= fs@.len(),
            out@ + conv_fields(fs@, i as int, find as int, *c) == conv_fields(
                fs@,
                0,
                find as int,
                *c,
            ),
        decreases fs@.len() - i,
    {
        push_spaces(&mut out, find);
        let sub = inline_field(&fs[i], 0, c);
        push_all(&mut out, &sub);
        out.push(COMMA);
        out.push(NL);
        i = i + 1;
        proof {
            assert(out@ + conv_fields(fs@, i as int, find as int, *c) =~= conv_fields(
                fs@,
                0,
                find as int,
                *c,
            ));
        }
    }
    proof {
        assert(out@ =~= conv_fields(fs@, 0, find as int, *c));
    }
    out
}

} // verus!
