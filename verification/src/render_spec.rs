//! The layout policy, stated as pure functions from the syntax tree to the
//! exact byte sequence the formatter emits. Every executable renderer in
//! this crate is proved to return precisely these sequences.
//!
//! The layout decisions are: a structure is inline when it has no nested
//! block, its name is not in the special set, and its one-line form fits in
//! the width budget; nested blocks and arrays pack simple elements onto
//! shared lines but give complex elements a line of their own; an over-long
//! trailing comment is hoisted onto its own line before its element; and an
//! embedded structure recovered from a quoted literal is spliced back in as
//! array syntax, block-shaped when its name demands it or the line would
//! run over.
use vstd::prelude::*;

use crate::byte_buf::{
    contains_newline, newline_count_range, sat_add, spaces, newlines, COMMA, CR, EQS, HASH,
    LANGLE, LBRACE, LBRACK, LPAREN, NL, RANGLE, RBRACE, RBRACK, RPAREN, SEMI, SP, TAB,
};
use crate::model::{
    ArrayElem, BlockEntry, BlockItem, Document, Field, FieldValue, Structure, TopItem, TopNode,
    TypedPayload, TypedValue, ValueLeaf,
};
use crate::names::{spec_is_embed_name, spec_is_special};

verus! {

/// Formatter configuration: indent step and line-width budget.
#[derive(Clone, Copy)]
pub struct Cfg {
    pub indent_width: usize,
    pub max_line_length: usize,
}

pub open spec fn iw(c: Cfg) -> int {
    c.indent_width as int
}

pub open spec fn mll(c: Cfg) -> int {
    c.max_line_length as int
}

pub open spec fn comma_sp() -> Seq<u8> {
    seq![COMMA, SP]
}

pub open spec fn comma_nl() -> Seq<u8> {
    seq![COMMA, NL]
}

// ---------------------------------------------------------------------------
// Tree predicates driving the fit decision.
// ---------------------------------------------------------------------------

/// Whether any field of the structure holds a brace-delimited block.
pub open spec fn struct_has_block(s: Structure) -> bool {
    exists|i: int|
        0 <= i < s.fields@.len() && (#[trigger] s.fields@[i]).value is Block
}

/// Whether a field value is a block, or an array holding a structure that
/// itself has a block.
pub open spec fn val_has_block(v: FieldValue) -> bool {
    v is Block || (v matches FieldValue::Arr(es) && arr_has_block(es@))
}

pub open spec fn arr_any_struct(es: Seq<ArrayElem>) -> bool {
    exists|i: int| 0 <= i < es.len() && (#[trigger] es[i]) is Struct
}

/// Whether a field value is an array holding a structure element.
pub open spec fn val_has_arr_struct(v: FieldValue) -> bool {
    v matches FieldValue::Arr(es) && arr_any_struct(es@)
}

/// Whether a field value is an array holding a structure whose name forces
/// block layout.
pub open spec fn val_forced_multiline(v: FieldValue) -> bool {
    v matches FieldValue::Arr(es) && arr_forced_multiline(es@)
}

/// A block item that forces one-item-per-line layout for the whole block.
pub open spec fn item_complex(it: BlockItem) -> bool {
    it is Struct || (it matches BlockItem::Val(v) && (val_has_block(v) || val_has_arr_struct(v)))
}

pub open spec fn block_complex(es: Seq<BlockEntry>) -> bool {
    exists|i: int| 0 <= i < es.len() && item_complex((#[trigger] es[i]).item)
}

pub open spec fn elem_has_block(e: ArrayElem) -> bool {
    e matches ArrayElem::Struct(s) && struct_has_block(s)
}

pub open spec fn elem_forced_multiline(e: ArrayElem) -> bool {
    e matches ArrayElem::Struct(s) && spec_is_special(s.name@)
}

pub open spec fn arr_has_block(es: Seq<ArrayElem>) -> bool {
    exists|i: int| 0 <= i < es.len() && elem_has_block(#[trigger] es[i])
}

pub open spec fn arr_forced_multiline(es: Seq<ArrayElem>) -> bool {
    exists|i: int| 0 <= i < es.len() && elem_forced_multiline(#[trigger] es[i])
}

// ---------------------------------------------------------------------------
// Inline renderer: the canonical one-line text of a subtree. The indent is
// still a parameter because an embedded structure spliced in from a quoted
// literal decides inline-versus-block against the width left at its site.
// ---------------------------------------------------------------------------

pub open spec fn inl_structure(s: Structure, ind: int, c: Cfg) -> Seq<u8>
    decreases s, 0int, 1int,
{
    s.name@ + (if s.fields@.len() > 0 {
        comma_sp() + inl_fields_from(s.fields@, 0, ind, c)
    } else {
        Seq::<u8>::empty()
    }) + (if s.has_semicolon {
        seq![SEMI]
    } else {
        Seq::<u8>::empty()
    })
}

pub open spec fn inl_fields_from(fs: Seq<Field>, i: int, ind: int, c: Cfg) -> Seq<u8>
    decreases fs, fs.len() - i, 0int,
{
    if i < 0 || i >= fs.len() {
        Seq::<u8>::empty()
    } else {
        (if i > 0 {
            comma_sp()
        } else {
            Seq::<u8>::empty()
        }) + inl_field(fs[i], ind, c) + inl_fields_from(fs, i + 1, ind, c)
    }
}

pub open spec fn inl_field(f: Field, ind: int, c: Cfg) -> Seq<u8>
    decreases f, 0int, 0int,
{
    f.name@ + seq![EQS] + inl_value(f.value, ind, c)
}

pub open spec fn inl_value(v: FieldValue, ind: int, c: Cfg) -> Seq<u8>
    decreases v, 0int, 0int,
{
    match v {
        FieldValue::Block(es) => seq![LBRACE] + inl_block_items(es@, 0, ind, c) + seq![RBRACE],
        FieldValue::Arr(es) => inl_array(es@, ind, c),
        FieldValue::Angle(vs) => inl_angle(vs@, ind, c),
        FieldValue::Typed(tv) => inl_typed(tv, ind, c),
        FieldValue::Leaf(ValueLeaf::Plain(t)) => t@,
        FieldValue::Leaf(ValueLeaf::Embedded(s)) => conv_render(s, ind, c),
    }
}

pub open spec fn inl_block_items(es: Seq<BlockEntry>, i: int, ind: int, c: Cfg) -> Seq<u8>
    decreases es, es.len() - i, 0int,
{
    if i < 0 || i >= es.len() {
        Seq::<u8>::empty()
    } else {
        (if i > 0 {
            comma_sp()
        } else {
            Seq::<u8>::empty()
        }) + (match es[i].item {
            BlockItem::Struct(s) => inl_structure(s, ind, c),
            BlockItem::Val(v) => inl_value(v, ind, c),
            BlockItem::Comment(t) => t@,
        }) + inl_block_items(es, i + 1, ind, c)
    }
}

pub open spec fn inl_array(es: Seq<ArrayElem>, ind: int, c: Cfg) -> Seq<u8>
    decreases es, es.len() + 1, 0int,
{
    if es.len() == 0 {
        seq![LBRACK, RBRACK]
    } else {
        seq![LBRACK] + inl_elems_from(es, 0, ind, c) + seq![RBRACK]
    }
}

pub open spec fn inl_elems_from(es: Seq<ArrayElem>, i: int, ind: int, c: Cfg) -> Seq<u8>
    decreases es, es.len() - i, 0int,
{
    if i < 0 || i >= es.len() {
        Seq::<u8>::empty()
    } else {
        (if i > 0 {
            comma_sp()
        } else {
            Seq::<u8>::empty()
        }) + inl_elem(es[i], ind, c) + inl_elems_from(es, i + 1, ind, c)
    }
}

pub open spec fn inl_elem(e: ArrayElem, ind: int, c: Cfg) -> Seq<u8>
    decreases e, 0int, 1int,
{
    match e {
        ArrayElem::Struct(s) => inl_arr_struct(s, ind, c),
        ArrayElem::Typed(tv) => inl_typed(tv, ind, c),
        ArrayElem::Plain(t) => t@,
    }
}

/// A structure standing as an array element: rendered without brackets and
/// never with a terminator.
pub open spec fn inl_arr_struct(s: Structure, ind: int, c: Cfg) -> Seq<u8>
    decreases s, 0int, 0int,
{
    s.name@ + (if s.fields@.len() > 0 {
        comma_sp() + inl_fields_from(s.fields@, 0, ind, c)
    } else {
        Seq::<u8>::empty()
    })
}

pub open spec fn inl_angle(vs: Seq<FieldValue>, ind: int, c: Cfg) -> Seq<u8>
    decreases vs, vs.len() + 1, 0int,
{
    if vs.len() == 0 {
        seq![LANGLE, RANGLE]
    } else {
        seq![LANGLE] + inl_angle_items(vs, 0, ind, c) + seq![RANGLE]
    }
}

pub open spec fn inl_angle_items(vs: Seq<FieldValue>, i: int, ind: int, c: Cfg) -> Seq<u8>
    decreases vs, vs.len() - i, 0int,
{
    if i < 0 || i >= vs.len() {
        Seq::<u8>::empty()
    } else {
        (if i > 0 {
            comma_sp()
        } else {
            Seq::<u8>::empty()
        }) + inl_value(vs[i], ind, c) + inl_angle_items(vs, i + 1, ind, c)
    }
}

pub open spec fn inl_typed(tv: TypedValue, ind: int, c: Cfg) -> Seq<u8>
    decreases tv, 0int, 0int,
{
    seq![LPAREN] + tv.ty_name@ + seq![RPAREN] + (match tv.payload {
        TypedPayload::Arr(es) => inl_array(es@, ind, c),
        TypedPayload::Angle(vs) => inl_angle(vs@, ind, c),
        TypedPayload::Plain(t) => t@,
    })
}

// ---------------------------------------------------------------------------
// Embedded-structure conversion: an embedded structure replaces its quoted
// literal as array syntax. Inside the brackets the structure is rendered by
// a fresh renderer at indent zero; the block decision is made against the
// indent at the splice site.
// ---------------------------------------------------------------------------

pub open spec fn conv_render(s: Structure, ind: int, c: Cfg) -> Seq<u8>
    decreases s, 0int, 2int,
{
    let il = inl_structure(s, 0, c);
    if spec_is_embed_name(s.name@) || ind + il.len() + 2 > mll(c) {
        seq![LBRACK] + s.name@ + comma_nl() + conv_fields(s.fields@, 0, sat_add(ind, iw(c)), c)
            + spaces(ind) + seq![RBRACK]
    } else {
        seq![LBRACK] + il + seq![RBRACK]
    }
}

pub open spec fn conv_fields(fs: Seq<Field>, i: int, find: int, c: Cfg) -> Seq<u8>
    decreases fs, fs.len() - i, 0int,
{
    if i < 0 || i >= fs.len() {
        Seq::<u8>::empty()
    } else {
        spaces(find) + inl_field(fs[i], 0, c) + comma_nl() + conv_fields(fs, i + 1, find, c)
    }
}

// ---------------------------------------------------------------------------
// Fit decision and the block renderer.
// ---------------------------------------------------------------------------

/// A structure renders inline when it has no nested block, its name is not
/// special, and its one-line form fits the budget without a line break.
pub open spec fn fits(s: Structure, ind: int, c: Cfg) -> bool
    decreases s, 0int, 2int,
{
    !struct_has_block(s) && !spec_is_special(s.name@) && {
        let il = inl_structure(s, ind, c);
        ind + il.len() <= mll(c) && !contains_newline(il)
    }
}

pub open spec fn blk_structure(s: Structure, ind: int, c: Cfg) -> Seq<u8>
    decreases s, 0int, 3int,
{
    if fits(s, ind, c) {
        spaces(ind) + inl_structure(s, ind, c)
    } else {
        spaces(ind) + s.name@ + (if s.fields@.len() > 0 {
            comma_nl() + blk_fields_from(s.fields@, 0, sat_add(ind, iw(c)), c)
        } else {
            Seq::<u8>::empty()
        }) + (if s.has_semicolon {
            seq![SEMI]
        } else {
            Seq::<u8>::empty()
        })
    }
}

pub open spec fn blk_fields_from(fs: Seq<Field>, i: int, ind: int, c: Cfg) -> Seq<u8>
    decreases fs, fs.len() - i, 0int,
{
    if i < 0 || i >= fs.len() {
        Seq::<u8>::empty()
    } else {
        (if i > 0 {
            comma_nl()
        } else {
            Seq::<u8>::empty()
        }) + blk_field(fs[i], ind, c) + blk_fields_from(fs, i + 1, ind, c)
    }
}

pub open spec fn blk_field(f: Field, ind: int, c: Cfg) -> Seq<u8>
    decreases f, 0int, 0int,
{
    spaces(ind) + f.name@ + seq![EQS] + blk_value(f.value, ind, c)
}

pub open spec fn blk_value(v: FieldValue, ind: int, c: Cfg) -> Seq<u8>
    decreases v, 0int, 0int,
{
    match v {
        FieldValue::Block(es) => blk_block(es@, ind, c),
        FieldValue::Arr(es) => blk_array(es@, ind, c),
        FieldValue::Angle(vs) => blk_angle(vs@, ind, c),
        FieldValue::Typed(tv) => blk_typed(tv, ind, c),
        FieldValue::Leaf(ValueLeaf::Plain(t)) => t@,
        FieldValue::Leaf(ValueLeaf::Embedded(s)) => conv_render(s, ind, c),
    }
}

pub open spec fn blk_typed(tv: TypedValue, ind: int, c: Cfg) -> Seq<u8>
    decreases tv, 0int, 0int,
{
    seq![LPAREN] + tv.ty_name@ + seq![RPAREN] + (match tv.payload {
        TypedPayload::Arr(es) => blk_array(es@, ind, c),
        TypedPayload::Angle(vs) => blk_angle(vs@, ind, c),
        TypedPayload::Plain(t) => t@,
    })
}

pub open spec fn blk_angle(vs: Seq<FieldValue>, ind: int, c: Cfg) -> Seq<u8>
    decreases vs, vs.len() + 1, 0int,
{
    if vs.len() == 0 {
        seq![LANGLE, RANGLE]
    } else {
        seq![LANGLE] + blk_angle_items(vs, 0, ind, c) + seq![RANGLE]
    }
}

pub open spec fn blk_angle_items(vs: Seq<FieldValue>, i: int, ind: int, c: Cfg) -> Seq<u8>
    decreases vs, vs.len() - i, 0int,
{
    if i < 0 || i >= vs.len() {
        Seq::<u8>::empty()
    } else {
        (if i > 0 {
            comma_sp()
        } else {
            Seq::<u8>::empty()
        }) + blk_value(vs[i], ind, c) + blk_angle_items(vs, i + 1, ind, c)
    }
}

// ---------------------------------------------------------------------------
// Nested blocks: items paired with same-row trailing comments, complex
// blocks one item per line, simple blocks packed within the width budget.
// ---------------------------------------------------------------------------

pub open spec fn comment_text(it: BlockItem) -> Seq<u8> {
    match it {
        BlockItem::Comment(t) => t@,
        _ => Seq::<u8>::empty(),
    }
}

/// The comment trailing entry `i` on the same source row, if any.
pub open spec fn trailing(es: Seq<BlockEntry>, i: int) -> Option<Seq<u8>> {
    if 0 <= i && i + 1 < es.len() && !(es[i].item is Comment) && es[i + 1].item is Comment
        && es[i + 1].start_row == es[i].end_row {
        Some(comment_text(es[i + 1].item))
    } else {
        None
    }
}

/// The index of the next entry once entry `i` and any trailing comment are
/// consumed.
pub open spec fn step_of(es: Seq<BlockEntry>, i: int) -> int {
    if trailing(es, i) is Some {
        i + 2
    } else {
        i + 1
    }
}

pub open spec fn tc_suffix(tc: Option<Seq<u8>>) -> Seq<u8> {
    match tc {
        Some(t) => seq![SP, SP] + t,
        None => Seq::<u8>::empty(),
    }
}

pub open spec fn tc_len(tc: Option<Seq<u8>>) -> int {
    match tc {
        Some(t) => 2 + t.len() as int,
        None => 0,
    }
}

/// Whether the trailing comment would push its line over the budget and so
/// is hoisted onto its own line before the element.
pub open spec fn comment_hoisted(v: FieldValue, tc: Option<Seq<u8>>, ind2: int, c: Cfg) -> bool
    decreases v, 0int, 1int,
{
    tc is Some && ind2 + inl_value(v, ind2, c).len() + 1 + tc_len(tc) > mll(c)
}

/// The text a simple (non-block) value entry contributes, given the packing
/// state: `started` says whether a packed line is open and `cll` its length.
pub open spec fn val_step_text(
    v: FieldValue,
    tc: Option<Seq<u8>>,
    is_last: bool,
    started: bool,
    cll: int,
    ind2: int,
    complex: bool,
    c: Cfg,
) -> Seq<u8>
    decreases v, 0int, 1int,
{
    if val_has_block(v) {
        (if started {
            comma_nl()
        } else {
            Seq::<u8>::empty()
        }) + spaces(ind2) + blk_value(v, ind2, c) + seq![COMMA] + tc_suffix(tc) + seq![NL]
    } else {
        let vs = inl_value(v, ind2, c);
        let hoist = comment_hoisted(v, tc, ind2, c);
        let pre = if hoist {
            (if started {
                comma_nl()
            } else {
                Seq::<u8>::empty()
            }) + blk_comment(tc_text(tc), ind2, c) + seq![NL]
        } else {
            Seq::<u8>::empty()
        };
        let started1 = if hoist { false } else { started };
        if complex {
            pre + (if started1 {
                comma_nl()
            } else {
                Seq::<u8>::empty()
            }) + spaces(ind2) + (if val_forced_multiline(v) || ind2 + vs.len() > mll(c) {
                blk_value(v, ind2, c)
            } else {
                vs
            }) + seq![COMMA] + (if !hoist {
                tc_suffix(tc)
            } else {
                Seq::<u8>::empty()
            }) + seq![NL]
        } else {
            let vt = vs.len() + (if hoist { 0int } else { tc_len(tc) });
            let lead = if !started1 {
                spaces(ind2)
            } else if cll + 2 + vt + 1 > mll(c) {
                comma_nl() + spaces(ind2)
            } else {
                comma_sp()
            };
            if is_last {
                pre + lead + vs + seq![COMMA] + (if !hoist {
                    tc_suffix(tc)
                } else {
                    Seq::<u8>::empty()
                }) + seq![NL]
            } else if !hoist && tc is Some {
                pre + lead + vs + seq![COMMA] + tc_suffix(tc) + seq![NL]
            } else {
                pre + lead + vs
            }
        }
    }
}

pub open spec fn tc_text(tc: Option<Seq<u8>>) -> Seq<u8> {
    match tc {
        Some(t) => t,
        None => Seq::<u8>::empty(),
    }
}

/// Whether a packed line is still open after a simple value entry.
pub open spec fn val_step_started(
    v: FieldValue,
    tc: Option<Seq<u8>>,
    is_last: bool,
    started: bool,
    complex: bool,
    ind2: int,
    c: Cfg,
) -> bool
    decreases v, 0int, 1int,
{
    if val_has_block(v) || complex || is_last {
        false
    } else {
        let hoist = comment_hoisted(v, tc, ind2, c);
        if !hoist && tc is Some {
            false
        } else {
            true
        }
    }
}

/// The open line's length after a value entry.
pub open spec fn val_step_cll(
    v: FieldValue,
    tc: Option<Seq<u8>>,
    is_last: bool,
    started: bool,
    cll: int,
    ind2: int,
    complex: bool,
    c: Cfg,
) -> int
    decreases v, 0int, 1int,
{
    if val_has_block(v) || complex {
        0
    } else {
        let vs = inl_value(v, ind2, c);
        let hoist = comment_hoisted(v, tc, ind2, c);
        let started1 = if hoist { false } else { started };
        let vt = vs.len() + (if hoist { 0int } else { tc_len(tc) });
        let cll1 = if !started1 {
            ind2
        } else if cll + 2 + vt + 1 > mll(c) {
            ind2
        } else {
            cll + 2
        };
        if !hoist && tc is Some && !is_last {
            0
        } else {
            sat_add(cll1, vs.len() as int)
        }
    }
}

/// The whole body of a nested block after the opening `{` and newline.
pub open spec fn blk_items(
    es: Seq<BlockEntry>,
    i: int,
    started: bool,
    cll: int,
    ind2: int,
    complex: bool,
    c: Cfg,
) -> Seq<u8>
    decreases es, es.len() - i, 1int,
{
    if i < 0 || i >= es.len() {
        Seq::<u8>::empty()
    } else {
        match es[i].item {
            BlockItem::Comment(t) => {
                ((if started {
                    comma_nl()
                } else {
                    Seq::<u8>::empty()
                }) + blk_comment(t@, ind2, c) + seq![NL]) + blk_items(
                    es,
                    i + 1,
                    false,
                    0,
                    ind2,
                    complex,
                    c,
                )
            },
            BlockItem::Struct(s) => {
                ((if started {
                    comma_nl()
                } else {
                    Seq::<u8>::empty()
                }) + blk_structure(s, ind2, c) + seq![COMMA] + tc_suffix(trailing(es, i))
                    + seq![NL]) + blk_items(es, step_of(es, i), false, 0, ind2, complex, c)
            },
            BlockItem::Val(v) => {
                let tc = trailing(es, i);
                let is_last = step_of(es, i) >= es.len();
                val_step_text(v, tc, is_last, started, cll, ind2, complex, c) + blk_items(
                    es,
                    step_of(es, i),
                    val_step_started(v, tc, is_last, started, complex, ind2, c),
                    val_step_cll(v, tc, is_last, started, cll, ind2, complex, c),
                    ind2,
                    complex,
                    c,
                )
            },
        }
    }
}

pub open spec fn blk_block(es: Seq<BlockEntry>, ind: int, c: Cfg) -> Seq<u8>
    decreases es, es.len() + 1, 0int,
{
    seq![LBRACE, NL] + blk_items(es, 0, false, 0, sat_add(ind, iw(c)), block_complex(es), c)
        + spaces(ind) + seq![RBRACE]
}

// ---------------------------------------------------------------------------
// Arrays: inline when everything is simple and fits; a lone structure
// element keeps the brackets around its block form; otherwise elements are
// packed, with structures on lines of their own.
// ---------------------------------------------------------------------------

/// A structure element of a block-form array: name, then fields inline when
/// they fit and the structure is plain, one per line otherwise.
pub open spec fn arr_struct_multiline(s: Structure, ind: int, c: Cfg) -> Seq<u8>
    decreases s, 0int, 0int,
{
    s.name@ + (if s.fields@.len() == 0 {
        Seq::<u8>::empty()
    } else {
        let infl = inl_fields_from(s.fields@, 0, ind, c);
        if spec_is_special(s.name@) || struct_has_block(s) || ind + infl.len() + 2 > mll(c) {
            comma_nl() + blk_fields_from(s.fields@, 0, sat_add(ind, iw(c)), c)
        } else {
            comma_sp() + infl
        }
    })
}

pub open spec fn arr_elem_block(e: ArrayElem, ind: int, c: Cfg) -> Seq<u8>
    decreases e, 0int, 1int,
{
    match e {
        ArrayElem::Struct(s) => arr_struct_multiline(s, ind, c),
        ArrayElem::Typed(tv) => blk_typed(tv, ind, c),
        ArrayElem::Plain(t) => t@,
    }
}

/// The body of a block-form array after the opening `[` and newline.
pub open spec fn arr_items(
    es: Seq<ArrayElem>,
    i: int,
    started: bool,
    cll: int,
    ind2: int,
    c: Cfg,
) -> Seq<u8>
    decreases es, es.len() - i, 1int,
{
    if i < 0 || i >= es.len() {
        Seq::<u8>::empty()
    } else {
        let e = es[i];
        let is_last = i + 1 >= es.len();
        if elem_has_block(e) {
            ((if started {
                comma_nl()
            } else {
                Seq::<u8>::empty()
            }) + spaces(ind2) + arr_elem_block(e, ind2, c) + comma_nl()) + arr_items(
                es,
                i + 1,
                false,
                0,
                ind2,
                c,
            )
        } else if e is Struct {
            let estr = inl_elem(e, ind2, c);
            ((if started {
                comma_nl()
            } else {
                Seq::<u8>::empty()
            }) + spaces(ind2) + (if elem_forced_multiline(e) || ind2 + estr.len() > mll(c) {
                arr_elem_block(e, ind2, c)
            } else {
                estr
            }) + comma_nl()) + arr_items(es, i + 1, false, 0, ind2, c)
        } else {
            let estr = inl_elem(e, ind2, c);
            let lead = if !started {
                spaces(ind2)
            } else if cll + 2 + estr.len() > mll(c) {
                comma_nl() + spaces(ind2)
            } else {
                comma_sp()
            };
            let cll1 = if !started {
                ind2
            } else if cll + 2 + estr.len() > mll(c) {
                ind2
            } else {
                cll + 2
            };
            if is_last {
                lead + estr + comma_nl()
            } else {
                lead + estr + arr_items(es, i + 1, true, sat_add(cll1, estr.len() as int), ind2, c)
            }
        }
    }
}

pub open spec fn blk_array(es: Seq<ArrayElem>, ind: int, c: Cfg) -> Seq<u8>
    decreases es, es.len() + 1, 1int,
{
    if es.len() == 0 {
        seq![LBRACK, RBRACK]
    } else {
        let il = inl_array(es, ind, c);
        let nested = arr_has_block(es);
        let forced = arr_forced_multiline(es);
        if !nested && !forced && ind + il.len() <= mll(c) && !contains_newline(il) {
            il
        } else if es.len() == 1 && (nested || forced) && es[0] is Struct {
            seq![LBRACK] + arr_struct_multiline(arr_elem_struct(es[0]), ind, c) + seq![RBRACK]
        } else if es.len() == 1 && es[0] is Struct && ind + inl_elem(es[0], ind, c).len()
            > mll(c) {
            seq![LBRACK] + arr_struct_multiline(arr_elem_struct(es[0]), ind, c) + seq![RBRACK]
        } else {
            seq![LBRACK, NL] + arr_items(es, 0, false, 0, sat_add(ind, iw(c)), c) + spaces(ind)
                + seq![RBRACK]
        }
    }
}

pub open spec fn arr_elem_struct(e: ArrayElem) -> Structure
    recommends
        e is Struct,
{
    match e {
        ArrayElem::Struct(s) => s,
        _ => vstd::pervasive::arbitrary(),
    }
}

// ---------------------------------------------------------------------------
// Comments: verbatim when they fit, word-wrapped with a re-applied `# `
// prefix otherwise.
// ---------------------------------------------------------------------------

pub open spec fn is_ws(b: u8) -> bool {
    b == SP || b == TAB || b == NL || b == CR || b == 11u8 || b == 12u8
}

/// The text flushed when word `w` joins line `cl`: nothing while the word
/// still fits, the finished line otherwise.
pub open spec fn wrap_word_emit(
    cl: Seq<u8>,
    w: Seq<u8>,
    first: bool,
    pfx: Seq<u8>,
    maxc: int,
) -> Seq<u8> {
    if cl.len() == 0 || cl.len() + 1 + w.len() <= maxc {
        Seq::<u8>::empty()
    } else {
        (if first {
            Seq::<u8>::empty()
        } else {
            seq![NL]
        }) + pfx + cl
    }
}

/// The line under construction after word `w` joins line `cl`.
pub open spec fn wrap_word_cl(cl: Seq<u8>, w: Seq<u8>, maxc: int) -> Seq<u8> {
    if cl.len() == 0 {
        w
    } else if cl.len() + 1 + w.len() <= maxc {
        cl + seq![SP] + w
    } else {
        w
    }
}

/// Whether nothing was emitted yet after word `w` joins line `cl`.
pub open spec fn wrap_word_first(cl: Seq<u8>, w: Seq<u8>, first: bool, maxc: int) -> bool {
    if cl.len() == 0 || cl.len() + 1 + w.len() <= maxc {
        first
    } else {
        false
    }
}

/// Greedy word wrap of `s[p..]`: words are packed into lines of at most
/// `maxc` content bytes, each emitted line carries `pfx`, and lines after
/// the first are preceded by a newline. `cur` is the word being scanned,
/// `cl` the line under construction, `first` whether nothing was emitted.
pub open spec fn wrap_bytes(
    s: Seq<u8>,
    p: int,
    cur: Seq<u8>,
    cl: Seq<u8>,
    first: bool,
    pfx: Seq<u8>,
    maxc: int,
) -> Seq<u8>
    decreases s.len() - p,
{
    if p < 0 || p >= s.len() {
        let e1 = if cur.len() > 0 {
            wrap_word_emit(cl, cur, first, pfx, maxc)
        } else {
            Seq::<u8>::empty()
        };
        let cl1 = if cur.len() > 0 {
            wrap_word_cl(cl, cur, maxc)
        } else {
            cl
        };
        let f1 = if cur.len() > 0 {
            wrap_word_first(cl, cur, first, maxc)
        } else {
            first
        };
        e1 + (if cl1.len() == 0 {
            Seq::<u8>::empty()
        } else {
            (if f1 {
                Seq::<u8>::empty()
            } else {
                seq![NL]
            }) + pfx + cl1
        })
    } else if is_ws(s[p]) {
        if cur.len() == 0 {
            wrap_bytes(s, p + 1, cur, cl, first, pfx, maxc)
        } else {
            wrap_word_emit(cl, cur, first, pfx, maxc) + wrap_bytes(
                s,
                p + 1,
                Seq::<u8>::empty(),
                wrap_word_cl(cl, cur, maxc),
                wrap_word_first(cl, cur, first, maxc),
                pfx,
                maxc,
            )
        }
    } else {
        wrap_bytes(s, p + 1, cur.push(s[p]), cl, first, pfx, maxc)
    }
}

/// A comment: verbatim behind its indent when it fits; otherwise stripped
/// of its `# ` lead and word-wrapped, each line re-prefixed.
pub open spec fn blk_comment(t: Seq<u8>, ind: int, c: Cfg) -> Seq<u8> {
    if ind + t.len() <= mll(c) {
        spaces(ind) + t
    } else {
        let c1 = if t.len() > 0 && t[0] == HASH {
            t.drop_first()
        } else {
            t
        };
        let c2 = if c1.len() > 0 && c1[0] == SP {
            c1.drop_first()
        } else {
            c1
        };
        let pfx = spaces(ind) + seq![HASH, SP];
        wrap_bytes(c2, 0, Seq::<u8>::empty(), Seq::<u8>::empty(), true, pfx, mll(c) - ind - 2)
    }
}

// ---------------------------------------------------------------------------
// Documents: items in source order, blank lines re-created from the byte
// gap between neighbours, one line break after every item.
// ---------------------------------------------------------------------------

/// Blank lines preserved between two items: one fewer than the newlines in
/// the source gap, never negative.
pub open spec fn blanks(src: Seq<u8>, end_byte: int, start_byte: int) -> int {
    crate::byte_buf::blanks_between(src, end_byte, start_byte)
}

pub open spec fn top_item_text(n: TopNode, base: int, c: Cfg) -> Seq<u8> {
    match n {
        TopNode::Struct(s) => blk_structure(s, base, c),
        TopNode::Comment(t) => blk_comment(t@, base, c),
    }
}

pub open spec fn doc_items_from(
    items: Seq<TopItem>,
    i: int,
    src: Seq<u8>,
    prev_end: int,
    base: int,
    c: Cfg,
) -> Seq<u8>
    decreases items.len() - i,
{
    if i < 0 || i >= items.len() {
        Seq::<u8>::empty()
    } else {
        newlines(blanks(src, prev_end, items[i].start_byte as int)) + top_item_text(
            items[i].node,
            base,
            c,
        ) + seq![NL] + doc_items_from(items, i + 1, src, items[i].end_byte as int, base, c)
    }
}

/// The output buffer after a formatting run: what it held already, every
/// item, then a final newline if none is there yet, so the output always
/// ends with a line break.
pub open spec fn spec_format_into(
    out0: Seq<u8>,
    doc: Document,
    src: Seq<u8>,
    base: int,
    c: Cfg,
) -> Seq<u8> {
    let o = out0 + doc_items_from(doc.items@, 0, src, 0, base, c);
    if o.len() == 0 || o.last() != NL {
        o + seq![NL]
    } else {
        o
    }
}

/// The full output of a fresh run: every item, then a final newline if none
/// is there yet.
pub open spec fn spec_format(doc: Document, src: Seq<u8>, base: int, c: Cfg) -> Seq<u8> {
    spec_format_into(Seq::<u8>::empty(), doc, src, base, c)
}

} // verus!
