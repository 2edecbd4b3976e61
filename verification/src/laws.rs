//! The formatter's guarantees, stated and proved over the rendering
//! specification: blank-line fidelity, forced block layout for special
//! names, terminator preservation, trailing commas in wrapped arrays,
//! comment hoisting, escape fidelity, and the single trailing newline.
//! The laws speak of the rendering of a parsed tree; `fmt::format_file`
//! fixes that tree as the parse of the source (`parse_spec::sp_document`),
//! so each law reaches the source text through its contract.
use vstd::prelude::*;

use crate::byte_buf::{
    blanks_between, newline_count_range, newlines, sat_add, spaces, BSLASH, COMMA, NL, QUOTE,
    SEMI,
};
use crate::escape::spec_unescape_from;
use crate::model::{Document, FieldValue, Structure, TopItem, TopNode, TypedPayload, ValueLeaf};
use crate::names::spec_is_special;
use crate::render_spec::{
    arr_items, blk_comment, blk_fields_from, blk_structure, comma_nl, comma_sp,
    comment_hoisted, doc_items_from, elem_has_block, fits, inl_structure, inl_value, iw, mll,
    spec_format, top_item_text, val_has_block, val_step_text, Cfg,
};

verus! {

// ---------------------------------------------------------------------------
// Blank-line fidelity: k blank source lines between adjacent top-level
// items give exactly k newline bytes between the closing line break of the
// first item and the text of the second.
// ---------------------------------------------------------------------------

/// Between two adjacent items whose source gap holds `k + 1` newlines (that
/// is, `k` blank source lines), the output holds the first item's text, its
/// closing line break, exactly `k` further newlines, and then the second
/// item's text.
pub proof fn lemma_blank_line_fidelity(
    items: Seq<TopItem>,
    i: int,
    src: Seq<u8>,
    prev_end: int,
    base: int,
    c: Cfg,
    k: int,
)
    requires
        0 <= i,
        i + 1 < items.len(),
        items[i].end_byte < items[i + 1].start_byte,
        newline_count_range(src, items[i].end_byte as int, items[i + 1].start_byte as int) == k
            + 1,
        k >= 0,
    ensures
        doc_items_from(items, i, src, prev_end, base, c) == newlines(
            blanks_between(src, prev_end, items[i].start_byte as int),
        ) + top_item_text(items[i].node, base, c) + seq![NL] + newlines(k) + top_item_text(
            items[i + 1].node,
            base,
            c,
        ) + seq![NL] + doc_items_from(items, i + 2, src, items[i + 1].end_byte as int, base, c),
{
    assert(blanks_between(src, items[i].end_byte as int, items[i + 1].start_byte as int) == k);
    assert(doc_items_from(items, i + 1, src, items[i].end_byte as int, base, c) == newlines(k)
        + top_item_text(items[i + 1].node, base, c) + seq![NL] + doc_items_from(
        items,
        i + 2,
        src,
        items[i + 1].end_byte as int,
        base,
        c,
    ));
    assert(doc_items_from(items, i, src, prev_end, base, c) =~= newlines(
        blanks_between(src, prev_end, items[i].start_byte as int),
    ) + top_item_text(items[i].node, base, c) + seq![NL] + newlines(k) + top_item_text(
        items[i + 1].node,
        base,
        c,
    ) + seq![NL] + doc_items_from(items, i + 2, src, items[i + 1].end_byte as int, base, c));
}

// ---------------------------------------------------------------------------
// Forced block layout: a structure whose name is in the special set is
// never rendered inline, whatever its length.
// ---------------------------------------------------------------------------

/// A special-named structure with fields always takes the block form: name,
/// a comma and line break, then one indented field per line.
pub proof fn lemma_special_name_forces_block(s: Structure, ind: int, c: Cfg)
    requires
        spec_is_special(s.name@),
        s.fields@.len() > 0,
    ensures
        !fits(s, ind, c),
        blk_structure(s, ind, c) == spaces(ind) + s.name@ + comma_nl() + blk_fields_from(
            s.fields@,
            0,
            sat_add(ind, iw(c)),
            c,
        ) + (if s.has_semicolon {
            seq![SEMI]
        } else {
            Seq::<u8>::empty()
        }),
{
    assert(blk_structure(s, ind, c) =~= spaces(ind) + s.name@ + comma_nl() + blk_fields_from(
        s.fields@,
        0,
        sat_add(ind, iw(c)),
        c,
    ) + (if s.has_semicolon {
        seq![SEMI]
    } else {
        Seq::<u8>::empty()
    }));
}

// ---------------------------------------------------------------------------
// Terminator preservation: a structure parsed with a trailing `;` is
// rendered with a trailing `;`, inline or block.
// ---------------------------------------------------------------------------

pub proof fn lemma_semicolon_preserved(s: Structure, ind: int, c: Cfg)
    requires
        s.has_semicolon,
    ensures
        blk_structure(s, ind, c).len() > 0,
        blk_structure(s, ind, c).last() == SEMI,
{
    if fits(s, ind, c) {
        let il = inl_structure(s, ind, c);
        assert(il.last() == SEMI);
        assert(blk_structure(s, ind, c).last() == SEMI);
    } else {
        assert(blk_structure(s, ind, c).last() == SEMI);
    }
}

/// The last two bytes of a concatenation come from its right part when
/// that part holds at least two bytes.
proof fn lemma_concat_tail2(a: Seq<u8>, b: Seq<u8>)
    requires
        b.len() >= 2,
    ensures
        (a + b).len() >= 2,
        (a + b).last() == b.last(),
        (a + b)[(a + b).len() - 2] == b[b.len() - 2],
{
}

// ---------------------------------------------------------------------------
// Packing: in the block form of an array, every element line ends with a
// comma, the last one included.
// ---------------------------------------------------------------------------

/// The body of a block-form array always ends with a comma and a line
/// break: the last element carries a trailing comma like every other.
pub proof fn lemma_array_block_trailing_comma(
    es: Seq<crate::model::ArrayElem>,
    i: int,
    started: bool,
    cll: int,
    ind2: int,
    c: Cfg,
)
    requires
        0 <= i < es.len(),
    ensures
        arr_items(es, i, started, cll, ind2, c).len() >= 2,
        arr_items(es, i, started, cll, ind2, c).last() == NL,
        arr_items(es, i, started, cll, ind2, c)[arr_items(es, i, started, cll, ind2, c).len()
            - 2] == COMMA,
    decreases es.len() - i,
{
    let e = es[i];
    let o = arr_items(es, i, started, cll, ind2, c);
    if i + 1 < es.len() {
        if elem_has_block(e) || e is Struct {
            lemma_array_block_trailing_comma(es, i + 1, false, 0, ind2, c);
            let rest = arr_items(es, i + 1, false, 0, ind2, c);
            lemma_concat_tail2(o.subrange(0, o.len() - rest.len() as int), rest);
            assert(o.last() == rest.last());
            assert(o[o.len() - 2] == rest[rest.len() - 2]);
        } else {
            let estr = crate::render_spec::inl_elem(e, ind2, c);
            let cll1 = if !started {
                ind2
            } else if cll + 2 + estr.len() > mll(c) {
                ind2
            } else {
                cll + 2
            };
            let ncll = crate::byte_buf::sat_add(cll1, estr.len() as int);
            lemma_array_block_trailing_comma(es, i + 1, true, ncll, ind2, c);
            let rest = arr_items(es, i + 1, true, ncll, ind2, c);
            let lead = if !started {
                spaces(ind2)
            } else if cll + 2 + estr.len() > mll(c) {
                comma_nl() + spaces(ind2)
            } else {
                comma_sp()
            };
            assert(o == lead + estr + rest);
            lemma_concat_tail2(lead + estr, rest);
        }
    } else {
        assert(arr_items(es, i + 1, false, 0, ind2, c) =~= Seq::<u8>::empty());
        if elem_has_block(e) {
            let x = (if started {
                comma_nl()
            } else {
                Seq::<u8>::empty()
            }) + spaces(ind2) + crate::render_spec::arr_elem_block(e, ind2, c);
            assert(o =~= x + comma_nl());
            lemma_concat_tail2(x, comma_nl());
            assert(o.last() == NL);
            assert(o[o.len() - 2] == COMMA);
        } else if e is Struct {
            let estr = crate::render_spec::inl_elem(e, ind2, c);
            let x = (if started {
                comma_nl()
            } else {
                Seq::<u8>::empty()
            }) + spaces(ind2) + (if crate::render_spec::elem_forced_multiline(e) || ind2
                + estr.len() > mll(c) {
                crate::render_spec::arr_elem_block(e, ind2, c)
            } else {
                estr
            });
            assert(o =~= x + comma_nl());
            lemma_concat_tail2(x, comma_nl());
            assert(o.last() == NL);
            assert(o[o.len() - 2] == COMMA);
        } else {
            let estr = crate::render_spec::inl_elem(e, ind2, c);
            let lead = if !started {
                spaces(ind2)
            } else if cll + 2 + estr.len() > mll(c) {
                comma_nl() + spaces(ind2)
            } else {
                comma_sp()
            };
            assert(o =~= (lead + estr) + comma_nl());
            lemma_concat_tail2(lead + estr, comma_nl());
            assert(o.last() == NL);
            assert(o[o.len() - 2] == COMMA);
        }
    }
}


// ---------------------------------------------------------------------------
// Comment hoisting: a trailing comment that would overflow its line is
// emitted as a standalone comment line before its element, and the
// element's own line carries no comment.
// ---------------------------------------------------------------------------

/// In a simple block, a value whose trailing comment would overflow the
/// line is preceded by the comment on a line of its own; the value's line
/// holds only the value (and its comma when it closes the line).
pub proof fn lemma_comment_hoisted(
    v: FieldValue,
    t: Seq<u8>,
    is_last: bool,
    ind2: int,
    c: Cfg,
)
    requires
        !val_has_block(v),
        comment_hoisted(v, Some(t), ind2, c),
    ensures
        val_step_text(v, Some(t), is_last, false, 0, ind2, false, c) == blk_comment(t, ind2, c)
            + seq![NL] + spaces(ind2) + inl_value(v, ind2, c) + (if is_last {
            seq![COMMA, NL]
        } else {
            Seq::<u8>::empty()
        }),
{
    assert(val_step_text(v, Some(t), is_last, false, 0, ind2, false, c) =~= blk_comment(
        t,
        ind2,
        c,
    ) + seq![NL] + spaces(ind2) + inl_value(v, ind2, c) + (if is_last {
        seq![COMMA, NL]
    } else {
        Seq::<u8>::empty()
    }));
}

// ---------------------------------------------------------------------------
// Escape fidelity: `\"` and `\\` unescape to `"` and `\`; any other
// backslash passes through with the backslash preserved and the following
// byte untouched.
// ---------------------------------------------------------------------------

pub proof fn lemma_unescape_quote(s: Seq<u8>, i: int)
    requires
        0 <= i,
        i + 1 < s.len(),
        s[i] == BSLASH,
        s[i + 1] == QUOTE || s[i + 1] == BSLASH,
    ensures
        spec_unescape_from(s, i) == seq![s[i + 1]] + spec_unescape_from(s, i + 2),
{
}

pub proof fn lemma_unescape_unknown_escape(s: Seq<u8>, i: int)
    requires
        0 <= i < s.len(),
        s[i] == BSLASH,
        i + 1 < s.len() ==> (s[i + 1] != QUOTE && s[i + 1] != BSLASH),
    ensures
        spec_unescape_from(s, i) == seq![BSLASH] + spec_unescape_from(s, i + 1),
{
}

// ---------------------------------------------------------------------------
// The output always ends with a newline; when every item renders to
// non-empty text that does not end in a line break itself, it ends with
// exactly one.
// ---------------------------------------------------------------------------

pub proof fn lemma_output_ends_with_newline(doc: Document, src: Seq<u8>, base: int, c: Cfg)
    ensures
        spec_format(doc, src, base, c).len() > 0,
        spec_format(doc, src, base, c).last() == NL,
{
}

/// Every structure and comment of this grammar renders to non-empty text
/// not ending in a line break; this predicate carries that fact.
pub open spec fn item_text_plain(n: TopNode, base: int, c: Cfg) -> bool {
    top_item_text(n, base, c).len() > 0 && top_item_text(n, base, c).last() != NL
}

proof fn lemma_doc_items_tail(items: Seq<TopItem>, i: int, src: Seq<u8>, pe: int, base: int, c: Cfg)
    requires
        0 <= i < items.len(),
        forall|j: int| 0 <= j < items.len() ==> item_text_plain((#[trigger] items[j]).node, base, c),
    ensures
        doc_items_from(items, i, src, pe, base, c).len() >= 2,
        doc_items_from(items, i, src, pe, base, c).last() == NL,
        doc_items_from(items, i, src, pe, base, c)[doc_items_from(
            items,
            i,
            src,
            pe,
            base,
            c,
        ).len() - 2] != NL,
    decreases items.len() - i,
{
    let t = top_item_text(items[i].node, base, c);
    let o = doc_items_from(items, i, src, pe, base, c);
    let a = newlines(blanks_between(src, pe, items[i].start_byte as int)) + t + seq![NL];
    assert(item_text_plain(items[i].node, base, c));
    if i + 1 < items.len() {
        lemma_doc_items_tail(items, i + 1, src, items[i].end_byte as int, base, c);
        let rest = doc_items_from(items, i + 1, src, items[i].end_byte as int, base, c);
        assert(o =~= a + rest);
        lemma_concat_tail2(a, rest);
    } else {
        assert(o =~= a);
        assert(a.len() >= 2);
        assert(a.last() == NL);
        assert(a[a.len() - 2] == t.last());
    }
}

/// When every item's text is non-empty and free of a trailing line break,
/// the whole output ends with exactly one newline, however many trailing
/// newlines the input had.
pub proof fn lemma_single_trailing_newline(doc: Document, src: Seq<u8>, base: int, c: Cfg)
    requires
        doc.items@.len() > 0,
        forall|j: int|
            0 <= j < doc.items@.len() ==> item_text_plain(
                (#[trigger] doc.items@[j]).node,
                base,
                c,
            ),
    ensures
        spec_format(doc, src, base, c).last() == NL,
        spec_format(doc, src, base, c)[spec_format(doc, src, base, c).len() - 2] != NL,
{
    lemma_doc_items_tail(doc.items@, 0, src, 0, base, c);
}

// ---------------------------------------------------------------------------
// Structures render to non-empty text that never ends in a line break: the
// last byte is a closing delimiter, a terminator, or the last byte of a
// leaf token. With that, a document of structures ends with exactly one
// newline without further assumptions about the rendering.
// ---------------------------------------------------------------------------

/// The last byte of a concatenation comes from its non-empty right part.
proof fn lemma_concat_last(a: Seq<u8>, b: Seq<u8>)
    requires
        b.len() >= 1,
    ensures
        (a + b).len() >= 1,
        (a + b).last() == b.last(),
{
}

pub open spec fn leaf_tail_ok(t: Seq<u8>) -> bool {
    t.len() > 0 && t.last() != NL
}

/// The conditions under which a value's rendered text cannot end in a line
/// break: only a bare leaf, or a typed value with a bare payload, ends in a
/// leaf byte at all; everything else closes with its own delimiter.
pub open spec fn value_tail_ok(v: FieldValue) -> bool {
    match v {
        FieldValue::Leaf(ValueLeaf::Plain(t)) => leaf_tail_ok(t@),
        FieldValue::Typed(tv) => match tv.payload {
            TypedPayload::Plain(t) => leaf_tail_ok(t@),
            _ => true,
        },
        _ => true,
    }
}

/// A structure's rendered text ends in its name, its terminator, or its
/// last field's value.
pub open spec fn struct_tail_ok(s: Structure) -> bool {
    leaf_tail_ok(s.name@) && (s.fields@.len() > 0 ==> value_tail_ok(
        s.fields@[s.fields@.len() - 1].value,
    ))
}

proof fn lemma_inl_value_last(v: FieldValue, ind: int, c: Cfg)
    requires
        value_tail_ok(v),
    ensures
        inl_value(v, ind, c).len() > 0,
        inl_value(v, ind, c).last() != NL,
{
    let o = inl_value(v, ind, c);
    match v {
        FieldValue::Block(es) => {
            lemma_concat_last(
                seq![crate::byte_buf::LBRACE] + crate::render_spec::inl_block_items(
                    es@,
                    0,
                    ind,
                    c,
                ),
                seq![crate::byte_buf::RBRACE],
            );
        },
        FieldValue::Arr(es) => {
            lemma_inl_array_last(es@, ind, c);
        },
        FieldValue::Angle(vs) => {
            if vs@.len() > 0 {
                lemma_concat_last(
                    seq![crate::byte_buf::LANGLE] + crate::render_spec::inl_angle_items(
                        vs@,
                        0,
                        ind,
                        c,
                    ),
                    seq![crate::byte_buf::RANGLE],
                );
            }
        },
        FieldValue::Typed(tv) => {
            lemma_inl_typed_last(tv, ind, c);
        },
        FieldValue::Leaf(ValueLeaf::Plain(t)) => {
            lemma_concat_last(Seq::<u8>::empty(), t@);
            assert(o =~= t@);
        },
        FieldValue::Leaf(ValueLeaf::Embedded(s)) => {
            lemma_conv_render_last(s, ind, c);
        },
    }
}

proof fn lemma_inl_array_last(es: Seq<crate::model::ArrayElem>, ind: int, c: Cfg)
    ensures
        crate::render_spec::inl_array(es, ind, c).len() > 0,
        crate::render_spec::inl_array(es, ind, c).last() == crate::byte_buf::RBRACK,
{
    if es.len() > 0 {
        lemma_concat_last(
            seq![crate::byte_buf::LBRACK] + crate::render_spec::inl_elems_from(es, 0, ind, c),
            seq![crate::byte_buf::RBRACK],
        );
    }
}

proof fn lemma_inl_angle_last(vs: Seq<FieldValue>, ind: int, c: Cfg)
    ensures
        crate::render_spec::inl_angle(vs, ind, c).len() > 0,
        crate::render_spec::inl_angle(vs, ind, c).last() == crate::byte_buf::RANGLE,
{
    if vs.len() > 0 {
        lemma_concat_last(
            seq![crate::byte_buf::LANGLE] + crate::render_spec::inl_angle_items(vs, 0, ind, c),
            seq![crate::byte_buf::RANGLE],
        );
    }
}

proof fn lemma_inl_typed_last(tv: crate::model::TypedValue, ind: int, c: Cfg)
    requires
        match tv.payload {
            TypedPayload::Plain(t) => leaf_tail_ok(t@),
            _ => true,
        },
    ensures
        crate::render_spec::inl_typed(tv, ind, c).len() > 0,
        crate::render_spec::inl_typed(tv, ind, c).last() != NL,
{
    let head = seq![crate::byte_buf::LPAREN] + tv.ty_name@ + seq![crate::byte_buf::RPAREN];
    match tv.payload {
        TypedPayload::Arr(es) => {
            lemma_inl_array_last(es@, ind, c);
            lemma_concat_last(head, crate::render_spec::inl_array(es@, ind, c));
        },
        TypedPayload::Angle(vs) => {
            lemma_inl_angle_last(vs@, ind, c);
            lemma_concat_last(head, crate::render_spec::inl_angle(vs@, ind, c));
        },
        TypedPayload::Plain(t) => {
            lemma_concat_last(head, t@);
        },
    }
}

proof fn lemma_conv_render_last(s: Structure, ind: int, c: Cfg)
    ensures
        crate::render_spec::conv_render(s, ind, c).len() > 0,
        crate::render_spec::conv_render(s, ind, c).last() == crate::byte_buf::RBRACK,
{
    let o = crate::render_spec::conv_render(s, ind, c);
    let il = inl_structure(s, 0, c);
    if crate::names::spec_is_embed_name(s.name@) || ind + il.len() + 2 > mll(c) {
        lemma_concat_last(
            seq![crate::byte_buf::LBRACK] + s.name@ + comma_nl() + crate::render_spec::conv_fields(
                s.fields@,
                0,
                sat_add(ind, iw(c)),
                c,
            ) + spaces(ind),
            seq![crate::byte_buf::RBRACK],
        );
        assert(o =~= (seq![crate::byte_buf::LBRACK] + s.name@ + comma_nl()
            + crate::render_spec::conv_fields(s.fields@, 0, sat_add(ind, iw(c)), c) + spaces(ind))
            + seq![crate::byte_buf::RBRACK]);
    } else {
        lemma_concat_last(seq![crate::byte_buf::LBRACK] + il, seq![crate::byte_buf::RBRACK]);
        assert(o =~= (seq![crate::byte_buf::LBRACK] + il) + seq![crate::byte_buf::RBRACK]);
    }
}

proof fn lemma_blk_value_last(v: FieldValue, ind: int, c: Cfg)
    requires
        value_tail_ok(v),
    ensures
        crate::render_spec::blk_value(v, ind, c).len() > 0,
        crate::render_spec::blk_value(v, ind, c).last() != NL,
{
    let o = crate::render_spec::blk_value(v, ind, c);
    match v {
        FieldValue::Block(es) => {
            lemma_concat_last(
                seq![crate::byte_buf::LBRACE, NL] + crate::render_spec::blk_items(
                    es@,
                    0,
                    false,
                    0,
                    sat_add(ind, iw(c)),
                    crate::render_spec::block_complex(es@),
                    c,
                ) + spaces(ind),
                seq![crate::byte_buf::RBRACE],
            );
        },
        FieldValue::Arr(es) => {
            lemma_blk_array_last(es@, ind, c);
        },
        FieldValue::Angle(vs) => {
            if vs@.len() > 0 {
                lemma_concat_last(
                    seq![crate::byte_buf::LANGLE] + crate::render_spec::blk_angle_items(
                        vs@,
                        0,
                        ind,
                        c,
                    ),
                    seq![crate::byte_buf::RANGLE],
                );
            }
        },
        FieldValue::Typed(tv) => {
            let head = seq![crate::byte_buf::LPAREN] + tv.ty_name@ + seq![
                crate::byte_buf::RPAREN,
            ];
            match tv.payload {
                TypedPayload::Arr(es) => {
                    lemma_blk_array_last(es@, ind, c);
                    lemma_concat_last(head, crate::render_spec::blk_array(es@, ind, c));
                },
                TypedPayload::Angle(vs) => {
                    lemma_blk_angle_last(vs@, ind, c);
                    lemma_concat_last(head, crate::render_spec::blk_angle(vs@, ind, c));
                },
                TypedPayload::Plain(t) => {
                    lemma_concat_last(head, t@);
                },
            }
        },
        FieldValue::Leaf(ValueLeaf::Plain(t)) => {
            assert(o =~= t@);
        },
        FieldValue::Leaf(ValueLeaf::Embedded(s)) => {
            lemma_conv_render_last(s, ind, c);
        },
    }
}

proof fn lemma_blk_array_last(es: Seq<crate::model::ArrayElem>, ind: int, c: Cfg)
    ensures
        crate::render_spec::blk_array(es, ind, c).len() > 0,
        crate::render_spec::blk_array(es, ind, c).last() == crate::byte_buf::RBRACK,
{
    let o = crate::render_spec::blk_array(es, ind, c);
    if es.len() == 0 {
    } else {
        let il = crate::render_spec::inl_array(es, ind, c);
        let nested = crate::render_spec::arr_has_block(es);
        let forced = crate::render_spec::arr_forced_multiline(es);
        if !nested && !forced && ind + il.len() <= mll(c)
            && !crate::byte_buf::contains_newline(il) {
            lemma_inl_array_last(es, ind, c);
        } else if es.len() == 1 && (nested || forced) && es[0] is Struct {
            lemma_concat_last(
                seq![crate::byte_buf::LBRACK] + crate::render_spec::arr_struct_multiline(
                    crate::render_spec::arr_elem_struct(es[0]),
                    ind,
                    c,
                ),
                seq![crate::byte_buf::RBRACK],
            );
        } else if es.len() == 1 && es[0] is Struct && ind + crate::render_spec::inl_elem(
            es[0],
            ind,
            c,
        ).len() > mll(c) {
            lemma_concat_last(
                seq![crate::byte_buf::LBRACK] + crate::render_spec::arr_struct_multiline(
                    crate::render_spec::arr_elem_struct(es[0]),
                    ind,
                    c,
                ),
                seq![crate::byte_buf::RBRACK],
            );
        } else {
            lemma_concat_last(
                seq![crate::byte_buf::LBRACK, NL] + arr_items(
                    es,
                    0,
                    false,
                    0,
                    sat_add(ind, iw(c)),
                    c,
                ) + spaces(ind),
                seq![crate::byte_buf::RBRACK],
            );
        }
    }
}

proof fn lemma_blk_angle_last(vs: Seq<FieldValue>, ind: int, c: Cfg)
    ensures
        crate::render_spec::blk_angle(vs, ind, c).len() > 0,
        crate::render_spec::blk_angle(vs, ind, c).last() == crate::byte_buf::RANGLE,
{
    if vs.len() > 0 {
        lemma_concat_last(
            seq![crate::byte_buf::LANGLE] + crate::render_spec::blk_angle_items(vs, 0, ind, c),
            seq![crate::byte_buf::RANGLE],
        );
    }
}

proof fn lemma_inl_fields_last(fs: Seq<crate::model::Field>, i: int, ind: int, c: Cfg)
    requires
        0 <= i < fs.len(),
        value_tail_ok(fs[fs.len() - 1].value),
    ensures
        crate::render_spec::inl_fields_from(fs, i, ind, c).len() > 0,
        crate::render_spec::inl_fields_from(fs, i, ind, c).last() != NL,
    decreases fs.len() - i,
{
    let o = crate::render_spec::inl_fields_from(fs, i, ind, c);
    let sep: Seq<u8> = if i > 0 {
        comma_sp()
    } else {
        Seq::<u8>::empty()
    };
    if i + 1 < fs.len() {
        lemma_inl_fields_last(fs, i + 1, ind, c);
        lemma_concat_last(
            sep + crate::render_spec::inl_field(fs[i], ind, c),
            crate::render_spec::inl_fields_from(fs, i + 1, ind, c),
        );
    } else {
        lemma_inl_value_last(fs[i].value, ind, c);
        lemma_concat_last(
            sep + fs[i].name@ + seq![crate::byte_buf::EQS],
            inl_value(fs[i].value, ind, c),
        );
        assert(crate::render_spec::inl_fields_from(fs, i + 1, ind, c) =~= Seq::<u8>::empty());
        assert(o =~= sep + crate::render_spec::inl_field(fs[i], ind, c));
        assert(o =~= (sep + fs[i].name@ + seq![crate::byte_buf::EQS]) + inl_value(
            fs[i].value,
            ind,
            c,
        ));
    }
}

proof fn lemma_blk_fields_last(fs: Seq<crate::model::Field>, i: int, ind: int, c: Cfg)
    requires
        0 <= i < fs.len(),
        value_tail_ok(fs[fs.len() - 1].value),
    ensures
        crate::render_spec::blk_fields_from(fs, i, ind, c).len() > 0,
        crate::render_spec::blk_fields_from(fs, i, ind, c).last() != NL,
    decreases fs.len() - i,
{
    let o = crate::render_spec::blk_fields_from(fs, i, ind, c);
    let sep: Seq<u8> = if i > 0 {
        comma_nl()
    } else {
        Seq::<u8>::empty()
    };
    if i + 1 < fs.len() {
        lemma_blk_fields_last(fs, i + 1, ind, c);
        lemma_concat_last(
            sep + crate::render_spec::blk_field(fs[i], ind, c),
            crate::render_spec::blk_fields_from(fs, i + 1, ind, c),
        );
    } else {
        lemma_blk_value_last(fs[i].value, ind, c);
        lemma_concat_last(
            sep + spaces(ind) + fs[i].name@ + seq![crate::byte_buf::EQS],
            crate::render_spec::blk_value(fs[i].value, ind, c),
        );
        assert(crate::render_spec::blk_fields_from(fs, i + 1, ind, c) =~= Seq::<u8>::empty());
        assert(o =~= sep + crate::render_spec::blk_field(fs[i], ind, c));
        assert(o =~= (sep + spaces(ind) + fs[i].name@ + seq![crate::byte_buf::EQS])
            + crate::render_spec::blk_value(fs[i].value, ind, c));
    }
}

proof fn lemma_inl_structure_last(s: Structure, ind: int, c: Cfg)
    requires
        struct_tail_ok(s),
    ensures
        inl_structure(s, ind, c).len() > 0,
        inl_structure(s, ind, c).last() != NL,
{
    let o = inl_structure(s, ind, c);
    if s.has_semicolon {
        lemma_concat_last(
            s.name@ + (if s.fields@.len() > 0 {
                comma_sp() + crate::render_spec::inl_fields_from(s.fields@, 0, ind, c)
            } else {
                Seq::<u8>::empty()
            }),
            seq![crate::byte_buf::SEMI],
        );
    } else if s.fields@.len() > 0 {
        lemma_inl_fields_last(s.fields@, 0, ind, c);
        lemma_concat_last(
            s.name@ + comma_sp(),
            crate::render_spec::inl_fields_from(s.fields@, 0, ind, c),
        );
        assert(o =~= (s.name@ + comma_sp()) + crate::render_spec::inl_fields_from(
            s.fields@,
            0,
            ind,
            c,
        ));
    } else {
        assert(o =~= s.name@);
    }
}

/// A structure's rendered text is never empty and never ends in a line
/// break, inline or block.
pub proof fn lemma_blk_structure_last(s: Structure, ind: int, c: Cfg)
    requires
        struct_tail_ok(s),
    ensures
        blk_structure(s, ind, c).len() > 0,
        blk_structure(s, ind, c).last() != NL,
{
    let o = blk_structure(s, ind, c);
    if fits(s, ind, c) {
        lemma_inl_structure_last(s, ind, c);
        lemma_concat_last(spaces(ind), inl_structure(s, ind, c));
    } else if s.has_semicolon {
        lemma_concat_last(
            spaces(ind) + s.name@ + (if s.fields@.len() > 0 {
                comma_nl() + crate::render_spec::blk_fields_from(
                    s.fields@,
                    0,
                    sat_add(ind, iw(c)),
                    c,
                )
            } else {
                Seq::<u8>::empty()
            }),
            seq![crate::byte_buf::SEMI],
        );
    } else if s.fields@.len() > 0 {
        lemma_blk_fields_last(s.fields@, 0, sat_add(ind, iw(c)), c);
        lemma_concat_last(
            spaces(ind) + s.name@ + comma_nl(),
            crate::render_spec::blk_fields_from(s.fields@, 0, sat_add(ind, iw(c)), c),
        );
        assert(o =~= (spaces(ind) + s.name@ + comma_nl())
            + crate::render_spec::blk_fields_from(s.fields@, 0, sat_add(ind, iw(c)), c));
    } else {
        lemma_concat_last(spaces(ind), s.name@);
        assert(o =~= spaces(ind) + s.name@);
    }
}

/// A comment that fits its line renders verbatim behind its indent: its
/// text is non-empty and free of a trailing line break whenever the
/// comment's own text is.
pub proof fn lemma_comment_text_plain(t: Seq<u8>, ind: int, c: Cfg)
    requires
        leaf_tail_ok(t),
        0 <= ind,
        ind + t.len() <= mll(c),
    ensures
        blk_comment(t, ind, c).len() > 0,
        blk_comment(t, ind, c).last() != NL,
{
    lemma_concat_last(spaces(ind), t);
}

/// A document of structures with well-formed tails ends with exactly one
/// newline, however many trailing newlines the input had.
pub proof fn lemma_structures_single_trailing_newline(
    doc: Document,
    src: Seq<u8>,
    base: int,
    c: Cfg,
)
    requires
        doc.items@.len() > 0,
        forall|j: int|
            0 <= j < doc.items@.len() ==> ((#[trigger] doc.items@[j]).node matches
                TopNode::Struct(s) && struct_tail_ok(s)),
    ensures
        spec_format(doc, src, base, c).last() == NL,
        spec_format(doc, src, base, c)[spec_format(doc, src, base, c).len() - 2] != NL,
{
    assert forall|j: int| 0 <= j < doc.items@.len() implies item_text_plain(
        (#[trigger] doc.items@[j]).node,
        base,
        c,
    ) by {
        match doc.items@[j].node {
            TopNode::Struct(s) => {
                lemma_blk_structure_last(s, base, c);
            },
            TopNode::Comment(_) => {
            },
        }
    }
    lemma_single_trailing_newline(doc, src, base, c);
}

} // verus!
