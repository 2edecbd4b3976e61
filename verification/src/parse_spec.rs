//! The parser's specification: a mathematical mirror of the syntax tree
//! (sequences in place of vectors) and a pure parse function over the source
//! bytes that fixes, for every input, either the exact tree or the exact
//! position of the first offending byte. Every executable parse function is
//! proved to return precisely what these functions say.
//!
//! Positions advance by scanner lengths (`nat`s), so termination is plain
//! arithmetic; where a position flows through a nested parse result, an
//! explicit progress guard keeps the recursion measured (the executable
//! parser always advances, so the guard's failure arm is never taken).
use vstd::prelude::*;

use crate::byte_buf::{
    newline_count_range, BSLASH, COMMA, EQS, HASH, LANGLE, LBRACE, LBRACK, LPAREN, NL, QUOTE,
    RANGLE, RBRACE, RBRACK, RPAREN, SEMI,
};
use crate::escape::spec_unescape;
use crate::model::{
    ArrayElem, BlockEntry, BlockItem, Document, Field, FieldValue, ParseError, Structure,
    TopItem, TopNode, TypedPayload, TypedValue, ValueLeaf,
};
use crate::names::spec_has_embed_prefix;
use crate::render_spec::is_ws;

verus! {

// ---------------------------------------------------------------------------
// The mathematical tree.
// ---------------------------------------------------------------------------

pub struct DocV {
    pub items: Seq<ItemV>,
}

pub struct ItemV {
    pub start_byte: int,
    pub end_byte: int,
    pub node: NodeV,
}

pub enum NodeV {
    Struct(StructV),
    Comment(Seq<u8>),
}

pub struct StructV {
    pub name: Seq<u8>,
    pub fields: Seq<FieldV>,
    pub has_semicolon: bool,
}

pub struct FieldV {
    pub name: Seq<u8>,
    pub value: ValueV,
}

pub enum ValueV {
    Block(Seq<EntryV>),
    Arr(Seq<ElemV>),
    Angle(Seq<ValueV>),
    Typed(TypedV),
    Plain(Seq<u8>),
    Embedded(StructV),
}

pub struct EntryV {
    pub start_row: int,
    pub end_row: int,
    pub item: BlockItemV,
}

pub enum BlockItemV {
    Struct(StructV),
    Val(ValueV),
    Comment(Seq<u8>),
}

pub enum ElemV {
    Struct(StructV),
    Typed(TypedV),
    Plain(Seq<u8>),
}

pub struct TypedV {
    pub ty_name: Seq<u8>,
    pub payload: PayloadV,
}

pub enum PayloadV {
    Arr(Seq<ElemV>),
    Angle(Seq<ValueV>),
    Plain(Seq<u8>),
}

pub open spec fn nodev_struct(n: NodeV) -> StructV {
    match n {
        NodeV::Struct(sv) => sv,
        _ => vstd::pervasive::arbitrary(),
    }
}

// ---------------------------------------------------------------------------
// Views: the mathematical tree of an executable tree.
// ---------------------------------------------------------------------------

pub open spec fn view_struct(s: Structure) -> StructV
    decreases s, 0int, 1int,
{
    StructV { name: s.name@, fields: view_fields(s.fields@), has_semicolon: s.has_semicolon }
}

pub open spec fn view_fields_from(fs: Seq<Field>, i: int) -> Seq<FieldV>
    decreases fs, fs.len() - i, 0int,
{
    if i < 0 || i >= fs.len() {
        Seq::<FieldV>::empty()
    } else {
        seq![view_field(fs[i])] + view_fields_from(fs, i + 1)
    }
}

pub open spec fn view_fields(fs: Seq<Field>) -> Seq<FieldV>
    decreases fs, fs.len() + 1, 0int,
{
    view_fields_from(fs, 0)
}

pub open spec fn view_field(f: Field) -> FieldV
    decreases f, 0int, 1int,
{
    FieldV { name: f.name@, value: view_value(f.value) }
}

pub open spec fn view_value(v: FieldValue) -> ValueV
    decreases v, 0int, 1int,
{
    match v {
        FieldValue::Block(es) => ValueV::Block(view_entries(es@)),
        FieldValue::Arr(es) => ValueV::Arr(view_elems(es@)),
        FieldValue::Angle(vs) => ValueV::Angle(view_values(vs@)),
        FieldValue::Typed(tv) => ValueV::Typed(view_typed(tv)),
        FieldValue::Leaf(ValueLeaf::Plain(t)) => ValueV::Plain(t@),
        FieldValue::Leaf(ValueLeaf::Embedded(s)) => ValueV::Embedded(view_struct(s)),
    }
}

pub open spec fn view_values_from(vs: Seq<FieldValue>, i: int) -> Seq<ValueV>
    decreases vs, vs.len() - i, 0int,
{
    if i < 0 || i >= vs.len() {
        Seq::<ValueV>::empty()
    } else {
        seq![view_value(vs[i])] + view_values_from(vs, i + 1)
    }
}

pub open spec fn view_values(vs: Seq<FieldValue>) -> Seq<ValueV>
    decreases vs, vs.len() + 1, 0int,
{
    view_values_from(vs, 0)
}

pub open spec fn view_entries_from(es: Seq<BlockEntry>, i: int) -> Seq<EntryV>
    decreases es, es.len() - i, 0int,
{
    if i < 0 || i >= es.len() {
        Seq::<EntryV>::empty()
    } else {
        seq![view_entry(es[i])] + view_entries_from(es, i + 1)
    }
}

pub open spec fn view_entries(es: Seq<BlockEntry>) -> Seq<EntryV>
    decreases es, es.len() + 1, 0int,
{
    view_entries_from(es, 0)
}

pub open spec fn view_entry(e: BlockEntry) -> EntryV
    decreases e, 0int, 1int,
{
    EntryV {
        start_row: e.start_row as int,
        end_row: e.end_row as int,
        item: view_block_item(e.item),
    }
}

pub open spec fn view_block_item(it: BlockItem) -> BlockItemV
    decreases it, 0int, 1int,
{
    match it {
        BlockItem::Struct(s) => BlockItemV::Struct(view_struct(s)),
        BlockItem::Val(v) => BlockItemV::Val(view_value(v)),
        BlockItem::Comment(t) => BlockItemV::Comment(t@),
    }
}

pub open spec fn view_elems_from(es: Seq<ArrayElem>, i: int) -> Seq<ElemV>
    decreases es, es.len() - i, 0int,
{
    if i < 0 || i >= es.len() {
        Seq::<ElemV>::empty()
    } else {
        seq![view_elem(es[i])] + view_elems_from(es, i + 1)
    }
}

pub open spec fn view_elems(es: Seq<ArrayElem>) -> Seq<ElemV>
    decreases es, es.len() + 1, 0int,
{
    view_elems_from(es, 0)
}

pub open spec fn view_elem(e: ArrayElem) -> ElemV
    decreases e, 0int, 1int,
{
    match e {
        ArrayElem::Struct(s) => ElemV::Struct(view_struct(s)),
        ArrayElem::Typed(tv) => ElemV::Typed(view_typed(tv)),
        ArrayElem::Plain(t) => ElemV::Plain(t@),
    }
}

pub open spec fn view_typed(tv: TypedValue) -> TypedV
    decreases tv, 0int, 1int,
{
    TypedV {
        ty_name: tv.ty_name@,
        payload: match tv.payload {
            TypedPayload::Arr(es) => PayloadV::Arr(view_elems(es@)),
            TypedPayload::Angle(vs) => PayloadV::Angle(view_values(vs@)),
            TypedPayload::Plain(t) => PayloadV::Plain(t@),
        },
    }
}

pub open spec fn view_node(n: TopNode) -> NodeV
    decreases n, 0int, 1int,
{
    match n {
        TopNode::Struct(s) => NodeV::Struct(view_struct(s)),
        TopNode::Comment(t) => NodeV::Comment(t@),
    }
}

pub open spec fn view_item(it: TopItem) -> ItemV
    decreases it, 0int, 1int,
{
    ItemV {
        start_byte: it.start_byte as int,
        end_byte: it.end_byte as int,
        node: view_node(it.node),
    }
}

pub open spec fn view_items_from(items: Seq<TopItem>, i: int) -> Seq<ItemV>
    decreases items, items.len() - i, 0int,
{
    if i < 0 || i >= items.len() {
        Seq::<ItemV>::empty()
    } else {
        seq![view_item(items[i])] + view_items_from(items, i + 1)
    }
}

pub open spec fn view_items(items: Seq<TopItem>) -> Seq<ItemV>
    decreases items, items.len() + 1, 0int,
{
    view_items_from(items, 0)
}

pub open spec fn view_doc(d: Document) -> DocV
    decreases d, 0int, 1int,
{
    DocV { items: view_items(d.items@) }
}

// ---------------------------------------------------------------------------
// Scanners.
// ---------------------------------------------------------------------------

/// Whether a byte can stand in a bare token (a name or an unquoted value).
pub open spec fn is_token_byte(b: u8) -> bool {
    !(b == COMMA || b == SEMI || b == EQS || b == LBRACE || b == RBRACE || b == LBRACK
        || b == RBRACK || b == LANGLE || b == RANGLE || b == QUOTE || b == HASH || b == LPAREN
        || b == RPAREN || is_ws(b))
}

/// Length of the whitespace run starting at `p`.
pub open spec fn sp_ws_len(s: Seq<u8>, p: int) -> nat
    decreases s.len() - p,
{
    if 0 <= p < s.len() && is_ws(s[p]) {
        1 + sp_ws_len(s, p + 1)
    } else {
        0
    }
}

pub open spec fn sp_skip(s: Seq<u8>, p: int) -> int {
    p + sp_ws_len(s, p)
}

/// Length of the bare token starting at `p`.
pub open spec fn sp_token_len(s: Seq<u8>, p: int) -> nat
    decreases s.len() - p,
{
    if 0 <= p < s.len() && is_token_byte(s[p]) {
        1 + sp_token_len(s, p + 1)
    } else {
        0
    }
}

/// Length of the comment starting at `p`: up to the next line break.
pub open spec fn sp_comment_len(s: Seq<u8>, p: int) -> nat
    decreases s.len() - p,
{
    if 0 <= p < s.len() && s[p] != NL {
        1 + sp_comment_len(s, p + 1)
    } else {
        0
    }
}

/// End of a quoted literal whose opening quote stands just before `i`:
/// the position after the closing quote, or nothing when the literal is
/// unterminated. A backslash skips the byte after it.
pub open spec fn sp_quoted_end(s: Seq<u8>, i: int) -> Option<int>
    decreases s.len() - i,
{
    if i < 0 || i >= s.len() {
        None
    } else if s[i] == QUOTE {
        Some(i + 1)
    } else if s[i] == BSLASH {
        if i + 1 < s.len() {
            sp_quoted_end(s, i + 2)
        } else {
            None
        }
    } else {
        sp_quoted_end(s, i + 1)
    }
}

/// Start of the line holding position `p`: one past the last line break
/// before it.
pub open spec fn sp_line_start(s: Seq<u8>, p: int) -> int
    decreases p,
{
    if p <= 0 {
        0
    } else if 0 <= p - 1 < s.len() && s[p - 1] == NL {
        p
    } else {
        sp_line_start(s, p - 1)
    }
}

pub open spec fn add1_clamp(x: int) -> usize {
    if x < usize::MAX {
        (x + 1) as usize
    } else {
        usize::MAX
    }
}

/// The syntax error for the byte at `p`: its 1-based line and column.
pub open spec fn spec_err(s: Seq<u8>, p: int) -> ParseError {
    ParseError {
        line: add1_clamp(newline_count_range(s, 0, p)),
        column: add1_clamp(p - sp_line_start(s, p)),
    }
}

/// Whether a field (`name=`) starts at `p`.
pub open spec fn sp_field_starts(s: Seq<u8>, p: int) -> bool {
    sp_token_len(s, p) > 0 && {
        let q = sp_skip(s, p + sp_token_len(s, p));
        0 <= q < s.len() && s[q] == EQS
    }
}

/// Whether a structure (`name,` then a field) starts at `p`.
pub open spec fn sp_struct_starts(s: Seq<u8>, p: int) -> bool {
    sp_token_len(s, p) > 0 && {
        let q = sp_skip(s, p + sp_token_len(s, p));
        0 <= q < s.len() && s[q] == COMMA && sp_field_starts(s, sp_skip(s, q + 1))
    }
}

/// The termination measure at position `p`: the bytes left, clamped at the
/// end of the input.
pub open spec fn pm(s: Seq<u8>, p: int) -> int {
    if p > s.len() {
        0
    } else {
        s.len() - p
    }
}

// ---------------------------------------------------------------------------
// The parse functions. Each mirrors its executable counterpart branch for
// branch; `Err` carries the offending byte position.
// ---------------------------------------------------------------------------

/// Parse a whole source text.
pub open spec fn sp_document(s: Seq<u8>) -> Result<DocV, int>
    decreases s.len(), s.len() + 1, 0int,
{
    match sp_doc_items(s, 0) {
        Ok(items) => Ok(DocV { items }),
        Err(x) => Err(x),
    }
}

/// Parse the top-level items from `p` on.
pub open spec fn sp_doc_items(s: Seq<u8>, p: int) -> Result<Seq<ItemV>, int>
    decreases s.len(), pm(s, p), 9int,
{
    if p < 0 {
        Err(0)
    } else {
    let q = sp_skip(s, p);
    if q >= s.len() {
        Ok(Seq::<ItemV>::empty())
    } else {
        let b = s[q];
        if b == HASH {
            let e = q + sp_comment_len(s, q);
            let iv = ItemV { start_byte: q, end_byte: e, node: NodeV::Comment(s.subrange(q, e)) };
            match sp_doc_items(s, e) {
                Ok(rest) => Ok(seq![iv] + rest),
                Err(x) => Err(x),
            }
        } else if b == COMMA {
            sp_doc_items(s, q + 1)
        } else if is_token_byte(b) {
            match sp_structure(s, q) {
                Ok((sv, e)) => {
                    if e <= q {
                        Err(e)
                    } else {
                        let iv = ItemV { start_byte: q, end_byte: e, node: NodeV::Struct(sv) };
                        match sp_doc_items(s, e) {
                            Ok(rest) => Ok(seq![iv] + rest),
                            Err(x) => Err(x),
                        }
                    }
                },
                Err(x) => Err(x),
            }
        } else {
            Err(q)
        }
    }
    }
}

/// Parse a structure: a name, optionally a comma and a field list,
/// optionally a terminating semicolon.
pub open spec fn sp_structure(s: Seq<u8>, p: int) -> Result<(StructV, int), int>
    decreases s.len(), pm(s, p), 8int,
{
    let tl = sp_token_len(s, p);
    if tl == 0 {
        Err(p)
    } else {
        let name = s.subrange(p, p + tl);
        let p1 = p + tl;
        let q = sp_skip(s, p1);
        let fres: Result<(Seq<FieldV>, int), int> = if 0 <= q < s.len() && s[q] == COMMA {
            let q2 = sp_skip(s, q + 1);
            if sp_field_starts(s, q2) {
                sp_fields_from(s, q2)
            } else {
                Ok((Seq::<FieldV>::empty(), p1))
            }
        } else {
            Ok((Seq::<FieldV>::empty(), p1))
        };
        match fres {
            Ok((fields, pe)) => {
                if 0 <= pe < s.len() && s[pe] == SEMI {
                    Ok((StructV { name, fields, has_semicolon: true }, pe + 1))
                } else {
                    Ok((StructV { name, fields, has_semicolon: false }, pe))
                }
            },
            Err(x) => Err(x),
        }
    }
}

/// Parse a comma-separated field list from `p`; a trailing comma not
/// followed by another field is left to the caller.
pub open spec fn sp_fields_from(s: Seq<u8>, p: int) -> Result<(Seq<FieldV>, int), int>
    decreases s.len(), pm(s, p), 7int,
{
    let tl = sp_token_len(s, p);
    if tl == 0 {
        Err(p)
    } else {
        let fname = s.subrange(p, p + tl);
        let p2 = sp_skip(s, p + tl);
        if !(0 <= p2 < s.len() && s[p2] == EQS) {
            Err(p2)
        } else {
            let p3 = sp_skip(s, p2 + 1);
            match sp_field_value(s, p3) {
                Ok((v, p4)) => {
                    if p4 <= p3 {
                        Err(p4)
                    } else {
                        let fv = FieldV { name: fname, value: v };
                        let q = sp_skip(s, p4);
                        if 0 <= q < s.len() && s[q] == COMMA {
                            let q2 = sp_skip(s, q + 1);
                            if sp_field_starts(s, q2) {
                                match sp_fields_from(s, q2) {
                                    Ok((rest, pe)) => Ok((seq![fv] + rest, pe)),
                                    Err(x) => Err(x),
                                }
                            } else {
                                Ok((seq![fv], p4))
                            }
                        } else {
                            Ok((seq![fv], p4))
                        }
                    }
                },
                Err(x) => Err(x),
            }
        }
    }
}

/// Parse one field value, dispatching on its first byte. A quoted literal
/// with a convertible prefix is unescaped and re-parsed; when that yields a
/// document whose first item is a structure, the literal becomes that
/// embedded structure, otherwise it passes through verbatim.
pub open spec fn sp_field_value(s: Seq<u8>, p: int) -> Result<(ValueV, int), int>
    decreases s.len(), pm(s, p), 4int,
{
    if !(0 <= p < s.len()) {
        Err(p)
    } else {
        let b = s[p];
        if b == LBRACE {
            match sp_block(s, p) {
                Ok((es, e)) => Ok((ValueV::Block(es), e)),
                Err(x) => Err(x),
            }
        } else if b == LBRACK {
            match sp_array(s, p) {
                Ok((es, e)) => Ok((ValueV::Arr(es), e)),
                Err(x) => Err(x),
            }
        } else if b == LANGLE {
            match sp_angle(s, p) {
                Ok((vs, e)) => Ok((ValueV::Angle(vs), e)),
                Err(x) => Err(x),
            }
        } else if b == LPAREN {
            match sp_typed(s, p) {
                Ok((tv, e)) => Ok((ValueV::Typed(tv), e)),
                Err(x) => Err(x),
            }
        } else if b == QUOTE {
            match sp_quoted_end(s, p + 1) {
                Some(e) => {
                    let tok = s.subrange(p, e);
                    let inner = s.subrange(p + 1, e - 1);
                    if spec_has_embed_prefix(inner) {
                        let u = spec_unescape(inner);
                        if u.len() < s.len() {
                            match sp_document(u) {
                                Ok(dv) => {
                                    if dv.items.len() > 0 && dv.items[0].node is Struct {
                                        Ok((ValueV::Embedded(nodev_struct(dv.items[0].node)), e))
                                    } else {
                                        Ok((ValueV::Plain(tok), e))
                                    }
                                },
                                Err(_) => Ok((ValueV::Plain(tok), e)),
                            }
                        } else {
                            Ok((ValueV::Plain(tok), e))
                        }
                    } else {
                        Ok((ValueV::Plain(tok), e))
                    }
                },
                None => Err(p),
            }
        } else {
            let tl = sp_token_len(s, p);
            if tl == 0 {
                Err(p)
            } else {
                Ok((ValueV::Plain(s.subrange(p, p + tl)), p + tl))
            }
        }
    }
}

/// Parse a brace-delimited block.
pub open spec fn sp_block(s: Seq<u8>, p: int) -> Result<(Seq<EntryV>, int), int>
    decreases s.len(), pm(s, p), 3int,
{
    if !(0 <= p < s.len() && s[p] == LBRACE) {
        Err(p)
    } else {
        sp_block_items(s, p + 1)
    }
}

/// Parse the entries of a block from `p` to the closing brace.
pub open spec fn sp_block_items(s: Seq<u8>, p: int) -> Result<(Seq<EntryV>, int), int>
    decreases s.len(), pm(s, p), 9int,
{
    if p < 0 {
        Err(0)
    } else {
    let q = sp_skip(s, p);
    if !(q < s.len()) {
        Err(q)
    } else {
        let b = s[q];
        if b == RBRACE {
            Ok((Seq::<EntryV>::empty(), q + 1))
        } else if b == HASH {
            let e = q + sp_comment_len(s, q);
            let row = newline_count_range(s, 0, q);
            let ev = EntryV { start_row: row, end_row: row, item: BlockItemV::Comment(
                s.subrange(q, e),
            ) };
            match sp_block_items(s, e) {
                Ok((rest, pe)) => Ok((seq![ev] + rest, pe)),
                Err(x) => Err(x),
            }
        } else if b == COMMA {
            sp_block_items(s, q + 1)
        } else if is_token_byte(b) && sp_struct_starts(s, q) {
            match sp_structure(s, q) {
                Ok((sv, ep)) => {
                    if ep <= q {
                        Err(ep)
                    } else {
                        let ev = EntryV {
                            start_row: newline_count_range(s, 0, q),
                            end_row: newline_count_range(s, 0, ep),
                            item: BlockItemV::Struct(sv),
                        };
                        match sp_block_items(s, ep) {
                            Ok((rest, pe)) => Ok((seq![ev] + rest, pe)),
                            Err(x) => Err(x),
                        }
                    }
                },
                Err(x) => Err(x),
            }
        } else {
            match sp_field_value(s, q) {
                Ok((v, ep)) => {
                    if ep <= q {
                        Err(ep)
                    } else {
                        let ev = EntryV {
                            start_row: newline_count_range(s, 0, q),
                            end_row: newline_count_range(s, 0, ep),
                            item: BlockItemV::Val(v),
                        };
                        match sp_block_items(s, ep) {
                            Ok((rest, pe)) => Ok((seq![ev] + rest, pe)),
                            Err(x) => Err(x),
                        }
                    }
                },
                Err(x) => Err(x),
            }
        }
    }
    }
}

/// Parse a `[...]` array.
pub open spec fn sp_array(s: Seq<u8>, p: int) -> Result<(Seq<ElemV>, int), int>
    decreases s.len(), pm(s, p), 3int,
{
    if !(0 <= p < s.len() && s[p] == LBRACK) {
        Err(p)
    } else {
        sp_array_items(s, p + 1)
    }
}

/// Parse the elements of an array from `p` to the closing bracket.
pub open spec fn sp_array_items(s: Seq<u8>, p: int) -> Result<(Seq<ElemV>, int), int>
    decreases s.len(), pm(s, p), 9int,
{
    let q = sp_skip(s, p);
    if !(q < s.len()) {
        Err(q)
    } else {
        let b = s[q];
        if b == RBRACK {
            Ok((Seq::<ElemV>::empty(), q + 1))
        } else if b == COMMA {
            sp_array_items(s, q + 1)
        } else if b == LPAREN {
            match sp_typed(s, q) {
                Ok((tv, ep)) => {
                    if ep <= q {
                        Err(ep)
                    } else {
                        match sp_array_items(s, ep) {
                            Ok((rest, pe)) => Ok((seq![ElemV::Typed(tv)] + rest, pe)),
                            Err(x) => Err(x),
                        }
                    }
                },
                Err(x) => Err(x),
            }
        } else if b == QUOTE {
            match sp_quoted_end(s, q + 1) {
                Some(e) => {
                    if e <= q {
                        Err(q)
                    } else {
                        match sp_array_items(s, e) {
                            Ok((rest, pe)) => Ok(
                                (seq![ElemV::Plain(s.subrange(q, e))] + rest, pe),
                            ),
                            Err(x) => Err(x),
                        }
                    }
                },
                None => Err(q),
            }
        } else if is_token_byte(b) {
            if sp_struct_starts(s, q) {
                match sp_structure(s, q) {
                    Ok((sv, ep)) => {
                        if ep <= q {
                            Err(ep)
                        } else {
                            match sp_array_items(s, ep) {
                                Ok((rest, pe)) => Ok((seq![ElemV::Struct(sv)] + rest, pe)),
                                Err(x) => Err(x),
                            }
                        }
                    },
                    Err(x) => Err(x),
                }
            } else {
                let tl = sp_token_len(s, q);
                if tl == 0 {
                    Err(q)
                } else {
                    match sp_array_items(s, q + tl) {
                        Ok((rest, pe)) => Ok(
                            (seq![ElemV::Plain(s.subrange(q, q + tl))] + rest, pe),
                        ),
                        Err(x) => Err(x),
                    }
                }
            }
        } else {
            Err(q)
        }
    }
}

/// Parse a `<...>` array.
pub open spec fn sp_angle(s: Seq<u8>, p: int) -> Result<(Seq<ValueV>, int), int>
    decreases s.len(), pm(s, p), 3int,
{
    if !(0 <= p < s.len() && s[p] == LANGLE) {
        Err(p)
    } else {
        sp_angle_items(s, p + 1)
    }
}

/// Parse the field values of an angle-bracket array from `p` to the closing
/// bracket.
pub open spec fn sp_angle_items(s: Seq<u8>, p: int) -> Result<(Seq<ValueV>, int), int>
    decreases s.len(), pm(s, p), 9int,
{
    let q = sp_skip(s, p);
    if !(q < s.len()) {
        Err(q)
    } else {
        let b = s[q];
        if b == RANGLE {
            Ok((Seq::<ValueV>::empty(), q + 1))
        } else if b == COMMA {
            sp_angle_items(s, q + 1)
        } else {
            match sp_field_value(s, q) {
                Ok((v, ep)) => {
                    if ep <= q {
                        Err(ep)
                    } else {
                        match sp_angle_items(s, ep) {
                            Ok((rest, pe)) => Ok((seq![v] + rest, pe)),
                            Err(x) => Err(x),
                        }
                    }
                },
                Err(x) => Err(x),
            }
        }
    }
}

/// Parse a `(type)value` pair.
pub open spec fn sp_typed(s: Seq<u8>, p: int) -> Result<(TypedV, int), int>
    decreases s.len(), pm(s, p), 3int,
{
    if !(0 <= p < s.len() && s[p] == LPAREN) {
        Err(p)
    } else {
        let p1 = sp_skip(s, p + 1);
        let tl = sp_token_len(s, p1);
        if tl == 0 {
            Err(p1)
        } else {
            let ty_name = s.subrange(p1, p1 + tl);
            let p3 = sp_skip(s, p1 + tl);
            if !(0 <= p3 < s.len() && s[p3] == RPAREN) {
                Err(p3)
            } else {
                let p4 = sp_skip(s, p3 + 1);
                if !(p4 < s.len()) {
                    Err(p4)
                } else {
                    let b = s[p4];
                    if b == LBRACK {
                        match sp_array(s, p4) {
                            Ok((es, e)) => Ok((TypedV { ty_name, payload: PayloadV::Arr(es) }, e)),
                            Err(x) => Err(x),
                        }
                    } else if b == LANGLE {
                        match sp_angle(s, p4) {
                            Ok((vs, e)) => Ok(
                                (TypedV { ty_name, payload: PayloadV::Angle(vs) }, e),
                            ),
                            Err(x) => Err(x),
                        }
                    } else if b == QUOTE {
                        match sp_quoted_end(s, p4 + 1) {
                            Some(e) => Ok(
                                (TypedV { ty_name, payload: PayloadV::Plain(s.subrange(p4, e)) },
                                e),
                            ),
                            None => Err(p4),
                        }
                    } else {
                        let tl2 = sp_token_len(s, p4);
                        if tl2 == 0 {
                            Err(p4)
                        } else {
                            Ok(
                                (TypedV {
                                    ty_name,
                                    payload: PayloadV::Plain(s.subrange(p4, p4 + tl2)),
                                }, p4 + tl2),
                            )
                        }
                    }
                }
            }
        }
    }
}

// ---------------------------------------------------------------------------
// Pointwise characterisation of the list views, and the prefix helpers the
// executable parser's loop invariants use.
// ---------------------------------------------------------------------------

pub proof fn lemma_view_fields_from_index(fs: Seq<Field>, i: int)
    requires
        0 <= i <= fs.len(),
    ensures
        view_fields_from(fs, i).len() == fs.len() - i,
        forall|j: int|
            0 <= j < fs.len() - i ==> view_fields_from(fs, i)[j] == view_field(fs[i + j]),
    decreases fs.len() - i,
{
    if i < fs.len() {
        lemma_view_fields_from_index(fs, i + 1);
    }
}

pub proof fn lemma_view_fields_index(fs: Seq<Field>)
    ensures
        view_fields(fs).len() == fs.len(),
        forall|j: int| 0 <= j < fs.len() ==> view_fields(fs)[j] == view_field(fs[j]),
{
    lemma_view_fields_from_index(fs, 0);
}

pub proof fn lemma_view_entries_from_index(es: Seq<BlockEntry>, i: int)
    requires
        0 <= i <= es.len(),
    ensures
        view_entries_from(es, i).len() == es.len() - i,
        forall|j: int|
            0 <= j < es.len() - i ==> view_entries_from(es, i)[j] == view_entry(es[i + j]),
    decreases es.len() - i,
{
    if i < es.len() {
        lemma_view_entries_from_index(es, i + 1);
    }
}

pub proof fn lemma_view_entries_index(es: Seq<BlockEntry>)
    ensures
        view_entries(es).len() == es.len(),
        forall|j: int| 0 <= j < es.len() ==> view_entries(es)[j] == view_entry(es[j]),
{
    lemma_view_entries_from_index(es, 0);
}

pub proof fn lemma_view_elems_from_index(es: Seq<ArrayElem>, i: int)
    requires
        0 <= i <= es.len(),
    ensures
        view_elems_from(es, i).len() == es.len() - i,
        forall|j: int|
            0 <= j < es.len() - i ==> view_elems_from(es, i)[j] == view_elem(es[i + j]),
    decreases es.len() - i,
{
    if i < es.len() {
        lemma_view_elems_from_index(es, i + 1);
    }
}

pub proof fn lemma_view_elems_index(es: Seq<ArrayElem>)
    ensures
        view_elems(es).len() == es.len(),
        forall|j: int| 0 <= j < es.len() ==> view_elems(es)[j] == view_elem(es[j]),
{
    lemma_view_elems_from_index(es, 0);
}

pub proof fn lemma_view_values_from_index(vs: Seq<FieldValue>, i: int)
    requires
        0 <= i <= vs.len(),
    ensures
        view_values_from(vs, i).len() == vs.len() - i,
        forall|j: int|
            0 <= j < vs.len() - i ==> view_values_from(vs, i)[j] == view_value(vs[i + j]),
    decreases vs.len() - i,
{
    if i < vs.len() {
        lemma_view_values_from_index(vs, i + 1);
    }
}

pub proof fn lemma_view_values_index(vs: Seq<FieldValue>)
    ensures
        view_values(vs).len() == vs.len(),
        forall|j: int| 0 <= j < vs.len() ==> view_values(vs)[j] == view_value(vs[j]),
{
    lemma_view_values_from_index(vs, 0);
}

pub proof fn lemma_view_items_from_index(items: Seq<TopItem>, i: int)
    requires
        0 <= i <= items.len(),
    ensures
        view_items_from(items, i).len() == items.len() - i,
        forall|j: int|
            0 <= j < items.len() - i ==> view_items_from(items, i)[j] == view_item(items[i + j]),
    decreases items.len() - i,
{
    if i < items.len() {
        lemma_view_items_from_index(items, i + 1);
    }
}

pub proof fn lemma_view_items_index(items: Seq<TopItem>)
    ensures
        view_items(items).len() == items.len(),
        forall|j: int| 0 <= j < items.len() ==> view_items(items)[j] == view_item(items[j]),
{
    lemma_view_items_from_index(items, 0);
}

/// Prefix a parsed-so-far field sequence onto the result of parsing the
/// rest.
pub open spec fn prepend_fields(
    pre: Seq<FieldV>,
    r: Result<(Seq<FieldV>, int), int>,
) -> Result<(Seq<FieldV>, int), int> {
    match r {
        Ok((rest, pe)) => Ok((pre + rest, pe)),
        Err(x) => Err(x),
    }
}

pub open spec fn prepend_entries(
    pre: Seq<EntryV>,
    r: Result<(Seq<EntryV>, int), int>,
) -> Result<(Seq<EntryV>, int), int> {
    match r {
        Ok((rest, pe)) => Ok((pre + rest, pe)),
        Err(x) => Err(x),
    }
}

pub open spec fn prepend_elems(
    pre: Seq<ElemV>,
    r: Result<(Seq<ElemV>, int), int>,
) -> Result<(Seq<ElemV>, int), int> {
    match r {
        Ok((rest, pe)) => Ok((pre + rest, pe)),
        Err(x) => Err(x),
    }
}

pub open spec fn prepend_values(
    pre: Seq<ValueV>,
    r: Result<(Seq<ValueV>, int), int>,
) -> Result<(Seq<ValueV>, int), int> {
    match r {
        Ok((rest, pe)) => Ok((pre + rest, pe)),
        Err(x) => Err(x),
    }
}

pub open spec fn prepend_items(pre: Seq<ItemV>, r: Result<Seq<ItemV>, int>) -> Result<
    Seq<ItemV>,
    int,
> {
    match r {
        Ok(rest) => Ok(pre + rest),
        Err(x) => Err(x),
    }
}

} // verus!
