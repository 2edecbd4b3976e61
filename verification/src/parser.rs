//! A recursive-descent parser for the structure grammar: top-level
//! structures and comments; fields `name=value`; values that are nested
//! blocks, arrays, angle-bracket arrays, typed values, quoted literals or
//! bare tokens. A quoted literal whose content starts with a convertible
//! structure name is unescaped and re-parsed, and the recovered structure is
//! kept in the tree for the formatter to splice back in as array syntax.
//!
//! Every function here is proved to return exactly what the corresponding
//! `parse_spec` function says: the parsed tree's mathematical view on
//! success, or the 1-based line and column of the offending byte the
//! specification names on failure.
use vstd::prelude::*;

use crate::byte_buf::{
    copy_range, newline_count_range, BSLASH, COMMA, EQS, HASH, LANGLE, LBRACE, LBRACK, LPAREN,
    NL, QUOTE, RANGLE, RBRACE, RBRACK, RPAREN, SEMI,
};
use crate::comment::byte_is_ws;
use crate::escape::{lemma_unescape_len, unescape_bytes};
use crate::model::{
    ArrayElem, BlockEntry, BlockItem, Document, Field, FieldValue, ParseError, Structure,
    TopItem, TopNode, TypedPayload, TypedValue, ValueLeaf, wf_doc,
};
use crate::names::has_embed_prefix;
use crate::parse_spec::{
    is_token_byte, lemma_view_entries_index, lemma_view_fields_index, lemma_view_items_index,
    lemma_view_elems_index, lemma_view_values_index, nodev_struct, prepend_entries,
    prepend_elems, prepend_fields, prepend_items, prepend_values, sp_angle, sp_angle_items,
    sp_array, sp_array_items, sp_block, sp_block_items, sp_comment_len, sp_doc_items,
    sp_document, sp_field_starts, sp_field_value, sp_fields_from, sp_line_start, sp_quoted_end,
    sp_skip, sp_struct_starts, sp_structure, sp_token_len, sp_typed, spec_err, view_doc,
    view_elem, view_elems, view_entries, view_entry, view_field, view_fields, view_item,
    view_items, view_struct, view_typed, view_value, ElemV, EntryV, FieldV, ItemV, StructV,
    TypedV, ValueV,
};

verus! {

/// Whether a byte can stand in a bare token (a name or an unquoted value).
fn token_byte(b: u8) -> (r: bool)
    ensures
        r == is_token_byte(b),
{
    !(b == COMMA || b == SEMI || b == EQS || b == LBRACE || b == RBRACE || b == LBRACK
        || b == RBRACK || b == LANGLE || b == RANGLE || b == QUOTE || b == HASH || b == LPAREN
        || b == RPAREN || b == 32 || b == 9 || b == 10 || b == 13 || b == 11 || b == 12)
}

fn skip_ws(src: &Vec<u8>, pos: usize) -> (r: usize)
    requires
        pos <= src@.len(),
    ensures
        pos <= r <= src@.len(),
        r as int == sp_skip(src@, pos as int),
{
    let mut p = pos;
    while p < src.len() && byte_is_ws(src[p])
        invariant
            pos <= p <= src@.len(),
            sp_skip(src@, pos as int) == sp_skip(src@, p as int),
        decreases src@.len() - p,
    {
        p = p + 1;
    }
    p
}

fn scan_token(src: &Vec<u8>, pos: usize) -> (r: (Vec<u8>, usize))
    requires
        pos <= src@.len(),
    ensures
        pos <= r.1 <= src@.len(),
        r.1 as int == pos + sp_token_len(src@, pos as int),
        r.0@ == src@.subrange(pos as int, r.1 as int),
{
    let mut p = pos;
    let mut tok: Vec<u8> = Vec::new();
    while p < src.len() && token_byte(src[p])
        invariant
            pos <= p <= src@.len(),
            pos + sp_token_len(src@, pos as int) == p + sp_token_len(src@, p as int),
            tok@ == src@.subrange(pos as int, p as int),
        decreases src@.len() - p,
    {
        tok.push(src[p]);
        p = p + 1;
        proof {
            assert(tok@ =~= src@.subrange(pos as int, p as int));
        }
    }
    (tok, p)
}

/// Number of newlines before `pos`: the 0-based row of that position.
fn row_of(src: &Vec<u8>, pos: usize) -> (r: usize)
    requires
        pos <= src@.len(),
    ensures
        r as int == newline_count_range(src@, 0, pos as int),
{
    let mut k: usize = 0;
    let mut row: usize = 0;
    while k < pos
        invariant
            k <= pos <= src@.len(),
            row <= k,
            row + newline_count_range(src@, k as int, pos as int) == newline_count_range(
                src@,
                0,
                pos as int,
            ),
        decreases pos - k,
    {
        if src[k] == NL {
            row = row + 1;
        }
        k = k + 1;
    }
    row
}

/// The syntax error for the byte at `pos`, with 1-based line and column.
fn err_at(src: &Vec<u8>, pos: usize) -> (r: ParseError)
    requires
        pos <= src@.len(),
    ensures
        r == spec_err(src@, pos as int),
        r.line >= 1,
        r.column >= 1,
{
    let mut k: usize = 0;
    let mut row: usize = 0;
    let mut line_start: usize = 0;
    while k < pos
        invariant
            k <= pos <= src@.len(),
            row <= k,
            line_start <= k,
            row + newline_count_range(src@, k as int, pos as int) == newline_count_range(
                src@,
                0,
                pos as int,
            ),
            line_start as int == sp_line_start(src@, k as int),
        decreases pos - k,
    {
        if src[k] == NL {
            row = row + 1;
            line_start = k + 1;
        }
        k = k + 1;
    }
    let line = if row < usize::MAX {
        row + 1
    } else {
        row
    };
    let col0 = pos - line_start;
    let column = if col0 < usize::MAX {
        col0 + 1
    } else {
        col0
    };
    ParseError { line, column }
}

/// Whether a field (`name=`) starts at `pos`.
fn field_starts_at(src: &Vec<u8>, pos: usize) -> (r: bool)
    requires
        pos <= src@.len(),
    ensures
        r == sp_field_starts(src@, pos as int),
{
    let (name, p) = scan_token(src, pos);
    if name.len() == 0 {
        return false;
    }
    let q = skip_ws(src, p);
    q < src.len() && src[q] == EQS
}

/// Whether a structure (`name,` then a field) starts at `pos`.
fn struct_starts_at(src: &Vec<u8>, pos: usize) -> (r: bool)
    requires
        pos <= src@.len(),
    ensures
        r == sp_struct_starts(src@, pos as int),
{
    let (name, p) = scan_token(src, pos);
    if name.len() == 0 {
        return false;
    }
    let q = skip_ws(src, p);
    if q < src.len() && src[q] == COMMA {
        let q2 = skip_ws(src, q + 1);
        field_starts_at(src, q2)
    } else {
        false
    }
}

/// Scan a quoted literal, backslash escapes skipped, quotes kept verbatim.
fn scan_quoted(src: &Vec<u8>, pos: usize) -> (r: Result<(Vec<u8>, usize), ParseError>)
    requires
        pos < src@.len(),
        src@[pos as int] == QUOTE,
    ensures
        r matches Ok(p) ==> pos < p.1 <= src@.len() && p.0@.len() >= 2 && sp_quoted_end(
            src@,
            pos + 1,
        ) == Some(p.1 as int) && p.0@ == src@.subrange(pos as int, p.1 as int),
        r matches Err(e) ==> sp_quoted_end(src@, pos + 1) is None && e == spec_err(
            src@,
            pos as int,
        ) && e.line >= 1 && e.column >= 1,
{
    // Binds the length first: `pos` is below it, so `pos + 1` cannot wrap.
    let n = src.len();
    let mut tok: Vec<u8> = Vec::new();
    tok.push(QUOTE);
    let mut i = pos + 1;
    proof {
        assert(tok@ =~= src@.subrange(pos as int, pos + 1));
    }
    while i < n
        invariant
            n == src@.len(),
            pos < i <= src@.len(),
            sp_quoted_end(src@, pos + 1) == sp_quoted_end(src@, i as int),
            tok@ == src@.subrange(pos as int, i as int),
        decreases src@.len() - i,
    {
        let b = src[i];
        if b == QUOTE {
            tok.push(QUOTE);
            proof {
                assert(tok@ =~= src@.subrange(pos as int, i + 1));
            }
            return Ok((tok, i + 1));
        }
        if b == BSLASH {
            if i + 1 < src.len() {
                tok.push(b);
                tok.push(src[i + 1]);
                i = i + 2;
                proof {
                    assert(tok@ =~= src@.subrange(pos as int, i as int));
                }
            } else {
                return Err(err_at(src, pos));
            }
        } else {
            tok.push(b);
            i = i + 1;
            proof {
                assert(tok@ =~= src@.subrange(pos as int, i as int));
            }
        }
    }
    Err(err_at(src, pos))
}

fn scan_comment(src: &Vec<u8>, pos: usize) -> (r: (Vec<u8>, usize))
    requires
        pos < src@.len(),
        src@[pos as int] != NL,
    ensures
        pos < r.1 <= src@.len(),
        r.1 as int == pos + sp_comment_len(src@, pos as int),
        r.0@ == src@.subrange(pos as int, r.1 as int),
{
    let mut tok: Vec<u8> = Vec::new();
    let mut p = pos;
    while p < src.len() && src[p] != NL
        invariant
            pos <= p <= src@.len(),
            pos + sp_comment_len(src@, pos as int) == p + sp_comment_len(src@, p as int),
            tok@ == src@.subrange(pos as int, p as int),
        decreases src@.len() - p,
    {
        tok.push(src[p]);
        p = p + 1;
        proof {
            assert(tok@ =~= src@.subrange(pos as int, p as int));
        }
    }
    (tok, p)
}

/// Parse a whole source text into a document.
#[verifier::rlimit(100)]
#[verifier::spinoff_prover]
pub fn parse_document(src: &Vec<u8>) -> (r: Result<Document, ParseError>)
    ensures
        r matches Ok(doc) ==> wf_doc(doc, src@.len() as int) && sp_document(src@) == Ok::<crate::parse_spec::DocV, int>(view_doc(doc)),
        r matches Err(e) ==> (sp_document(src@) matches Err(x) && e == spec_err(src@, x))
            && e.line >= 1 && e.column >= 1,
    decreases src@.len(), src@.len(), 9int,
{
    let mut items: Vec<TopItem> = Vec::new();
    let mut pos: usize = 0;
    proof {
        assert(view_items(items@) =~= Seq::<ItemV>::empty());
    }
    while pos < src.len()
        invariant
            pos <= src@.len(),
            forall|i: int|
                0 <= i < items@.len() ==> (#[trigger] items@[i]).start_byte <= items@[i].end_byte
                    <= src@.len(),
            sp_doc_items(src@, 0) == prepend_items(
                view_items(items@),
                sp_doc_items(src@, pos as int),
            ),
        decreases src@.len() - pos,
    {
        let ghost items0 = items@;
        let ghost pos0 = pos as int;
        let p = skip_ws(src, pos);
        if p >= src.len() {
            pos = p;
            proof {
                assert(sp_doc_items(src@, pos0) == sp_doc_items(src@, pos as int));
            }
        } else {
            let b = src[p];
            if b == HASH {
                let (tok, ep) = scan_comment(src, p);
                let item = TopItem { start_byte: p, end_byte: ep, node: TopNode::Comment(tok) };
                items.push(item);
                pos = ep;
                proof {
                    lemma_push_items(items0, item);
                    doc_shift(src@, items0, items@, view_item(item), pos0, pos as int);
                }
            } else if b == COMMA {
                pos = p + 1;
                proof {
                    assert(sp_doc_items(src@, pos0) == sp_doc_items(src@, pos as int));
                }
            } else if token_byte(b) {
                match parse_structure(src, p) {
                    Ok((s, ep)) => {
                        let item = TopItem { start_byte: p, end_byte: ep, node: TopNode::Struct(
                            s,
                        ) };
                        items.push(item);
                        pos = ep;
                        proof {
                            lemma_push_items(items0, item);
                            doc_shift(src@, items0, items@, view_item(item), pos0, pos as int);
                        }
                    },
                    Err(e) => {
                        return Err(e);
                    },
                }
            } else {
                return Err(err_at(src, p));
            }
        }
    }
    proof {
        assert(sp_doc_items(src@, pos as int) == Ok::<Seq<ItemV>, int>(Seq::<ItemV>::empty()));
        assert(view_items(items@) + Seq::<ItemV>::empty() =~= view_items(items@));
    }
    Ok(Document { items })
}

/// Fold one consumed item into the top-level loop's accumulation invariant.
proof fn doc_shift(
    s: Seq<u8>,
    items0: Seq<TopItem>,
    items1: Seq<TopItem>,
    iv: ItemV,
    p0: int,
    p1: int,
)
    requires
        view_items(items1) == view_items(items0) + seq![iv],
        sp_doc_items(s, p0) == prepend_items(seq![iv], sp_doc_items(s, p1)),
    ensures
        prepend_items(view_items(items0), sp_doc_items(s, p0)) == prepend_items(
            view_items(items1),
            sp_doc_items(s, p1),
        ),
{
    match sp_doc_items(s, p1) {
        Ok(rest) => {
            assert(view_items(items0) + (seq![iv] + rest) =~= view_items(items1) + rest);
        },
        Err(_) => {},
    }
}

/// The accumulated items' view grows by the view of the pushed item.
proof fn lemma_push_items(items: Seq<TopItem>, it: TopItem)
    ensures
        view_items(items.push(it)) == view_items(items) + seq![view_item(it)],
{
    lemma_view_items_index(items);
    lemma_view_items_index(items.push(it));
    assert(view_items(items.push(it)) =~= view_items(items) + seq![view_item(it)]);
}

/// Parse a structure: a name, optionally a comma and a field list,
/// optionally a terminating semicolon.
#[verifier::rlimit(100)]
#[verifier::spinoff_prover]
fn parse_structure(src: &Vec<u8>, pos: usize) -> (r: Result<(Structure, usize), ParseError>)
    requires
        pos <= src@.len(),
    ensures
        r matches Ok(p) ==> pos < p.1 <= src@.len() && sp_structure(src@, pos as int)
            == Ok::<(StructV, int), int>((view_struct(p.0), p.1 as int)),
        r matches Err(e) ==> (sp_structure(src@, pos as int) matches Err(x) && e == spec_err(
            src@,
            x,
        )) && e.line >= 1 && e.column >= 1,
    decreases src@.len(), src@.len() - pos, 8int,
{
    let (name, mut p) = scan_token(src, pos);
    if name.len() == 0 {
        return Err(err_at(src, pos));
    }
    let mut fields: Vec<Field> = Vec::new();
    let q = skip_ws(src, p);
    if q < src.len() && src[q] == COMMA {
        let q2 = skip_ws(src, q + 1);
        if field_starts_at(src, q2) {
            match parse_field_list(src, q2) {
                Ok((fs, p2)) => {
                    fields = fs;
                    p = p2;
                },
                Err(e) => {
                    return Err(e);
                },
            }
        }
    }
    let mut has_semicolon = false;
    if p < src.len() && src[p] == SEMI {
        has_semicolon = true;
        p = p + 1;
    }
    let st = Structure { name, fields, has_semicolon };
    proof {
        if st.fields@.len() == 0 {
            assert(view_fields(st.fields@) =~= Seq::<FieldV>::empty());
        }
        assert(sp_structure(src@, pos as int) == Ok::<(StructV, int), int>(
            (view_struct(st), p as int),
        ));
    }
    Ok((st, p))
}

/// Parse a comma-separated field list; a trailing comma that is not
/// followed by another field is left to the caller.
#[verifier::rlimit(100)]
#[verifier::spinoff_prover]
fn parse_field_list(src: &Vec<u8>, pos: usize) -> (r: Result<(Vec<Field>, usize), ParseError>)
    requires
        pos <= src@.len(),
    ensures
        r matches Ok(p) ==> pos <= p.1 <= src@.len() && sp_fields_from(src@, pos as int)
            == Ok::<(Seq<FieldV>, int), int>((view_fields(p.0@), p.1 as int)),
        r matches Err(e) ==> (sp_fields_from(src@, pos as int) matches Err(x) && e == spec_err(
            src@,
            x,
        )) && e.line >= 1 && e.column >= 1,
    decreases src@.len(), src@.len() - pos, 7int,
{
    let mut fields: Vec<Field> = Vec::new();
    let mut p = pos;
    loop
        invariant
            pos <= p <= src@.len(),
            sp_fields_from(src@, pos as int) == prepend_fields(
                view_fields(fields@),
                sp_fields_from(src@, p as int),
            ),
        decreases src@.len() - p,
    {
        let ghost fields0 = fields@;
        let ghost p_iter = p as int;
        let (name, p1) = scan_token(src, p);
        if name.len() == 0 {
            return Err(err_at(src, p));
        }
        let p2 = skip_ws(src, p1);
        if !(p2 < src.len() && src[p2] == EQS) {
            return Err(err_at(src, p2));
        }
        let p3 = skip_ws(src, p2 + 1);
        proof {
            assert(p3 > p);
        }
        match parse_field_value(src, p3) {
            Ok((v, p4)) => {
                let f = Field { name, value: v };
                let ghost fv = view_field(f);
                fields.push(f);
                proof {
                    lemma_view_fields_index(fields0);
                    lemma_view_fields_index(fields@);
                    assert(view_fields(fields@) =~= view_fields(fields0) + seq![fv]);
                }
                p = p4;
                let q = skip_ws(src, p);
                if q < src.len() && src[q] == COMMA {
                    let q2 = skip_ws(src, q + 1);
                    if field_starts_at(src, q2) {
                        p = q2;
                        proof {
                            assert(sp_fields_from(src@, pos as int) == prepend_fields(
                                view_fields(fields@),
                                sp_fields_from(src@, p as int),
                            )) by {
                                match sp_fields_from(src@, p as int) {
                                    Ok((rest, pe)) => {
                                        assert(view_fields(fields0) + (seq![fv] + rest)
                                            =~= view_fields(fields@) + rest);
                                    },
                                    Err(_) => {},
                                }
                            }
                        }
                    } else {
                        proof {
                            assert(sp_fields_from(src@, p_iter) == Ok::<
                                (Seq<FieldV>, int),
                                int,
                            >((seq![fv], p4 as int)));
                            assert(view_fields(fields0) + seq![fv] =~= view_fields(fields@));
                        }
                        return Ok((fields, p));
                    }
                } else {
                    proof {
                        assert(sp_fields_from(src@, p_iter) == Ok::<
                            (Seq<FieldV>, int),
                            int,
                        >((seq![fv], p4 as int)));
                        assert(view_fields(fields0) + seq![fv] =~= view_fields(fields@));
                    }
                    return Ok((fields, p));
                }
            },
            Err(e) => {
                return Err(e);
            },
        }
    }
}

/// Parse one field value, dispatching on its first byte. A quoted literal
/// with a convertible prefix is unescaped and re-parsed; when that yields a
/// structure it is kept as an embedded structure, otherwise the literal
/// passes through verbatim.
#[verifier::rlimit(100)]
#[verifier::spinoff_prover]
fn parse_field_value(src: &Vec<u8>, pos: usize) -> (r: Result<(FieldValue, usize), ParseError>)
    requires
        pos <= src@.len(),
    ensures
        r matches Ok(p) ==> pos < p.1 <= src@.len() && sp_field_value(src@, pos as int)
            == Ok::<(ValueV, int), int>((view_value(p.0), p.1 as int)),
        r matches Err(e) ==> (sp_field_value(src@, pos as int) matches Err(x) && e == spec_err(
            src@,
            x,
        )) && e.line >= 1 && e.column >= 1,
    decreases src@.len(), src@.len() - pos, 4int,
{
    if pos >= src.len() {
        return Err(err_at(src, pos));
    }
    let b = src[pos];
    if b == LBRACE {
        match parse_block(src, pos) {
            Ok((es, p)) => Ok((FieldValue::Block(es), p)),
            Err(e) => Err(e),
        }
    } else if b == LBRACK {
        match parse_array(src, pos) {
            Ok((es, p)) => Ok((FieldValue::Arr(es), p)),
            Err(e) => Err(e),
        }
    } else if b == LANGLE {
        match parse_angle(src, pos) {
            Ok((vs, p)) => Ok((FieldValue::Angle(vs), p)),
            Err(e) => Err(e),
        }
    } else if b == LPAREN {
        match parse_typed(src, pos) {
            Ok((tv, p)) => Ok((FieldValue::Typed(tv), p)),
            Err(e) => Err(e),
        }
    } else if b == QUOTE {
        parse_quoted_leaf(src, pos)
        } else {
        let (tok, p) = scan_token(src, pos);
        if tok.len() == 0 {
            Err(err_at(src, pos))
        } else {
            Ok((FieldValue::Leaf(ValueLeaf::Plain(tok)), p))
        }
    }
}

/// Parse a quoted leaf: the literal verbatim, or, for a convertible
/// prefix whose unescaped content parses to a document headed by a
/// structure, that embedded structure.
#[verifier::rlimit(100)]
#[verifier::spinoff_prover]
fn parse_quoted_leaf(src: &Vec<u8>, pos: usize) -> (r: Result<(FieldValue, usize), ParseError>)
    requires
        pos < src@.len(),
        src@[pos as int] == QUOTE,
    ensures
        r matches Ok(p) ==> pos < p.1 <= src@.len() && sp_field_value(src@, pos as int)
            == Ok::<(ValueV, int), int>((view_value(p.0), p.1 as int)),
        r matches Err(e) ==> (sp_field_value(src@, pos as int) matches Err(x) && e == spec_err(
            src@,
            x,
        )) && e.line >= 1 && e.column >= 1,
    decreases src@.len(), src@.len() - pos, 3int,
{
    match scan_quoted(src, pos) {
        Ok((tok, p)) => {
            let inner = copy_range(&tok, 1, tok.len() - 1);
            proof {
                assert(inner@ =~= src@.subrange(pos + 1, p - 1));
            }
            if has_embed_prefix(&inner) {
                let unescaped = unescape_bytes(&inner);
                proof {
                    lemma_unescape_len(inner@, 0);
                    assert(unescaped@.len() < src@.len());
                }
                match parse_document(&unescaped) {
                    Ok(doc) => {
                        let ghost dv = view_doc(doc);
                        proof {
                            lemma_view_items_index(doc.items@);
                        }
                        let mut ditems = doc.items;
                        if ditems.len() > 0 {
                            let first = ditems.remove(0);
                            match first.node {
                                TopNode::Struct(s) => {
                                    proof {
                                        assert(dv.items[0] == view_item(doc.items@[0]));
                                        assert(nodev_struct(dv.items[0].node) == view_struct(s));
                                    }
                                    Ok((FieldValue::Leaf(ValueLeaf::Embedded(s)), p))
                                },
                                TopNode::Comment(_) => {
                                    proof {
                                        assert(dv.items[0] == view_item(doc.items@[0]));
                                    }
                                    Ok((FieldValue::Leaf(ValueLeaf::Plain(tok)), p))
                                },
                            }
                        } else {
                            Ok((FieldValue::Leaf(ValueLeaf::Plain(tok)), p))
                        }
                    },
                    Err(_) => Ok((FieldValue::Leaf(ValueLeaf::Plain(tok)), p)),
                }
            } else {
                Ok((FieldValue::Leaf(ValueLeaf::Plain(tok)), p))
            }
        },
        Err(e) => Err(e),
    }
}

/// Parse a brace-delimited block of structures, values and comments.
#[verifier::rlimit(100)]
#[verifier::spinoff_prover]
fn parse_block(src: &Vec<u8>, pos: usize) -> (r: Result<(Vec<BlockEntry>, usize), ParseError>)
    requires
        pos <= src@.len(),
    ensures
        r matches Ok(p) ==> pos < p.1 <= src@.len() && sp_block(src@, pos as int)
            == Ok::<(Seq<EntryV>, int), int>((view_entries(p.0@), p.1 as int)),
        r matches Err(e) ==> (sp_block(src@, pos as int) matches Err(x) && e == spec_err(
            src@,
            x,
        )) && e.line >= 1 && e.column >= 1,
    decreases src@.len(), src@.len() - pos, 3int,
{
    if !(pos < src.len() && src[pos] == LBRACE) {
        return Err(err_at(src, pos));
    }
    let mut entries: Vec<BlockEntry> = Vec::new();
    let mut p = pos + 1;
    proof {
        assert(view_entries(entries@) =~= Seq::<EntryV>::empty());
    }
    loop
        invariant
            pos < p <= src@.len(),
            src@[pos as int] == LBRACE,
            pos < src@.len(),
            sp_block_items(src@, (pos + 1) as int) == prepend_entries(
                view_entries(entries@),
                sp_block_items(src@, p as int),
            ),
        decreases src@.len() - p,
    {
        let ghost entries0 = entries@;
        let ghost p_iter = p as int;
        let q = skip_ws(src, p);
        if q >= src.len() {
            return Err(err_at(src, q));
        }
        let b = src[q];
        if b == RBRACE {
            proof {
                assert(sp_block_items(src@, p_iter) == Ok::<(Seq<EntryV>, int), int>(
                    (Seq::<EntryV>::empty(), q + 1int),
                ));
                assert(view_entries(entries0) + Seq::<EntryV>::empty() =~= view_entries(
                    entries0,
                ));
            }
            return Ok((entries, q + 1));
        }
        if b == HASH {
            let row = row_of(src, q);
            let (tok, ep) = scan_comment(src, q);
            let entry = BlockEntry { start_row: row, end_row: row, item: BlockItem::Comment(
                tok,
            ) };
            entries.push(entry);
            p = ep;
            proof {
                lemma_push_entries(entries0, entry);
                block_shift(src@, entries0, entries@, view_entry(entry), p_iter, p as int);
            }
        } else if b == COMMA {
            p = q + 1;
        } else {
            let start_row = row_of(src, q);
            if token_byte(b) && struct_starts_at(src, q) {
                match parse_structure(src, q) {
                    Ok((s, ep)) => {
                        let end_row = row_of(src, ep);
                        let entry = BlockEntry { start_row, end_row, item: BlockItem::Struct(
                            s,
                        ) };
                        entries.push(entry);
                        p = ep;
                        proof {
                            lemma_push_entries(entries0, entry);
                            block_shift(src@, entries0, entries@, view_entry(entry), p_iter,
                                p as int);
                        }
                    },
                    Err(e) => {
                        return Err(e);
                    },
                }
            } else {
                match parse_field_value(src, q) {
                    Ok((v, ep)) => {
                        let end_row = row_of(src, ep);
                        let entry = BlockEntry { start_row, end_row, item: BlockItem::Val(v) };
                        entries.push(entry);
                        p = ep;
                        proof {
                            lemma_push_entries(entries0, entry);
                            block_shift(src@, entries0, entries@, view_entry(entry), p_iter,
                                p as int);
                        }
                    },
                    Err(e) => {
                        return Err(e);
                    },
                }
            }
        }
    }
}

/// The accumulated entries' view grows by the view of the pushed entry.
proof fn lemma_push_entries(es: Seq<BlockEntry>, e: BlockEntry)
    ensures
        view_entries(es.push(e)) == view_entries(es) + seq![view_entry(e)],
{
    lemma_view_entries_index(es);
    lemma_view_entries_index(es.push(e));
    assert(view_entries(es.push(e)) =~= view_entries(es) + seq![view_entry(e)]);
}

/// Fold one consumed entry into the block loop's accumulation invariant.
proof fn block_shift(
    s: Seq<u8>,
    es0: Seq<BlockEntry>,
    es1: Seq<BlockEntry>,
    ev: EntryV,
    p0: int,
    p1: int,
)
    requires
        view_entries(es1) == view_entries(es0) + seq![ev],
        sp_block_items(s, p0) == prepend_entries(seq![ev], sp_block_items(s, p1)),
    ensures
        prepend_entries(view_entries(es0), sp_block_items(s, p0)) == prepend_entries(
            view_entries(es1),
            sp_block_items(s, p1),
        ),
{
    match sp_block_items(s, p1) {
        Ok((rest, pe)) => {
            assert(view_entries(es0) + (seq![ev] + rest) =~= view_entries(es1) + rest);
        },
        Err(_) => {},
    }
}

/// Parse a `[...]` array of structures, typed values and plain values.
#[verifier::rlimit(100)]
#[verifier::spinoff_prover]
fn parse_array(src: &Vec<u8>, pos: usize) -> (r: Result<(Vec<ArrayElem>, usize), ParseError>)
    requires
        pos <= src@.len(),
    ensures
        r matches Ok(p) ==> pos < p.1 <= src@.len() && sp_array(src@, pos as int)
            == Ok::<(Seq<ElemV>, int), int>((view_elems(p.0@), p.1 as int)),
        r matches Err(e) ==> (sp_array(src@, pos as int) matches Err(x) && e == spec_err(
            src@,
            x,
        )) && e.line >= 1 && e.column >= 1,
    decreases src@.len(), src@.len() - pos, 3int,
{
    if !(pos < src.len() && src[pos] == LBRACK) {
        return Err(err_at(src, pos));
    }
    let mut elems: Vec<ArrayElem> = Vec::new();
    let mut p = pos + 1;
    proof {
        assert(view_elems(elems@) =~= Seq::<ElemV>::empty());
    }
    loop
        invariant
            pos < p <= src@.len(),
            src@[pos as int] == LBRACK,
            pos < src@.len(),
            sp_array_items(src@, (pos + 1) as int) == prepend_elems(
                view_elems(elems@),
                sp_array_items(src@, p as int),
            ),
        decreases src@.len() - p,
    {
        let ghost elems0 = elems@;
        let ghost p_iter = p as int;
        let q = skip_ws(src, p);
        if q >= src.len() {
            return Err(err_at(src, q));
        }
        let b = src[q];
        if b == RBRACK {
            proof {
                assert(sp_array_items(src@, p_iter) == Ok::<(Seq<ElemV>, int), int>(
                    (Seq::<ElemV>::empty(), q + 1int),
                ));
                assert(view_elems(elems0) + Seq::<ElemV>::empty() =~= view_elems(elems0));
            }
            return Ok((elems, q + 1));
        }
        if b == COMMA {
            p = q + 1;
        } else if b == LPAREN {
            match parse_typed(src, q) {
                Ok((tv, ep)) => {
                    let elem = ArrayElem::Typed(tv);
                    elems.push(elem);
                    p = ep;
                    proof {
                        lemma_push_elems(elems0, elem);
                        array_shift(src@, elems0, elems@, view_elem(elem), p_iter, p as int);
                    }
                },
                Err(e) => {
                    return Err(e);
                },
            }
        } else if b == QUOTE {
            match scan_quoted(src, q) {
                Ok((tok, ep)) => {
                    let elem = ArrayElem::Plain(tok);
                    elems.push(elem);
                    p = ep;
                    proof {
                        lemma_push_elems(elems0, elem);
                        array_shift(src@, elems0, elems@, view_elem(elem), p_iter, p as int);
                    }
                },
                Err(e) => {
                    proof {
                        assert(sp_array_items(src@, p_iter) == Err::<(Seq<ElemV>, int), int>(
                            q as int,
                        ));
                    }
                    return Err(e);
                },
            }
        } else if token_byte(b) {
            if struct_starts_at(src, q) {
                match parse_structure(src, q) {
                    Ok((s, ep)) => {
                        let elem = ArrayElem::Struct(s);
                        elems.push(elem);
                        p = ep;
                        proof {
                            lemma_push_elems(elems0, elem);
                            array_shift(src@, elems0, elems@, view_elem(elem), p_iter,
                                p as int);
                        }
                    },
                    Err(e) => {
                        return Err(e);
                    },
                }
            } else {
                let (tok, ep) = scan_token(src, q);
                if tok.len() == 0 {
                    return Err(err_at(src, q));
                }
                let elem = ArrayElem::Plain(tok);
                elems.push(elem);
                p = ep;
                proof {
                    lemma_push_elems(elems0, elem);
                    array_shift(src@, elems0, elems@, view_elem(elem), p_iter, p as int);
                }
            }
        } else {
            return Err(err_at(src, q));
        }
    }
}

/// The accumulated elements' view grows by the view of the pushed element.
proof fn lemma_push_elems(es: Seq<ArrayElem>, e: ArrayElem)
    ensures
        view_elems(es.push(e)) == view_elems(es) + seq![view_elem(e)],
{
    lemma_view_elems_index(es);
    lemma_view_elems_index(es.push(e));
    assert(view_elems(es.push(e)) =~= view_elems(es) + seq![view_elem(e)]);
}

/// Fold one consumed element into the array loop's accumulation invariant.
proof fn array_shift(
    s: Seq<u8>,
    es0: Seq<ArrayElem>,
    es1: Seq<ArrayElem>,
    ev: ElemV,
    p0: int,
    p1: int,
)
    requires
        view_elems(es1) == view_elems(es0) + seq![ev],
        sp_array_items(s, p0) == prepend_elems(seq![ev], sp_array_items(s, p1)),
    ensures
        prepend_elems(view_elems(es0), sp_array_items(s, p0)) == prepend_elems(
            view_elems(es1),
            sp_array_items(s, p1),
        ),
{
    match sp_array_items(s, p1) {
        Ok((rest, pe)) => {
            assert(view_elems(es0) + (seq![ev] + rest) =~= view_elems(es1) + rest);
        },
        Err(_) => {},
    }
}

/// Parse a `<...>` array of field values.
#[verifier::rlimit(100)]
#[verifier::spinoff_prover]
fn parse_angle(src: &Vec<u8>, pos: usize) -> (r: Result<(Vec<FieldValue>, usize), ParseError>)
    requires
        pos <= src@.len(),
    ensures
        r matches Ok(p) ==> pos < p.1 <= src@.len() && sp_angle(src@, pos as int)
            == Ok::<(Seq<ValueV>, int), int>((crate::parse_spec::view_values(p.0@), p.1 as int)),
        r matches Err(e) ==> (sp_angle(src@, pos as int) matches Err(x) && e == spec_err(
            src@,
            x,
        )) && e.line >= 1 && e.column >= 1,
    decreases src@.len(), src@.len() - pos, 3int,
{
    if !(pos < src.len() && src[pos] == LANGLE) {
        return Err(err_at(src, pos));
    }
    let mut vals: Vec<FieldValue> = Vec::new();
    let mut p = pos + 1;
    proof {
        assert(crate::parse_spec::view_values(vals@) =~= Seq::<ValueV>::empty());
    }
    loop
        invariant
            pos < p <= src@.len(),
            src@[pos as int] == LANGLE,
            pos < src@.len(),
            sp_angle_items(src@, (pos + 1) as int) == prepend_values(
                crate::parse_spec::view_values(vals@),
                sp_angle_items(src@, p as int),
            ),
        decreases src@.len() - p,
    {
        let ghost vals0 = vals@;
        let ghost p_iter = p as int;
        let q = skip_ws(src, p);
        if q >= src.len() {
            return Err(err_at(src, q));
        }
        let b = src[q];
        if b == RANGLE {
            proof {
                assert(sp_angle_items(src@, p_iter) == Ok::<(Seq<ValueV>, int), int>(
                    (Seq::<ValueV>::empty(), q + 1int),
                ));
                assert(crate::parse_spec::view_values(vals0) + Seq::<ValueV>::empty()
                    =~= crate::parse_spec::view_values(vals0));
            }
            return Ok((vals, q + 1));
        }
        if b == COMMA {
            p = q + 1;
        } else {
            match parse_field_value(src, q) {
                Ok((v, ep)) => {
                    let ghost vv = view_value(v);
                    vals.push(v);
                    p = ep;
                    proof {
                        lemma_view_values_index(vals0);
                        lemma_view_values_index(vals@);
                        assert(crate::parse_spec::view_values(vals@) =~= crate::parse_spec::view_values(
                            vals0,
                        ) + seq![vv]);
                        angle_shift(src@, vals0, vals@, vv, p_iter, p as int);
                    }
                },
                Err(e) => {
                    return Err(e);
                },
            }
        }
    }
}

/// Fold one consumed value into the angle loop's accumulation invariant.
proof fn angle_shift(
    s: Seq<u8>,
    vs0: Seq<FieldValue>,
    vs1: Seq<FieldValue>,
    vv: ValueV,
    p0: int,
    p1: int,
)
    requires
        crate::parse_spec::view_values(vs1) == crate::parse_spec::view_values(vs0) + seq![vv],
        sp_angle_items(s, p0) == prepend_values(seq![vv], sp_angle_items(s, p1)),
    ensures
        prepend_values(crate::parse_spec::view_values(vs0), sp_angle_items(s, p0))
            == prepend_values(crate::parse_spec::view_values(vs1), sp_angle_items(s, p1)),
{
    match sp_angle_items(s, p1) {
        Ok((rest, pe)) => {
            assert(crate::parse_spec::view_values(vs0) + (seq![vv] + rest)
                =~= crate::parse_spec::view_values(vs1) + rest);
        },
        Err(_) => {},
    }
}

/// Parse a `(type)value` pair.
#[verifier::rlimit(100)]
#[verifier::spinoff_prover]
fn parse_typed(src: &Vec<u8>, pos: usize) -> (r: Result<(TypedValue, usize), ParseError>)
    requires
        pos <= src@.len(),
    ensures
        r matches Ok(p) ==> pos < p.1 <= src@.len() && sp_typed(src@, pos as int)
            == Ok::<(crate::parse_spec::TypedV, int), int>((view_typed(p.0), p.1 as int)),
        r matches Err(e) ==> (sp_typed(src@, pos as int) matches Err(x) && e == spec_err(
            src@,
            x,
        )) && e.line >= 1 && e.column >= 1,
    decreases src@.len(), src@.len() - pos, 3int,
{
    if !(pos < src.len() && src[pos] == LPAREN) {
        proof {
            assert(sp_typed(src@, pos as int) == Err::<(TypedV, int), int>(pos as int));
        }
        return Err(err_at(src, pos));
    }
    let p1 = skip_ws(src, pos + 1);
    let (ty_name, p2) = scan_token(src, p1);
    if ty_name.len() == 0 {
        proof {
            assert(sp_typed(src@, pos as int) == Err::<(TypedV, int), int>(p1 as int));
        }
        return Err(err_at(src, p1));
    }
    let p3 = skip_ws(src, p2);
    if !(p3 < src.len() && src[p3] == RPAREN) {
        proof {
            assert(sp_typed(src@, pos as int) == Err::<(TypedV, int), int>(p3 as int));
        }
        return Err(err_at(src, p3));
    }
    let p4 = skip_ws(src, p3 + 1);
    if p4 >= src.len() {
        proof {
            assert(sp_typed(src@, pos as int) == Err::<(TypedV, int), int>(p4 as int));
        }
        return Err(err_at(src, p4));
    }
    let b = src[p4];
    if b == LBRACK {
        match parse_array(src, p4) {
            Ok((es, p5)) => Ok((TypedValue { ty_name, payload: TypedPayload::Arr(es) }, p5)),
            Err(e) => Err(e),
        }
    } else if b == LANGLE {
        match parse_angle(src, p4) {
            Ok((vs, p5)) => Ok((TypedValue { ty_name, payload: TypedPayload::Angle(vs) }, p5)),
            Err(e) => Err(e),
        }
    } else if b == QUOTE {
        match scan_quoted(src, p4) {
            Ok((tok, p5)) => Ok((TypedValue { ty_name, payload: TypedPayload::Plain(tok) }, p5)),
            Err(e) => Err(e),
        }
    } else {
        let (tok, p5) = scan_token(src, p4);
        if tok.len() == 0 {
            Err(err_at(src, p4))
        } else {
            Ok((TypedValue { ty_name, payload: TypedPayload::Plain(tok) }, p5))
        }
    }
}

} // verus!
