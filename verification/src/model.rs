//! The syntax tree that the formatter works on: a document of structures and
//! comments, where a structure is a name followed by named fields whose values
//! may be nested blocks, arrays, angle-bracket arrays, typed values or plain
//! leaf tokens.
use vstd::prelude::*;

verus! {

/// A whole source file: top-level structures and comments in source order.
pub struct Document {
    pub items: Vec<TopItem>,
}

/// A top-level item together with its byte span in the source, which the
/// formatter uses to preserve blank lines between neighbouring items.
pub struct TopItem {
    pub start_byte: usize,
    pub end_byte: usize,
    pub node: TopNode,
}

pub enum TopNode {
    Struct(Structure),
    Comment(Vec<u8>),
}

/// A structure: `name, field, field...` with an optional `;` terminator.
pub struct Structure {
    pub name: Vec<u8>,
    pub fields: Vec<Field>,
    pub has_semicolon: bool,
}

/// One `name=value` pair.
pub struct Field {
    pub name: Vec<u8>,
    pub value: FieldValue,
}

pub enum FieldValue {
    /// A brace-delimited block of structures, values and comments.
    Block(Vec<BlockEntry>),
    /// A `[...]` array.
    Arr(Vec<ArrayElem>),
    /// A `<...>` array of field values.
    Angle(Vec<FieldValue>),
    /// A `(type)value` pair.
    Typed(TypedValue),
    /// A leaf token.
    Leaf(ValueLeaf),
}

/// A leaf token of a field value. A quoted literal that encodes a whole
/// structure (recognised by its prefix) is re-parsed at parse time and kept
/// as the parsed structure, so the formatter can splice it back in as native
/// array syntax.
pub enum ValueLeaf {
    Plain(Vec<u8>),
    Embedded(Structure),
}

/// An entry of a nested block, with the source rows its text covered; rows
/// decide whether a comment trails the entry before it on the same line.
pub struct BlockEntry {
    pub start_row: usize,
    pub end_row: usize,
    pub item: BlockItem,
}

pub enum BlockItem {
    Struct(Structure),
    Val(FieldValue),
    Comment(Vec<u8>),
}

pub enum ArrayElem {
    Struct(Structure),
    Typed(TypedValue),
    Plain(Vec<u8>),
}

pub struct TypedValue {
    pub ty_name: Vec<u8>,
    pub payload: TypedPayload,
}

pub enum TypedPayload {
    Arr(Vec<ArrayElem>),
    Angle(Vec<FieldValue>),
    Plain(Vec<u8>),
}

/// A syntax error, with 1-based line and column of the first offending byte.
#[derive(Debug, PartialEq, Eq)]
pub struct ParseError {
    pub line: usize,
    pub column: usize,
}

/// The top-level items' spans stay inside the source, so that blank-line
/// counting can slice the gap between neighbours.
pub open spec fn wf_doc(doc: Document, src_len: int) -> bool {
    forall|i: int|
        0 <= i < doc.items@.len() ==> (#[trigger] doc.items@[i]).start_byte
            <= doc.items@[i].end_byte <= src_len
}

} // verus!
