//! The formatter itself: owns the source text and the output buffer, and
//! renders a parsed document into the one canonical layout.
use vstd::prelude::*;

use crate::byte_buf::{blanks_between, copy_range, count_blanks, push_newlines, spaces, NL, QUOTE};
use crate::comment::emit_comment;
use crate::escape::{spec_unescape, unescape_bytes};
use crate::inline::render_converted;
use crate::layout::emit_structure;
use crate::model::{wf_doc, Document, ParseError, Structure, TopNode};
use crate::names::{has_embed_prefix, spec_has_embed_prefix};
use crate::parse_spec::{
    lemma_view_items_index, nodev_struct, sp_document, spec_err, view_doc, view_item,
    view_struct,
};
use crate::parser::parse_document;
use crate::render_spec::{conv_render, doc_items_from, spec_format, spec_format_into, Cfg};

verus! {

/// A quoted literal whose content starts with a convertible structure name.
pub open spec fn spec_is_convertible(t: Seq<u8>) -> bool {
    t.len() >= 2 && t[0] == QUOTE && t[t.len() - 1] == QUOTE && spec_has_embed_prefix(
        t.subrange(1, t.len() - 1),
    )
}

/// One formatting run: the source it was given, the output it builds, and
/// its configuration.
pub struct Formatter {
    pub source: Vec<u8>,
    pub output: Vec<u8>,
    pub indent_width: usize,
    pub max_line_length: usize,
    pub current_indent: usize,
}

pub open spec fn cfg_of(f: Formatter) -> Cfg {
    Cfg { indent_width: f.indent_width, max_line_length: f.max_line_length }
}

impl Formatter {
    pub fn new(source: Vec<u8>, indent_width: usize, max_line_length: usize) -> (r: Formatter)
        ensures
            r.source@ == source@,
            r.output@ == Seq::<u8>::empty(),
            r.indent_width == indent_width,
            r.max_line_length == max_line_length,
            r.current_indent == 0,
    {
        Formatter {
            source,
            output: Vec::new(),
            indent_width,
            max_line_length,
            current_indent: 0,
        }
    }

    /// The run of spaces for the current indent depth.
    pub fn indent(&self) -> (r: Vec<u8>)
        ensures
            r@ == spaces(self.current_indent as int),
    {
        let mut out: Vec<u8> = Vec::new();
        crate::byte_buf::push_spaces(&mut out, self.current_indent);
        out
    }

    /// Blank lines preserved between two top-level items: one fewer than the
    /// newlines in the source gap, never negative.
    pub fn count_blank_lines_between(&self, end_byte: usize, start_byte: usize) -> (r: usize)
        requires
            end_byte < start_byte ==> start_byte <= self.source@.len(),
        ensures
            r as int == blanks_between(self.source@, end_byte as int, start_byte as int),
    {
        count_blanks(&self.source, end_byte, start_byte)
    }

    /// Unescape a quoted literal's content: `\"` to `"` and `\\` to `\`;
    /// any other backslash stays, its following byte untouched.
    pub fn unescape_string(&self, s: &Vec<u8>) -> (r: Vec<u8>)
        ensures
            r@ == spec_unescape(s@),
    {
        unescape_bytes(s)
    }

    /// Rewrite a quoted literal that encodes a structure as array syntax at
    /// the current indent: exactly when the literal is convertible and its
    /// unescaped content parses to a document headed by a structure, the
    /// result is that structure's array-syntax rendering; otherwise the
    /// literal is left alone.
    pub fn try_convert_quoted_structure(&self, text: &Vec<u8>) -> (r: Option<Vec<u8>>)
        ensures
            !spec_is_convertible(text@) ==> r is None,
            spec_is_convertible(text@) ==> (match sp_document(
                spec_unescape(text@.subrange(1, text@.len() - 1)),
            ) {
                Ok(dv) => if dv.items.len() > 0 && dv.items[0].node is Struct {
                    r matches Some(v) && exists|st: Structure|
                        view_struct(st) == nodev_struct(dv.items[0].node) && v@ == conv_render(
                            st,
                            self.current_indent as int,
                            cfg_of(*self),
                        )
                } else {
                    r is None
                },
                Err(_) => r is None,
            }),
    {
        if text.len() < 2 {
            return None;
        }
        if text[0] != QUOTE || text[text.len() - 1] != QUOTE {
            return None;
        }
        let inner = copy_range(text, 1, text.len() - 1);
        if !has_embed_prefix(&inner) {
            return None;
        }
        let unescaped = unescape_bytes(&inner);
        let c = Cfg { indent_width: self.indent_width, max_line_length: self.max_line_length };
        match parse_document(&unescaped) {
            Ok(doc) => {
                let ghost dv = view_doc(doc);
                proof {
                    lemma_view_items_index(doc.items@);
                }
                if doc.items.len() == 0 {
                    return None;
                }
                proof {
                    assert(dv.items[0] == view_item(doc.items@[0]));
                }
                match &doc.items[0].node {
                    TopNode::Struct(s) => {
                        let out = render_converted(s, self.current_indent, &c);
                        proof {
                            assert(c == cfg_of(*self));
                            assert(nodev_struct(dv.items[0].node) == view_struct(*s));
                            assert(exists|st: Structure|
                                view_struct(st) == nodev_struct(dv.items[0].node) && out@
                                    == conv_render(
                                    st,
                                    self.current_indent as int,
                                    cfg_of(*self),
                                )) by {
                                assert(view_struct(*s) == nodev_struct(dv.items[0].node) && out@
                                    == conv_render(
                                    *s,
                                    self.current_indent as int,
                                    cfg_of(*self),
                                ));
                            }
                        }
                        Some(out)
                    },
                    TopNode::Comment(_) => None,
                }
            },
            Err(_) => None,
        }
    }

    /// Render the whole document: items in source order behind the current
    /// indent, blank lines re-created from the source gaps, and exactly one
    /// final newline when none ends the output already.
    pub fn format(self, doc: &Document) -> (r: Vec<u8>)
        requires
            wf_doc(*doc, self.source@.len() as int),
        ensures
            r@ == spec_format_into(
                self.output@,
                *doc,
                self.source@,
                self.current_indent as int,
                cfg_of(self),
            ),
    {
        let c = Cfg { indent_width: self.indent_width, max_line_length: self.max_line_length };
        let base = self.current_indent;
        let ghost out0 = self.output@;
        let mut out = self.output;
        let mut i: usize = 0;
        let mut prev_end: usize = 0;
        while i < doc.items.len()
            invariant
                i <= doc.items@.len(),
                wf_doc(*doc, self.source@.len() as int),
                i == 0 ==> prev_end == 0,
                i > 0 ==> prev_end == doc.items@[i - 1].end_byte,
                prev_end <= self.source@.len(),
                out@ + doc_items_from(
                    doc.items@,
                    i as int,
                    self.source@,
                    prev_end as int,
                    base as int,
                    c,
                ) == out0 + doc_items_from(doc.items@, 0, self.source@, 0, base as int, c),
            decreases doc.items@.len() - i,
        {
            let item = &doc.items[i];
            let b = count_blanks(&self.source, prev_end, item.start_byte);
            push_newlines(&mut out, b);
            match &item.node {
                TopNode::Struct(s) => {
                    emit_structure(s, base, &c, &mut out);
                },
                TopNode::Comment(t) => {
                    emit_comment(t, base, &c, &mut out);
                },
            }
            out.push(NL);
            prev_end = item.end_byte;
            i = i + 1;
            proof {
                assert(out@ + doc_items_from(
                    doc.items@,
                    i as int,
                    self.source@,
                    prev_end as int,
                    base as int,
                    c,
                ) =~= out0 + doc_items_from(doc.items@, 0, self.source@, 0, base as int, c));
            }
        }
        if out.len() == 0 || out[out.len() - 1] != NL {
            out.push(NL);
        }
        proof {
            assert(out@ =~= spec_format_into(
                out0,
                *doc,
                self.source@,
                base as int,
                cfg_of(self),
            ));
        }
        out
    }
}

/// Parse and format a whole source text: the canonical layout of the parsed
/// document, or the 1-based line and column of the first syntax error. The
/// parse is fixed by `sp_document`; the result is the layout of a tree whose
/// mathematical view is exactly that parse, and an error comes back if and
/// only if `sp_document` reports one, at the position it names.
pub fn format_file(source: Vec<u8>, indent_width: usize, max_line_length: usize) -> (r: Result<
    Vec<u8>,
    ParseError,
>)
    ensures
        r matches Ok(v) ==> (sp_document(source@) matches Ok(dv) && exists|doc: Document|
            view_doc(doc) == dv && wf_doc(doc, source@.len() as int) && v@ == spec_format(
                doc,
                source@,
                0,
                Cfg { indent_width, max_line_length },
            )),
        r matches Ok(v) ==> v@.len() > 0 && v@.last() == NL,
        r matches Err(e) ==> (sp_document(source@) matches Err(x) && e == spec_err(source@, x))
            && e.line >= 1 && e.column >= 1,
{
    match parse_document(&source) {
        Ok(doc) => {
            let ghost src = source@;
            let f = Formatter::new(source, indent_width, max_line_length);
            let out = f.format(&doc);
            proof {
                assert(out@ =~= spec_format(
                    doc,
                    src,
                    0,
                    Cfg { indent_width, max_line_length },
                ));
                crate::laws::lemma_output_ends_with_newline(
                    doc,
                    src,
                    0,
                    Cfg { indent_width, max_line_length },
                );
                assert(exists|d: Document|
                    view_doc(d) == view_doc(doc) && wf_doc(d, src.len() as int) && out@
                        == spec_format(d, src, 0, Cfg { indent_width, max_line_length })) by {
                    assert(view_doc(doc) == view_doc(doc) && wf_doc(doc, src.len() as int)
                        && out@ == spec_format(
                        doc,
                        src,
                        0,
                        Cfg { indent_width, max_line_length },
                    ));
                }
            }
            Ok(out)
        },
        Err(e) => Err(e),
    }
}

} // verus!
