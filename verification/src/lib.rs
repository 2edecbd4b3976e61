//! Canonical-layout formatter for a test/configuration grammar of named
//! structures: `name, field=value, ...` with nested blocks, arrays and
//! comments. The formatter parses a source text and re-emits it in one
//! deterministic layout: fixed indentation, a line-width budget deciding
//! inline versus block form, preserved blank lines and comments, and quoted
//! literals that encode a structure rewritten as native array syntax.
//!
//! `model` holds the syntax tree, `parser` builds it, `render_spec` states
//! the layout as pure functions on the tree, and `inline`, `layout`,
//! `comment` and `fmt` are the executable renderers, each proved to emit
//! exactly those sequences. `laws` proves the guarantees the layout keeps.
pub mod byte_buf;
pub mod checks;
pub mod comment;
pub mod escape;
pub mod fmt;
pub mod inline;
pub mod laws;
pub mod layout;
pub mod model;
pub mod names;
pub mod parse_spec;
pub mod parser;
pub mod render_spec;
