//! A recursive-descent parser for a small type-annotation grammar: the syntax
//! that follows a `::` ascription marker, such as `List<Number>`,
//! `(Number, String) -> Boolean`, `(Number, String)` or `{a :: Number}`.

pub mod error;
pub mod ident;
pub mod lex;
pub mod state;
pub mod token;
pub mod type_ann;
