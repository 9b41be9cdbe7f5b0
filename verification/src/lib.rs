//! A parser for a minimal type-definition syntax:
//!
//! ```text
//! type_def    := "type" IDENT "{" field_list "}"
//! field_list  := ( field ( "," field )* ","? )?
//! field       := IDENT ( ":" IDENT )?
//! IDENT       := ( letter | "_" ) ( letter | digit | "_" )*
//! ```
//!
//! Every parser is a pure function from the remaining text to a result and
//! the text that is left. What each parser returns is stated over
//! sequences of characters by the functions of [`grammar`].

pub mod ast;
pub mod grammar;
pub mod lemmas;
pub mod lexer;
pub mod parser;
pub mod primitives;
pub mod theorems;

pub use ast::{Field, FieldView, ParseError, TypeDef, TypeDefView};
pub use lexer::{ident, linespace, space};
pub use parser::{csl, field_list, opt_typed_name, type_def};
