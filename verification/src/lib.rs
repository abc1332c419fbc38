//! A parser for a small expression language: arithmetic with the usual
//! precedence, parentheses, variables with dotted names, and calls.
//!
//! The library has two layers. The lower one is a matching engine:
//! [`basic_parser::State`] is an immutable cursor into the input, and a
//! [`basic_parser::Transition`] is a matcher that steps from one cursor to the
//! next or fails; matchers are put together from other matchers. What a
//! matcher does is said by [`pattern::Pattern::scan`]. The upper layer is the
//! grammar: [`lexical`] holds the lexical rules, [`grammar`] says what each
//! rule of the grammar reads and which tree it builds, and [`parser::Parser`]
//! is the recursive-descent parser that builds the nodes of [`ast`].
//!
//! [`phrase`] describes the expressions that are written as the grammar asks
//! and shows that the parser reads each of them whole.

pub mod ast;
pub mod basic_parser;
pub mod classes;
pub mod grammar;
pub mod lexical;
pub mod numeral;
pub mod parser;
pub mod pattern;
pub mod phrase;
pub mod tokens;
