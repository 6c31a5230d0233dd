//! A compiler for a small parsing-expression-grammar description language.
//!
//! A grammar is a non-empty run of named rule definitions with no separator
//! between them; [`parser::grammar`] reads the host-classified token stream
//! into an expression tree, deciding rule boundaries by two-token lookahead.
//! The compiled grammar is a namespace of mutually recursive rules, run over
//! input by [`ast::Grammar::run`]: an interpreter, proved equal to the
//! evaluator in [`semantics`], that gives each tree node its
//! parsing-expression semantics: ordered choice, greedy repetition,
//! zero-width lookahead, and per-sequence capture resolution. The laws the
//! library keeps are stated and proved in [`laws`].

pub mod ast;
pub mod interp;
pub mod laws;
pub mod parser;
pub mod semantics;
