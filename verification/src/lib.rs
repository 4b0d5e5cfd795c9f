//! Lexical-analysis front end of a small interpreted language.
//!
//! The scanner walks a source buffer once, left to right, and produces a
//! sequence of classified tokens together with lexical diagnostics.  The
//! token sequence a scan produces is pinned down exactly by the
//! specification-level scanner in [`lexer`].

pub mod astprinter;
pub mod expr;
pub mod interpreter;
pub mod lexer;
pub mod token;
