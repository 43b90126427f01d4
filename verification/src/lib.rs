//! A small dynamically-typed scripting language, from source text to running
//! program.
//!
//! - [`tokenizer`] splits the text into [`token`]s;
//! - [`parser`] reads the tokens into the statements and expressions of [`stmt`]
//!   and [`expr`], as [`grammar`] defines and [`shape`] proves things of;
//! - [`interpreter`] runs the statements, step by step, as [`machine`] defines,
//!   on the [`value`]s that live in the scopes of an [`environment`] and in the
//!   arrays and dictionaries of a [`heap`];
//! - [`render`] lays out what is printed.
//!
//! Numbers are double-precision numbers. The library holds them by their bit
//! patterns ([`number`]) and leaves their arithmetic and their texts to its
//! caller.

pub mod calls;
pub mod environment;
pub mod error;
pub mod expr;
pub mod grammar;
pub mod heap;
pub mod interpreter;
pub mod machine;
pub mod number;
pub mod parser;
pub mod render;
pub mod shape;
pub mod stmt;
pub mod token;
pub mod tokenizer;
pub mod value;
