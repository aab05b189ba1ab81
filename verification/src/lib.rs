//! A small logic-programming engine. Horn clauses are compiled into a flat,
//! index-addressed heap of tagged cells, and queries are answered over that
//! heap by depth-first resolution with trail-based backtracking.
//!
//! The way from text to answers:
//!
//! - `parser` reads the written form of a program (`grammar`) into its
//!   syntax tree (`ast`), and `writer` writes it;
//! - `compiler` lays the clauses and queries out on the `heap`, interning
//!   atom names in `symbols`, as `layout` says;
//! - `engine` searches for answers, one step of the search being what
//!   `search` says, with `unify` for unification and `store` for binding
//!   variables and taking bindings back;
//! - `answer` reads terms back from the heap, `variables` tells which
//!   variables a query has, and `block` finds the cells of a term.
//!
//! What holds of all this is stated and proved under `laws`.

pub mod answer;
pub mod ast;
pub mod block;
pub mod compiler;
pub mod engine;
pub mod error;
pub mod grammar;
pub mod heap;
pub mod laws;
pub mod layout;
pub mod parser;
pub mod search;
pub mod store;
pub mod symbols;
pub mod unify;
pub mod variables;
pub mod writer;
