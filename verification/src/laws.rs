//! What holds of the library: the laws of the layout, of unification and
//! of the search, each stated as a proof function and proved.
//!
//! - `grammar_laws` and `rendering`: what can be read, and that what is
//!   written is read back as it was;
//! - `layout_laws`, `layout_shape`, `placement`, `own_cells` and
//!   `scoping`: how terms lie on the heap, and where the variables of a
//!   query are;
//! - `shape` and `soundness`: what a heap of terms is, and that binding,
//!   unifying and backtracking keep it one;
//! - `unify_laws` and `unify_soundness`: what unification does;
//! - `search_laws`, `search_soundness`, `backtracking` and `indexing`: that
//!   a search comes to an end, meets no malformed heap, goes back exactly to
//!   where it was, and leaves out no clause that could have matched;
//! - `naming`: that every constant on the heap has a name, so that every
//!   term can be read back;
//! - `compiled_laws`: that all of this holds of every search of a compiled
//!   program.

pub mod backtracking;
pub mod compiled_laws;
pub mod grammar_laws;
pub mod indexing;
pub mod layout_laws;
pub mod layout_shape;
pub mod naming;
pub mod own_cells;
pub mod placement;
pub mod rendering;
pub mod scoping;
pub mod search_laws;
pub mod search_soundness;
pub mod shape;
pub mod soundness;
pub mod unify_laws;
pub mod unify_soundness;
