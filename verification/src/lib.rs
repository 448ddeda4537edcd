//! A thin adapter around a Datalog engine: it takes a textual program whose
//! last clause is a query atom, evaluates the program to a fixed point, and
//! returns a JSON envelope holding either the matching atoms or an error
//! message.

pub mod engine;
pub mod eval;
pub mod response;
pub mod shape;
pub mod text;

pub use engine::run_mangle_query;
pub use engine::run_query_internal;
pub use text::is_blank;
