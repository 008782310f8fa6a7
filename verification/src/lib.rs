//! Query filters of an embedded object database: the predicate tree, the typed
//! comparison rules of its leaves, and the evaluation of a filter on a record.

pub mod align;
pub mod text;
pub mod value;
pub mod record;
pub mod filter;
pub mod eval;
pub mod laws;
