//! Compaction of linked-data documents: a context model with its inverse
//! index, and the algorithm that folds an expanded document back into its
//! compact form under a context.
//!
//! The document comes in expanded form, as [`object::Object`]s; the
//! context as a [`context::Context`] whose nested local contexts were
//! processed into a [`context::Resolver`]. [`document::compact_with`] gives
//! the compact JSON tree. What it gives is stated in
//! [`compaction::model`], over the views of the values.

pub mod error;
pub mod text;
pub mod lang;
pub mod iri;
pub mod direction;
pub mod syntax;
pub mod json;
pub mod context;
pub mod object;
pub mod compaction;
pub mod expansion;
pub mod document;
pub mod util;

pub use crate::context::Context;
pub use crate::direction::Direction;
pub use crate::error::Error;
pub use crate::object::{Indexed, Node, Object, Value};
pub use crate::syntax::ProcessingMode;
