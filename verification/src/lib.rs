//! A content-addressed quad store.
//!
//! Statements of four positions (subject, predicate, object, label) are kept
//! as deduplicated, reference-counted records called primitives: a *node*
//! primitive holds one application value, a *quad* primitive holds the four
//! node ids of one statement.  A derived direction index maps
//! `(direction, value id)` to the ids of the quads holding that value in that
//! position, and is kept consistent with the primitive table.
//!
//! The store's observable state is modelled by [`model::StoreModel`]; every
//! operation's contract says exactly which model state it produces, and the
//! laws in [`laws`] are proved over those model transitions.

pub mod value;
pub mod primitive;
pub mod hashing;
pub mod model;
pub mod lemmas;
pub mod store;
pub mod resolver;
pub mod deltas;
pub mod iter;
pub mod laws;
