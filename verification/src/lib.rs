//! A backward-linked chain of post records kept behind a single head record.
//!
//! Every post links to its chronological predecessor; a blog-level head record
//! names the most recent live post. The operations — create, update, and the
//! two delete forms — validate ownership and linkage against the current state
//! and either commit their whole effect or leave every record unchanged.

pub mod laws;
pub mod model;
pub mod ops;
pub mod records;
