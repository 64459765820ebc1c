//! In-memory text of documents open in an editor session, with verified
//! translation between line/code-unit positions and byte offsets, ordered
//! application of incremental edits, and a per-document store.

pub mod unicode;
pub mod lines;
pub mod buffer;
pub mod protocol;
pub mod index;
pub mod laws;
pub mod edits;
pub mod store;
pub mod numeric;
pub mod transform;
