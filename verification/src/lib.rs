//! Small container utilities: a keyed holder for values that are looked up
//! by string key and never replaced, a draining pop iterator over vectors,
//! and helper traits for in-place filtering and dual-index access.

pub mod holder;
pub mod pop_iter;
pub mod traits;
