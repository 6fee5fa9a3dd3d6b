//! A least-frequently-used cache, verified against a mathematical model.
//!
//! [`lfu_cache::LFUCache`] is the store itself. [`model::LfuState`] is the
//! state it stands for and the meaning of each of its operations;
//! [`invariants`] shows that the operations keep that state consistent, and
//! [`laws`] states what follows for sequences of calls.

pub mod invariants;
pub mod laws;
pub mod lfu_cache;
pub mod model;
