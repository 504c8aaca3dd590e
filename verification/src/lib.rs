//! An in-memory diagnostic log for environments without operating-system
//! services: a bounded byte region, a write cursor, and an append protocol
//! that silently truncates once the region is exhausted.

pub mod laws;
pub mod store;
