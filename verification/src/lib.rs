//! A fixed-capacity object pool carved out of a named, process-shared memory
//! segment, together with a minimal cooperative scheduler that lets callers
//! wait for a free slot instead of failing immediately.
//!
//! The crate proves the pool's layout computation, the slot claim/release
//! protocol, and the scheduler's bookkeeping. The OS memory mapping itself is
//! a thin syscall shim that lives with the embedding application.

pub mod executor;
pub mod layout;
pub mod mem;
pub mod pool;
pub mod util;
