//! Verified core of the shared-state primitives: counters, flags and
//! atomics, map keys and the shared map, the bounded channel, the
//! lazy-initialisation cell and the resource pool.

pub mod error;
pub mod rc;
pub mod text;
pub mod counter;
pub mod atomic;
pub mod flag;
pub mod map_key;
pub mod channel;
pub mod slot_buffer;
pub mod channel_ops;
pub mod value;
pub mod once;
pub mod map;
pub mod wire;
pub mod pool;
pub mod mutex;
