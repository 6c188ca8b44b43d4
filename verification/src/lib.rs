//! Versioned objects kept in an object store, and the garbage collection of what they leave behind.

pub mod boundary;
pub mod boundary_history;
pub mod boundary_laws;
pub mod compactions_gc;
pub mod decimal;
pub mod error;
pub mod gc;
pub mod gc_laws;
pub mod id;
pub mod latest;
pub mod listing;
pub mod naming;
pub mod path;
pub mod protocol;
pub mod read_laws;
pub mod reply_laws;
pub mod selection_laws;
pub mod store;
pub mod text;
pub mod text_laws;
pub mod time;
pub mod wal_gc;
