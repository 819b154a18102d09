//! Decoder for the PerfData snapshot format: a fixed prologue followed by
//! self-describing counter entries, in either byte order, gathered into a
//! name-keyed store with derived memory and collection metrics.

pub mod error;
pub mod byte_order;
pub mod stream;
pub mod text;
pub mod decimal;
pub mod entry;
pub mod store;
pub mod decode;
pub mod perfdata;
