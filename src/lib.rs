//! Safe, ordered access to a ring of fixed-size slots that carries large binary blocks
//! and small textual headers from one producer to one consumer.

pub mod errors;
pub mod store;
pub mod io;
pub mod client;
pub mod builder;
pub mod headers;
pub mod laws;
