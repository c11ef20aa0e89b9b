//! An append-only Merkle record kept in a fixed-size, address-derived storage
//! buffer: the addressing scheme, the byte layout of the record, leaf insertion
//! and the request logic that creates and fills the record.

pub mod address;
pub mod digest;
pub mod error;
pub mod layout;
pub mod processor;
pub mod tree;
