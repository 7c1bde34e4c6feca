//! A Relay-style cursor-pagination library for a todo store: an opaque cursor
//! codec, a pagination-argument validator, a keyset query translation, a
//! connection builder, and a store model with the row semantics of the
//! backing table. Every executable function carries a proved contract.

pub mod base64url;
pub mod connection;
pub mod cursor;
pub mod digits;
pub mod pagination;
pub mod query;
pub mod scalar;
pub mod schema;
pub mod store;
pub mod todo;
