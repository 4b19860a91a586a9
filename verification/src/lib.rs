//! An in-memory shopping-list service core: a store of items with
//! server-assigned ids, a JSON codec for the item wire format, and a
//! request dispatcher that maps (method, path, body) to a response and
//! a store update. The network listener, logging and argument parsing
//! live outside the library and call into it with plain values.

pub mod cli;
pub mod dispatch;
pub mod json;
pub mod models;
pub mod store;
