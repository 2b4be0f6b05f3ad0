//! A verified event store with a decorator front end.
//!
//! Events flowing through a handler pipeline are persisted in a store and
//! served back through a small set of reserved query actions; anything
//! else passes through to the wrapped inner handler untouched.

pub mod codec;
pub mod data;
pub mod query;
pub mod handler;
pub mod laws;
pub mod store;
pub mod text;
