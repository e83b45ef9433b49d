//! Core primitives of a key-value database server: a small-buffer growable
//! array and a cursor-based parser for the length-prefixed query protocol.

pub mod coredb;
pub mod protocol;
pub mod queryengine;
