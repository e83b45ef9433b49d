//! In-memory building blocks of the store.

pub mod iarray;
