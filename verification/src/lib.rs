//! Core of a terminal achievement manager: a navigable list of named boolean
//! flags, fuzzy search, a stable two-key sort, and a diff/commit protocol that
//! pushes only the delta between desired and last-known state to a backend.
//!
//! Everything here is pure logic over plain values; terminal handling,
//! configuration storage and the backend client live outside this crate.

pub mod model;
pub mod models;
pub mod search;
pub mod session;
pub mod sort;
pub mod text;
