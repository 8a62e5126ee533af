//! A lightweight cursor for non-linear parsing of slices, with its
//! behaviour stated as contracts and proved.
//!
//! `Tape` wraps a slice with a position cursor and offers scanning,
//! backtracking and consuming operations that never allocate.

pub mod bytes;
pub mod laws;
pub mod search;
pub mod tape;
pub mod traits;

pub use traits::{CharExt, SliceExt, ToTape};

pub use tape::Tape;
