//! Verified core of `ocu`: command-line parsing, usage snapshot building,
//! card layout arithmetic and terminal frame encoding.

pub mod args;
pub mod clock;
pub mod remote;
pub mod render;
pub mod snapshot;
pub mod terminal;
pub mod text;
