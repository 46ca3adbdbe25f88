//! Echoes what a terminal in raw mode sends: the bytes of every escape
//! sequence in legible form, next to the input event they decode to.

pub mod config;
pub mod decode;
pub mod event;
pub mod quit;
pub mod render;
pub mod segment;
pub mod session;
