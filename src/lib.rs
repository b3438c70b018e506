//! Byte search and HTTP request-line tokenizing over fixed-size byte blocks.
//!
//! Blocks ("vectors") are byte arrays; each lane-wise operation is a loop
//! over the lanes whose result its contract pins down.

pub mod buffer;
pub mod offset;
pub mod parser;
pub mod parts;
pub mod utils;
