//! Fixed byte offsets at which a parsed request is laid out in its buffer.
use vstd::prelude::*;

verus! {

/// Number of headers, as a `u16`.
pub const HEADER_COUNT_OFFSET: usize = 8;

/// Length of the header block, as a `u16`.
pub const HEADER_LENGTH_OFFSET: usize = 10;

pub const METHOD_OFFSET: usize = 16;

pub const VERSION_OFFSET: usize = 24;

/// Start of the path, half-way through a page so that it cannot overlap
/// the request while that is copied.
pub const PATH_OFFSET: usize = 4096;

pub const HEADER_OFFSET: usize = 32;

} // verus!
