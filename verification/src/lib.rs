//! A bump arena over a byte buffer that the caller owns.
//!
//! [`Alloc`] borrows a buffer and hands out one region after another from its
//! front. Before each region it skips as many padding bytes as the item's
//! alignment asks for, and it never takes a region back. The only failure is
//! [`OutOfMemory`].
//!
//! Contracts speak of an arena through its view, [`Arena`]: the address of
//! the buffer, its bytes, and the offset up to which they are consumed.
pub mod bump;
pub mod model;
pub mod plain;

pub use bump::{Alloc, AllocResult, OutOfMemory};
pub use model::{Arena, Request};
pub use plain::Plain;
