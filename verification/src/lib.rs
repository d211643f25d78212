//! Sizing of contiguous chunks of equally laid out elements.
//!
//! Given the layout of one element and a budget in bytes, the functions of
//! this crate decide how many elements a single backing allocation should
//! hold and what the layout of that allocation is. Nothing is allocated here.

pub mod arith;
pub mod layout;
pub mod memory;
pub mod traits;

pub use layout::ChunkLayout;
pub use memory::{Layout, LayoutError};
pub use traits::{BulkChunk, FastChunk};
