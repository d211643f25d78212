//! How an allocator says what chunk it wants for a kind of element.

use vstd::prelude::*;
use vstd::layout::{align_of, size_of};
use crate::layout::ChunkLayout;
use crate::memory::{Layout, LayoutView};

verus! {

/// An allocator that sizes a chunk from the element layout alone.
pub trait FastChunk {
    /// A chunk layout for elements of layout `elem_layout`: it holds at
    /// least one of them, and its slots have the padded size and the
    /// alignment of the element.
    fn fast_chunk_layout(&self, elem_layout: Layout) -> (chunk: ChunkLayout)
        ensures
            chunk@.len >= 1,
            chunk@.elem() == elem_layout@.padded(),
    ;

    /// A chunk layout for elements of type `T`.
    fn fast_array_layout<T>(&self) -> (chunk: ChunkLayout)
        ensures
            chunk@.len >= 1,
            chunk@.elem() == (LayoutView { size: size_of::<T>(), align: align_of::<T>() }).padded(),
    {
        self.fast_chunk_layout(Layout::new::<T>())
    }
}

/// An allocator that sizes a chunk from the element layout and a number of
/// bytes that it may reserve ahead of need.
pub trait BulkChunk {
    /// A chunk layout for elements of layout `elem_layout`: it holds at
    /// least one of them, and its slots have the padded size and the
    /// alignment of the element. What `overcommit_hint` does to the number
    /// of elements is the allocator's to decide.
    fn bulk_chunk_layout(&self, elem_layout: Layout, overcommit_hint: usize) -> (chunk:
        ChunkLayout)
        ensures
            chunk@.len >= 1,
            chunk@.elem() == elem_layout@.padded(),
    ;

    /// A chunk layout for elements of type `T`.
    fn bulk_array_layout<T>(&self, overcommit_hint: usize) -> (chunk: ChunkLayout)
        ensures
            chunk@.len >= 1,
            chunk@.elem() == (LayoutView { size: size_of::<T>(), align: align_of::<T>() }).padded(),
    {
        self.bulk_chunk_layout(Layout::new::<T>(), overcommit_hint)
    }
}

} // verus!
