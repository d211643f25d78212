use chunk_layout::layout::ChunkLayout;
use chunk_layout::memory::Layout;
use chunk_layout::traits::{BulkChunk, FastChunk};

struct Paged {
    page: usize,
}

impl FastChunk for Paged {
    fn fast_chunk_layout(&self, elem_layout: Layout) -> ChunkLayout {
        ChunkLayout::fit_capacity_or_one(elem_layout, self.page)
    }
}

impl BulkChunk for Paged {
    fn bulk_chunk_layout(&self, elem_layout: Layout, overcommit_hint: usize) -> ChunkLayout {
        let capacity = self.page.max(overcommit_hint);
        ChunkLayout::fit_capacity_or_one_po2(elem_layout, capacity).0
    }
}

#[test]
fn fast_chunk_sizes_from_the_element_layout() {
    let paged = Paged { page: 4096 };
    let chunk = paged.fast_chunk_layout(Layout::from_size_align(24, 8).unwrap());
    assert_eq!(chunk.len(), 170);
    assert_eq!(Layout::from(chunk).size(), 4080);
    assert_eq!(chunk.elem(), Layout::from_size_align(24, 8).unwrap());
}

#[test]
fn fast_array_layout_takes_the_layout_of_the_type() {
    let paged = Paged { page: 4096 };
    let chunk = paged.fast_array_layout::<u64>();
    assert_eq!(chunk, paged.fast_chunk_layout(Layout::new::<u64>()));
    assert_eq!(chunk.len(), 4096 / std::mem::size_of::<u64>());
    assert_eq!(chunk.elem(), Layout::new::<u64>());
    let chunk = paged.fast_array_layout::<()>();
    assert_eq!(chunk.len(), 4096);
    assert_eq!(chunk.elem(), Layout::from_size_align(1, 1).unwrap());
}

#[test]
fn bulk_chunk_takes_the_hint() {
    let paged = Paged { page: 4096 };
    let elem = Layout::from_size_align(24, 8).unwrap();
    let chunk = paged.bulk_chunk_layout(elem, 0);
    assert_eq!(chunk.len(), 128);
    assert_eq!(Layout::from(chunk).size(), 3072);
    let chunk = paged.bulk_chunk_layout(elem, 100_000);
    assert_eq!(chunk.len(), 4096);
    assert_eq!(Layout::from(chunk).size(), 98_304);
    assert_eq!(chunk.elem(), elem);
}

#[test]
fn bulk_array_layout_takes_the_layout_of_the_type() {
    let paged = Paged { page: 64 };
    let chunk = paged.bulk_array_layout::<u16>(1000);
    assert_eq!(chunk, paged.bulk_chunk_layout(Layout::new::<u16>(), 1000));
    assert_eq!(chunk.len(), 256);
    assert_eq!(chunk.elem(), Layout::new::<u16>());
    let chunk = paged.bulk_array_layout::<[u8; 100]>(0);
    assert_eq!(chunk.len(), 1);
    assert_eq!(Layout::from(chunk).size(), 100);
}
