use chunk_layout::layout::elem_size_align;
use chunk_layout::memory::{Layout, LayoutError};

#[test]
fn layout_keeps_size_and_align() {
    let layout = Layout::from_size_align(24, 8).unwrap();
    assert_eq!(layout.size(), 24);
    assert_eq!(layout.align(), 8);
    let layout = Layout::from_size_align(0, 1).unwrap();
    assert_eq!(layout.size(), 0);
    assert_eq!(layout.align(), 1);
}

#[test]
fn alignment_must_be_a_power_of_two() {
    assert_eq!(Layout::from_size_align(8, 0), Err(LayoutError));
    assert_eq!(Layout::from_size_align(8, 3), Err(LayoutError));
    assert_eq!(Layout::from_size_align(8, 6), Err(LayoutError));
    assert_eq!(Layout::from_size_align(8, 12), Err(LayoutError));
    assert_eq!(Layout::from_size_align(0, usize::MAX), Err(LayoutError));
    for shift in 0..usize::BITS {
        assert!(Layout::from_size_align(0, 1usize << shift).is_ok());
    }
}

#[test]
fn padded_size_must_fit_usize() {
    assert!(Layout::from_size_align(usize::MAX, 1).is_ok());
    assert_eq!(Layout::from_size_align(usize::MAX, 2), Err(LayoutError));
    assert!(Layout::from_size_align(usize::MAX - 1, 2).is_ok());
    assert_eq!(Layout::from_size_align(usize::MAX - 2, 4), Err(LayoutError));
    assert!(Layout::from_size_align(usize::MAX - 3, 4).is_ok());
    let top = 1usize << (usize::BITS - 1);
    assert!(Layout::from_size_align(top, top).is_ok());
    assert_eq!(Layout::from_size_align(top + 1, top), Err(LayoutError));
    assert!(Layout::from_size_align(1, top).is_ok());
    assert_eq!(elem_size_align(Layout::from_size_align(1, top).unwrap()), (top, top));
}

#[test]
fn layout_of_a_type() {
    let layout = Layout::new::<u64>();
    assert_eq!(layout.size(), std::mem::size_of::<u64>());
    assert_eq!(layout.align(), std::mem::align_of::<u64>());
    let layout = Layout::new::<[u8; 3]>();
    assert_eq!((layout.size(), layout.align()), (3, 1));
    let layout = Layout::new::<()>();
    assert_eq!((layout.size(), layout.align()), (0, 1));
    assert_eq!(elem_size_align(layout), (1, 1));
    let layout = Layout::new::<(u8, u32)>();
    assert_eq!(layout.size(), std::mem::size_of::<(u8, u32)>());
    assert_eq!(layout.align(), std::mem::align_of::<(u8, u32)>());
}

#[test]
fn layouts_compare_by_size_and_align() {
    let a = Layout::from_size_align(24, 8).unwrap();
    assert_eq!(a, Layout::from_size_align(24, 8).unwrap());
    assert_ne!(a, Layout::from_size_align(24, 4).unwrap());
    assert_ne!(a, Layout::from_size_align(16, 8).unwrap());
    assert_eq!(a.clone(), a);
}
