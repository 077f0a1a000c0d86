use mykernel_mm::allocator::{Error, FrameAllocator};
use mykernel_mm::paging::Sv39;

fn overlaps(a: (usize, usize), b: (usize, usize)) -> bool {
    a.0 < b.0 + b.1 && b.0 < a.0 + a.1
}

#[test]
fn alloc_in_region_is_aligned_and_inside() {
    let mut frames = FrameAllocator::<Sv39>::new();
    frames.init(0x8040_0000, 0x100_0000);
    let f = frames.alloc_frame(0x80_0000).ok().unwrap();
    assert_eq!(f.align(), 0x20_0000);
    assert_eq!(f.addr() % 0x20_0000, 0);
    assert!(f.addr() >= 0x8040_0000);
    assert!(f.addr() + f.size() <= 0x8140_0000);
}

#[test]
fn alloc_larger_than_region_fails() {
    let mut frames = FrameAllocator::<Sv39>::new();
    frames.init(0x8040_0000, 0x100_0000);
    assert!(matches!(frames.alloc_frame(0x800_0000), Err(Error::OutOfMemory)));
}

#[test]
fn alloc_before_init_fails() {
    let mut frames = FrameAllocator::<Sv39>::new();
    assert!(matches!(frames.alloc_frame(0x1000), Err(Error::OutOfMemory)));
}

#[test]
fn alloc_with_impossible_layout_fails() {
    let mut frames = FrameAllocator::<Sv39>::new();
    frames.init(0x8040_0000, 0x100_0000);
    assert!(matches!(frames.alloc_frame(usize::MAX - 10), Err(Error::LayoutError(_))));
}

#[test]
fn alignment_classes() {
    assert_eq!(FrameAllocator::<Sv39>::fit_align_from_size(1), 0x1000);
    assert_eq!(FrameAllocator::<Sv39>::fit_align_from_size(0x10_0000), 0x1000);
    assert_eq!(FrameAllocator::<Sv39>::fit_align_from_size(0x10_0001), 0x20_0000);
    assert_eq!(FrameAllocator::<Sv39>::fit_align_from_size(0x2000_0000), 0x20_0000);
    assert_eq!(FrameAllocator::<Sv39>::fit_align_from_size(0x2000_0001), 0x4000_0000);
}

#[test]
fn successive_allocs_do_not_overlap() {
    let mut frames = FrameAllocator::<Sv39>::new();
    frames.init(0x8040_0000, 0x100_0000);
    let sizes = [0x1000usize, 0x3000, 0x20_0000, 0x10_0000, 0x1000, 0x40_0000];
    let mut got: Vec<(usize, usize)> = Vec::new();
    let mut held = Vec::new();
    for s in sizes {
        let f = frames.alloc_frame(s).ok().unwrap();
        assert!(f.addr() >= 0x8040_0000 && f.addr() + s <= 0x8140_0000);
        assert_eq!(f.addr() % f.align(), 0);
        for g in got.iter() {
            assert!(!overlaps(*g, (f.addr(), s)));
        }
        got.push((f.addr(), s));
        held.push(f);
    }
    assert!(matches!(frames.alloc_frame(0x100_0000), Err(Error::OutOfMemory)));
    for f in held {
        frames.dealloc(f);
    }
}

#[test]
fn returned_frames_can_be_reused() {
    let mut frames = FrameAllocator::<Sv39>::new();
    frames.init(0x8040_0000, 0x100_0000);
    for _ in 0..100 {
        let f = frames.alloc_frame(0x80_0000).ok().unwrap();
        frames.dealloc(f);
    }
    let a = frames.alloc_frame(0x80_0000).ok().unwrap();
    assert!(matches!(frames.alloc_frame(0x80_0000), Err(Error::OutOfMemory)));
    frames.dealloc(a);
    assert!(frames.alloc_frame(0x80_0000).is_ok());
}

#[test]
fn second_init_is_ignored() {
    let mut frames = FrameAllocator::<Sv39>::new();
    frames.init(0x8040_0000, 0x1000);
    frames.init(0x9000_0000, 0x100_0000);
    let f = frames.alloc_frame(0x1000).ok().unwrap();
    assert_eq!(f.addr(), 0x8040_0000);
    assert!(matches!(frames.alloc_frame(0x1000), Err(Error::OutOfMemory)));
}
