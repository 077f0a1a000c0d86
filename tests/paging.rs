use mykernel_mm::address::{Address, Align1G, Align2M, Align4K, Align512G, Unaligned};
use mykernel_mm::allocator::FrameAllocator;
use mykernel_mm::entry::{
    PageTableEntry, PageTableEntryFlags, FLAG_R, FLAG_V, FLAG_W, FLAG_X, KERNEL_PTE_FLAGS,
};
use mykernel_mm::mm_error::Error;
use mykernel_mm::paging::{AlignSize, Sv39};
use mykernel_mm::table::{PageTable, RootPageTable};

fn kernel_flags() -> PageTableEntryFlags {
    PageTableEntryFlags::from_bits_truncate(KERNEL_PTE_FLAGS)
}

#[test]
fn check_alignment_accepts_exact_multiples() {
    assert!(Address::new(0).check_alignment::<Align1G>().is_ok());
    assert!(Address::new(0x4000_0000).check_alignment::<Align1G>().is_ok());
    assert!(Address::new(0x8000_0000).check_alignment::<Align1G>().is_ok());
    assert!(Address::new(0x20_0000).check_alignment::<Align2M>().is_ok());
    assert!(Address::new(0x1000).check_alignment::<Align4K>().is_ok());
    assert!(Address::new(0x80_0000_0000).check_alignment::<Align512G>().is_ok());
    assert!(Address::new(0x1234_5677).check_alignment::<Unaligned>().is_ok());
}

#[test]
fn check_alignment_rejects_one_byte_short() {
    assert_eq!(
        Address::new(0x3fff_ffff).check_alignment::<Align1G>().err(),
        Some(Error::AddressNotAligned)
    );
    assert_eq!(
        Address::new(0x1f_ffff).check_alignment::<Align2M>().err(),
        Some(Error::AddressNotAligned)
    );
    assert_eq!(
        Address::new(0xfff).check_alignment::<Align4K>().err(),
        Some(Error::AddressNotAligned)
    );
    assert!(Address::new(0x7f_ffff_ffff).check_alignment::<Align512G>().is_err());
}

#[test]
fn check_alignment_keeps_the_value() {
    let a = Address::new(0x8020_0000).check_alignment::<Align2M>().ok().unwrap();
    assert_eq!(a.as_usize(), 0x8020_0000);
    assert!(a.is_aligned::<Align4K>());
    assert!(!a.is_aligned::<Align1G>());
}

#[test]
fn address_fields() {
    let a = Address::new(0xffff_ffc0_8020_1abc);
    assert_eq!(a.offset(), 0xabc);
    assert_eq!(a.pn::<0>(), 0x001);
    assert_eq!(a.pn::<1>(), 0x001);
    assert_eq!(a.pn::<2>(), 0x102);
    assert_eq!(a.pn::<3>(), 0x1ff);
    assert_eq!(a.pn::<4>(), 0x1ff);
    assert_eq!(Address::new(0x8000_0000).pn::<2>(), 2);
}

#[test]
fn entry_zero_is_invalid() {
    let e = PageTableEntry::zero();
    assert!(!e.is_valid());
    assert!(!e.is_leaf());
    assert_eq!(e.flags().bits(), 0);
    assert_eq!(e.page_number(), 0);
}

#[test]
fn entry_new_packs_page_and_flags() {
    let e = PageTableEntry::new(0x80000, kernel_flags());
    assert_eq!(e.flags().bits(), 0xcf);
    assert_eq!(e.page_number(), 0x80000);
    assert!(e.is_valid());
    assert!(e.is_leaf());
    assert_eq!(e.ppn::<0>(), 0);
    assert_eq!(e.ppn::<1>(), 0);
    assert_eq!(e.ppn::<2>(), 2);
    assert_eq!(e.ppn_2(), 2);
    let f = PageTableEntry::new(0x1_0203, kernel_flags());
    assert_eq!(f.ppn_0(), 0x003);
    assert_eq!(f.ppn_1(), 0x081);
}

#[test]
fn entry_leaf_needs_read_write_or_execute() {
    let pointer = PageTableEntry::new(5, PageTableEntryFlags::from_bits_truncate(FLAG_V));
    assert!(pointer.is_valid());
    assert!(!pointer.is_leaf());
    for f in [FLAG_R, FLAG_W, FLAG_X] {
        let e = PageTableEntry::new(5, PageTableEntryFlags::from_bits_truncate(FLAG_V | f));
        assert!(e.is_leaf());
    }
    let no_valid = PageTableEntry::new(5, PageTableEntryFlags::from_bits_truncate(FLAG_R));
    assert!(!no_valid.is_valid());
    assert!(!no_valid.is_leaf());
}

#[test]
fn entry_set_flags_keeps_page() {
    let mut e = PageTableEntry::new(0x1_2345, kernel_flags());
    e.set_flags(PageTableEntryFlags::from_bits_truncate(FLAG_V));
    assert_eq!(e.flags().bits(), 1);
    assert_eq!(e.page_number(), 0x1_2345);
}

#[test]
fn entry_reinserting_each_field_is_identity() {
    let e = PageTableEntry::new(0x1234_5678_9abc, kernel_flags());
    let mut copies = [e; 5];
    copies[0].set_ppn::<0>(e.ppn::<0>());
    copies[1].set_ppn::<1>(e.ppn::<1>());
    copies[2].set_ppn::<2>(e.ppn::<2>());
    copies[3].set_ppn::<3>(e.ppn::<3>());
    copies[4].set_ppn::<4>(e.ppn::<4>());
    for c in copies.iter() {
        assert_eq!(c.page_number(), e.page_number());
        assert_eq!(c.flags().bits(), e.flags().bits());
    }
}

#[test]
fn entry_set_ppn_touches_only_its_field() {
    let mut e = PageTableEntry::new(0, kernel_flags());
    e.set_ppn_2(0x3ff);
    assert_eq!(e.ppn_2(), 0x1ff);
    assert_eq!(e.ppn_1(), 0);
    assert_eq!(e.ppn_3(), 0);
    assert_eq!(e.flags().bits(), 0xcf);
    e.set_ppn_0(7);
    e.set_ppn_4(9);
    e.set_ppn_3(1);
    e.set_ppn_1(2);
    assert_eq!(e.ppn_0(), 7);
    assert_eq!(e.ppn_4(), 9);
    assert_eq!(e.ppn_3(), 1);
    assert_eq!(e.ppn_1(), 2);
    assert_eq!(e.ppn_2(), 0x1ff);
}

#[test]
fn page_table_zero() {
    let t = PageTable::zero();
    assert_eq!(t.ppn(), 0);
    assert!(!t.entry(0).is_valid());
    assert!(!t.entry(511).is_valid());
}

#[test]
fn satp_of_zero_table() {
    let root = RootPageTable::<Sv39>::zero();
    assert_eq!(root.satp(0), 8u64 << 60);
    assert_eq!(root.ppn(), 0);
}

#[test]
fn satp_packs_asid_and_page() {
    let root = RootPageTable::<Sv39>::located_at(0x80200);
    assert_eq!(root.satp(3), (8u64 << 60) | (3u64 << 44) | 0x80200);
    assert_eq!(root.satp(0x1_0001), (8u64 << 60) | (1u64 << 44) | 0x80200);
}

#[test]
fn zero_table_translates_nothing() {
    let root = RootPageTable::<Sv39>::zero();
    assert!(root.translate::<()>(Address::new(0x8000_0000)).is_none());
}

#[test]
fn map_gigapage_then_translate() {
    let mut root = RootPageTable::<Sv39>::zero();
    let mut frames = FrameAllocator::<Sv39>::new();
    let v = 0xffff_ffc0_8000_0000usize;
    let p = 0x8000_0000usize;
    let r = root.map(&mut frames, Address::new(v), Address::new(p), AlignSize::Page1G, kernel_flags());
    assert_eq!(r, Ok(()));
    let q = root.translate::<()>(Address::new(v)).unwrap();
    assert_eq!(q.as_usize(), p);
    let q = root.translate::<()>(Address::new(v + 0x1234_5678)).unwrap();
    assert_eq!(q.as_usize() >> 30, p >> 30);
    assert_eq!(q.as_usize() & 0x3fff_ffff, 0x1234_5678);
    assert!(root.translate::<()>(Address::new(0x4000_0000)).is_none());
}

#[test]
fn map_identity_and_high_gigapages() {
    let mut root = RootPageTable::<Sv39>::zero();
    let mut frames = FrameAllocator::<Sv39>::new();
    let p = Address::new(0x8000_0000);
    let v = Address::new(0xffff_ffc0_8000_0000);
    assert!(root.map(&mut frames, p, p, AlignSize::Page1G, kernel_flags()).is_ok());
    assert!(root.map(&mut frames, v, p, AlignSize::Page1G, kernel_flags()).is_ok());
    assert_eq!(root.translate::<()>(Address::new(0x8000_1000)).unwrap().as_usize(), 0x8000_1000);
    assert_eq!(
        root.translate::<()>(Address::new(0xffff_ffc0_8000_1000)).unwrap().as_usize(),
        0x8000_1000
    );
}

#[test]
fn map_unsupported_granularity_changes_nothing() {
    let mut root = RootPageTable::<Sv39>::zero();
    let mut frames = FrameAllocator::<Sv39>::new();
    let a = Address::new(0x80_0000_0000);
    let r = root.map(&mut frames, a, a, AlignSize::Page512G, kernel_flags());
    assert_eq!(r, Err(Error::OutOfMemory));
    assert!(root.translate::<()>(a).is_none());
    assert_eq!(root.satp(0), 8u64 << 60);
}

#[test]
fn map_rejects_misaligned_addresses() {
    let mut root = RootPageTable::<Sv39>::zero();
    let mut frames = FrameAllocator::<Sv39>::new();
    let good = Address::new(0x4000_0000);
    let short = Address::new(0x3fff_ffff);
    assert_eq!(
        root.map(&mut frames, short, good, AlignSize::Page1G, kernel_flags()),
        Err(Error::AddressNotAligned)
    );
    assert_eq!(
        root.map(&mut frames, good, short, AlignSize::Page1G, kernel_flags()),
        Err(Error::AddressNotAligned)
    );
    assert!(root.translate::<()>(good).is_none());
    assert_eq!(root.map(&mut frames, good, good, AlignSize::Page1G, kernel_flags()), Ok(()));
}

#[test]
fn map_small_page_allocates_tables() {
    let mut root = RootPageTable::<Sv39>::zero();
    let mut frames = FrameAllocator::<Sv39>::new();
    frames.init(0x8040_0000, 0x100_0000);
    let v = Address::new(0x1000_3000);
    let p = Address::new(0x8700_5000);
    assert_eq!(root.map(&mut frames, v, p, AlignSize::Page4K, kernel_flags()), Ok(()));
    assert_eq!(root.translate::<()>(Address::new(0x1000_3abc)).unwrap().as_usize(), 0x8700_5abc);
    assert!(root.translate::<()>(Address::new(0x1000_4000)).is_none());
    assert_eq!(root.table_count(), 3);
    let level1 = root.table(1);
    assert_eq!(level1.ppn() << 12, 0x8040_0000);
    let pointer = root.table(0).entry(0);
    assert!(pointer.is_valid() && !pointer.is_leaf());
    assert_eq!(pointer.bits(), ((0x8040_0u64) << 10) | 1);
    let v2 = Address::new(0x1020_0000);
    let p2 = Address::new(0x8800_0000);
    assert_eq!(root.map(&mut frames, v2, p2, AlignSize::Page2M, kernel_flags()), Ok(()));
    assert_eq!(root.translate::<()>(Address::new(0x1021_2345)).unwrap().as_usize(), 0x8801_2345);
    assert_eq!(root.translate::<()>(Address::new(0x1000_3abc)).unwrap().as_usize(), 0x8700_5abc);
}

#[test]
fn map_under_a_gigapage_is_refused() {
    let mut root = RootPageTable::<Sv39>::zero();
    let mut frames = FrameAllocator::<Sv39>::new();
    frames.init(0x8040_0000, 0x100_0000);
    let g = Address::new(0x4000_0000);
    assert_eq!(root.map(&mut frames, g, g, AlignSize::Page1G, kernel_flags()), Ok(()));
    let small = Address::new(0x4000_1000);
    assert_eq!(
        root.map(&mut frames, small, small, AlignSize::Page4K, kernel_flags()),
        Err(Error::AlreadyMapped)
    );
}

#[test]
fn map_small_page_without_frames_fails() {
    let mut root = RootPageTable::<Sv39>::zero();
    let mut frames = FrameAllocator::<Sv39>::new();
    let a = Address::new(0x1000);
    assert_eq!(
        root.map(&mut frames, a, a, AlignSize::Page4K, kernel_flags()),
        Err(Error::OutOfMemory)
    );
}

#[test]
fn align_size_values() {
    assert_eq!(AlignSize::Page4K.bytes(), 0x1000);
    assert_eq!(AlignSize::Page2M.bytes(), 0x20_0000);
    assert_eq!(AlignSize::Page1G.bytes(), 0x4000_0000);
    assert_eq!(AlignSize::Page512G.bytes(), 0x80_0000_0000);
    assert_eq!(AlignSize::Page1G.level(), 2);
}

#[test]
fn map_gigapage_writes_root_entry() {
    let mut root = RootPageTable::<Sv39>::zero();
    let mut frames = FrameAllocator::<Sv39>::new();
    let a = Address::new(0x8000_0000);
    assert_eq!(root.map(&mut frames, a, a, AlignSize::Page1G, kernel_flags()), Ok(()));
    assert_eq!(root.table_count(), 1);
    let e = root.table(0).entry(2);
    assert!(e.is_valid() && e.is_leaf());
    assert_eq!(e.ppn::<2>(), 2);
    assert_eq!(e.ppn::<0>(), 0);
    assert_eq!(e.flags().bits(), KERNEL_PTE_FLAGS);
    for i in 0..512 {
        if i != 2 {
            assert!(!root.table(0).entry(i).is_valid());
        }
    }
}
