//! The packed 64-bit page-table entry and its flag byte.
use vstd::prelude::*;

verus! {

/// Valid: the entry takes part in translation.
pub const FLAG_V: usize = 0b0000_0001;
/// Readable.
pub const FLAG_R: usize = 0b0000_0010;
/// Writable.
pub const FLAG_W: usize = 0b0000_0100;
/// Executable.
pub const FLAG_X: usize = 0b0000_1000;
/// Accessible from user mode.
pub const FLAG_U: usize = 0b0001_0000;
/// Global mapping.
pub const FLAG_G: usize = 0b0010_0000;
/// Accessed.
pub const FLAG_A: usize = 0b0100_0000;
/// Dirty.
pub const FLAG_D: usize = 0b1000_0000;

/// Flags of the kernel's own mappings: valid, readable, writable,
/// executable, accessed and dirty.
pub const KERNEL_PTE_FLAGS: usize = FLAG_V | FLAG_R | FLAG_W | FLAG_X | FLAG_A | FLAG_D;

/// Bits of an entry that hold its flags.
pub const FLAGS_MASK: u64 = 0xff;
/// Bits reserved for the supervisor's own use.
pub const RSW_MASK: u64 = 0x300;
/// Bits of the five page-number fields of an entry.
pub const PPN_0_MASK: u64 = 0x7_fc00;
pub const PPN_1_MASK: u64 = 0xff8_0000;
pub const PPN_2_MASK: u64 = 0x1f_f000_0000;
pub const PPN_3_MASK: u64 = 0x3fe0_0000_0000;
pub const PPN_4_MASK: u64 = 0x7f_c000_0000_0000;
/// Bits of an entry that no field uses.
pub const UNUSED_MASK: u64 = 0xff80_0000_0000_0000;

/// The masks of an entry cover all 64 bits, each bit exactly once.
pub proof fn lemma_entry_masks_partition()
    ensures
        FLAGS_MASK ^ RSW_MASK ^ PPN_0_MASK ^ PPN_1_MASK ^ PPN_2_MASK ^ PPN_3_MASK ^ PPN_4_MASK
            ^ UNUSED_MASK == u64::MAX,
        FLAGS_MASK | RSW_MASK | PPN_0_MASK | PPN_1_MASK | PPN_2_MASK | PPN_3_MASK | PPN_4_MASK
            | UNUSED_MASK == u64::MAX,
{
    assert(0xffu64 ^ 0x300u64 ^ 0x7_fc00u64 ^ 0xff8_0000u64 ^ 0x1f_f000_0000u64
        ^ 0x3fe0_0000_0000u64 ^ 0x7f_c000_0000_0000u64 ^ 0xff80_0000_0000_0000u64 == 0xffff_ffff_ffff_ffffu64)
        by (bit_vector);
    assert(0xffu64 | 0x300u64 | 0x7_fc00u64 | 0xff8_0000u64 | 0x1f_f000_0000u64
        | 0x3fe0_0000_0000u64 | 0x7f_c000_0000_0000u64 | 0xff80_0000_0000_0000u64 == 0xffff_ffff_ffff_ffffu64)
        by (bit_vector);
}

/// The flag byte of an entry.
#[derive(Clone, Copy, Debug, PartialEq, Eq, Structural)]
pub struct PageTableEntryFlags {
    bits: u8,
}

impl View for PageTableEntryFlags {
    type V = u8;

    closed spec fn view(&self) -> u8 {
        self.bits
    }
}

impl PageTableEntryFlags {
    /// The flags whose bits are the low eight bits of `bits`; the rest are
    /// dropped.
    pub fn from_bits_truncate(bits: usize) -> (r: PageTableEntryFlags)
        ensures
            r@ as int == bits as int % 256,
    {
        PageTableEntryFlags { bits: (bits % 256) as u8 }
    }

    /// No flag set.
    pub fn empty() -> (r: PageTableEntryFlags)
        ensures
            r@ == 0,
    {
        PageTableEntryFlags { bits: 0 }
    }

    /// The flags as an integer.
    pub fn bits(&self) -> (r: usize)
        ensures
            r == self@ as usize,
    {
        self.bits as usize
    }

    /// Whether every flag of `other` is set in `self`.
    pub fn contains(&self, other: PageTableEntryFlags) -> (r: bool)
        ensures
            r == (self@ & other@ == other@),
    {
        self.bits & other.bits == other.bits
    }
}

/// The `n`-th nine-bit page-number field of the entry `e`, at bit `10 + 9 * n`.
pub open spec fn ppn_field(e: u64, n: nat) -> u64 {
    (e >> (10 + 9 * n) as u64) & 0x1ff
}

/// The entry `e` with its `n`-th page-number field replaced by the low nine
/// bits of `v`, and every other bit kept.
pub open spec fn with_ppn_field(e: u64, n: nat, v: u64) -> u64 {
    (e & !(0x1ffu64 << (10 + 9 * n) as u64)) | ((v & 0x1ff) << (10 + 9 * n) as u64)
}

/// The whole physical page number of `e`: its 45 bits from bit 10.
pub open spec fn page_number_of(e: u64) -> u64 {
    (e >> 10) & 0x1fff_ffff_ffff
}

/// `e` has its Valid flag set.
pub open spec fn valid_entry(e: u64) -> bool {
    e & 1 != 0
}

/// `e` is valid and at least one of Read, Write, Execute is set.
pub open spec fn leaf_entry(e: u64) -> bool {
    e & 1 != 0 && e & 0xe != 0
}

/// One entry of a page table, as the hardware reads it.
#[derive(Clone, Copy)]
pub struct PageTableEntry(u64);

impl View for PageTableEntry {
    type V = u64;

    closed spec fn view(&self) -> u64 {
        self.0
    }
}

impl PageTableEntry {
    /// The invalid entry: every bit clear.
    pub fn zero() -> (r: PageTableEntry)
        ensures
            r@ == 0,
    {
        PageTableEntry(0)
    }

    /// The entry naming page `ppn` with `flags`.
    pub fn new(ppn: usize, flags: PageTableEntryFlags) -> (r: PageTableEntry)
        requires
            ppn < 0x2000_0000_0000,
        ensures
            r@ == ((ppn as u64) << 10) | (flags@ as u64),
            page_number_of(r@) == ppn as u64,
            r@ & 0xff == flags@ as u64,
    {
        PageTableEntry::with_page(ppn as u64, flags)
    }

    /// The entry naming page `ppn`, given as a 64-bit number, with `flags`.
    pub fn with_page(ppn: u64, flags: PageTableEntryFlags) -> (r: PageTableEntry)
        requires
            ppn < 0x2000_0000_0000,
        ensures
            r@ == (ppn << 10) | (flags@ as u64),
            page_number_of(r@) == ppn,
            r@ & 0xff == flags@ as u64,
    {
        let p = ppn;
        let f = flags.bits as u64;
        assert(f <= 0xff);
        assert(p < 0x2000_0000_0000 && f <= 0xff ==> ((p << 10) | f) >> 10 & 0x1fff_ffff_ffff == p)
            by (bit_vector);
        assert(f <= 0xff ==> ((p << 10) | f) & 0xff == f) by (bit_vector);
        PageTableEntry((p << 10) | f)
    }

    /// The entry as the 64-bit word the hardware reads.
    pub fn bits(&self) -> (r: u64)
        ensures
            r == self@,
    {
        self.0
    }

    /// The flag byte of the entry.
    pub fn flags(&self) -> (r: PageTableEntryFlags)
        ensures
            r@ as u64 == self@ & 0xff,
    {
        let x = self.0;
        assert(x & 0xff <= 0xff) by (bit_vector);
        PageTableEntryFlags { bits: (x & FLAGS_MASK) as u8 }
    }

    /// Replaces the flag byte, keeping every other bit.
    pub fn set_flags(&mut self, flags: PageTableEntryFlags)
        ensures
            final(self)@ == (old(self)@ & !0xffu64) | (flags@ as u64),
            final(self)@ & 0xff == flags@ as u64,
            final(self)@ & !0xffu64 == old(self)@ & !0xffu64,
    {
        let x = self.0;
        let f = flags.bits as u64;
        assert(f <= 0xff);
        assert(f <= 0xff ==> ((x & !0xffu64) | f) & 0xff == f) by (bit_vector);
        assert(f <= 0xff ==> ((x & !0xffu64) | f) & !0xffu64 == x & !0xffu64) by (bit_vector);
        self.0 = (x & !FLAGS_MASK) | f;
    }

    /// The whole physical page number the entry names.
    pub fn page_number(&self) -> (r: u64)
        ensures
            r == page_number_of(self@),
            r < 0x2000_0000_0000,
    {
        let x = self.0;
        assert((x >> 10) & 0x1fff_ffff_ffff <= 0x1fff_ffff_ffff) by (bit_vector);
        (x >> 10) & 0x1fff_ffff_ffff
    }

    /// The `N`-th page-number field of the entry.
    pub fn ppn<const N: usize>(&self) -> (r: usize)
        requires
            N < 5,
        ensures
            r as u64 == ppn_field(self@, N as nat),
            r < 512,
    {
        if N == 0 {
            self.ppn_0()
        } else if N == 1 {
            self.ppn_1()
        } else if N == 2 {
            self.ppn_2()
        } else if N == 3 {
            self.ppn_3()
        } else {
            self.ppn_4()
        }
    }

    /// Replaces the `N`-th page-number field with the low nine bits of `ppn`.
    pub fn set_ppn<const N: usize>(&mut self, ppn: usize)
        requires
            N < 5,
        ensures
            final(self)@ == with_ppn_field(old(self)@, N as nat, ppn as u64),
    {
        if N == 0 {
            self.set_ppn_0(ppn)
        } else if N == 1 {
            self.set_ppn_1(ppn)
        } else if N == 2 {
            self.set_ppn_2(ppn)
        } else if N == 3 {
            self.set_ppn_3(ppn)
        } else {
            self.set_ppn_4(ppn)
        }
    }

    /// Page-number field 0 (bits 10 to 18).
    pub fn ppn_0(&self) -> (r: usize)
        ensures
            r as u64 == ppn_field(self@, 0),
            r < 512,
    {
        let v = (self.0 >> 10) & 0x1ff;
        proof {
            lemma_nine_bits(self.0 >> 10);
        }
        v as usize
    }

    /// Replaces page-number field 0 with the low nine bits of `ppn`.
    pub fn set_ppn_0(&mut self, ppn: usize)
        ensures
            final(self)@ == with_ppn_field(old(self)@, 0, ppn as u64),
    {
        let x = self.0;
        let p = ppn as u64;
        self.0 = (x & !(0x1ffu64 << 10u64)) | ((p & 0x1ff) << 10u64);
    }

    /// Page-number field 1 (bits 19 to 27).
    pub fn ppn_1(&self) -> (r: usize)
        ensures
            r as u64 == ppn_field(self@, 1),
            r < 512,
    {
        let v = (self.0 >> 19) & 0x1ff;
        proof {
            lemma_nine_bits(self.0 >> 19);
        }
        v as usize
    }

    /// Replaces page-number field 1 with the low nine bits of `ppn`.
    pub fn set_ppn_1(&mut self, ppn: usize)
        ensures
            final(self)@ == with_ppn_field(old(self)@, 1, ppn as u64),
    {
        let x = self.0;
        let p = ppn as u64;
        self.0 = (x & !(0x1ffu64 << 19u64)) | ((p & 0x1ff) << 19u64);
    }

    /// Page-number field 2 (bits 28 to 36).
    pub fn ppn_2(&self) -> (r: usize)
        ensures
            r as u64 == ppn_field(self@, 2),
            r < 512,
    {
        let v = (self.0 >> 28) & 0x1ff;
        proof {
            lemma_nine_bits(self.0 >> 28);
        }
        v as usize
    }

    /// Replaces page-number field 2 with the low nine bits of `ppn`.
    pub fn set_ppn_2(&mut self, ppn: usize)
        ensures
            final(self)@ == with_ppn_field(old(self)@, 2, ppn as u64),
    {
        let x = self.0;
        let p = ppn as u64;
        self.0 = (x & !(0x1ffu64 << 28u64)) | ((p & 0x1ff) << 28u64);
    }

    /// Page-number field 3 (bits 37 to 45).
    pub fn ppn_3(&self) -> (r: usize)
        ensures
            r as u64 == ppn_field(self@, 3),
            r < 512,
    {
        let v = (self.0 >> 37) & 0x1ff;
        proof {
            lemma_nine_bits(self.0 >> 37);
        }
        v as usize
    }

    /// Replaces page-number field 3 with the low nine bits of `ppn`.
    pub fn set_ppn_3(&mut self, ppn: usize)
        ensures
            final(self)@ == with_ppn_field(old(self)@, 3, ppn as u64),
    {
        let x = self.0;
        let p = ppn as u64;
        self.0 = (x & !(0x1ffu64 << 37u64)) | ((p & 0x1ff) << 37u64);
    }

    /// Page-number field 4 (bits 46 to 54).
    pub fn ppn_4(&self) -> (r: usize)
        ensures
            r as u64 == ppn_field(self@, 4),
            r < 512,
    {
        let v = (self.0 >> 46) & 0x1ff;
        proof {
            lemma_nine_bits(self.0 >> 46);
        }
        v as usize
    }

    /// Replaces page-number field 4 with the low nine bits of `ppn`.
    pub fn set_ppn_4(&mut self, ppn: usize)
        ensures
            final(self)@ == with_ppn_field(old(self)@, 4, ppn as u64),
    {
        let x = self.0;
        let p = ppn as u64;
        self.0 = (x & !(0x1ffu64 << 46u64)) | ((p & 0x1ff) << 46u64);
    }

    /// Whether the Valid flag is set.
    pub fn is_valid(&self) -> (r: bool)
        ensures
            r == valid_entry(self@),
    {
        self.0 & 1 != 0
    }

    /// Whether the entry is valid and names a page directly: at least one of
    /// Read, Write, Execute is set.
    pub fn is_leaf(&self) -> (r: bool)
        ensures
            r == leaf_entry(self@),
    {
        self.0 & 1 != 0 && self.0 & 0b1110 != 0
    }
}

/// Reading a page-number field and writing the value back leaves the entry
/// unchanged, for each of the five fields.
pub proof fn lemma_ppn_reinsert(e: u64, n: nat)
    requires
        n < 5,
    ensures
        with_ppn_field(e, n, ppn_field(e, n)) == e,
{
    let s = (10 + 9 * n) as u64;
    assert(s <= 46);
    assert(s <= 46 ==> ((e & !(0x1ffu64 << s)) | ((((e >> s) & 0x1ff) & 0x1ff) << s)) == e)
        by (bit_vector);
}

/// Nine bits masked out of a word are less than 512.
pub proof fn lemma_nine_bits(x: u64)
    ensures
        x & 0x1ff < 512,
{
    assert(x & 0x1ff < 512) by (bit_vector);
}

/// Writing a page-number field leaves the other fields and the flags as they
/// were, and the written field then reads back as the low nine bits written.
pub proof fn lemma_ppn_write_is_local(e: u64, n: nat, m: nat, v: u64)
    requires
        n < 5,
        m < 5,
    ensures
        ppn_field(with_ppn_field(e, n, v), n) == v & 0x1ff,
        m != n ==> ppn_field(with_ppn_field(e, n, v), m) == ppn_field(e, m),
        with_ppn_field(e, n, v) & 0x3ff == e & 0x3ff,
{
    let s = (10 + 9 * n) as u64;
    let t = (10 + 9 * m) as u64;
    assert(s <= 46 && t <= 46);
    assert(s <= 46 ==> (((e & !(0x1ffu64 << s)) | ((v & 0x1ff) << s)) >> s) & 0x1ff == v & 0x1ff)
        by (bit_vector);
    assert(s <= 46 && t <= 46 && (s + 9 <= t || t + 9 <= s) ==> (((e & !(0x1ffu64 << s)) | ((v
        & 0x1ff) << s)) >> t) & 0x1ff == (e >> t) & 0x1ff) by (bit_vector);
    assert(s >= 10 ==> ((e & !(0x1ffu64 << s)) | ((v & 0x1ff) << s)) & 0x3ff == e & 0x3ff)
        by (bit_vector);
}

} // verus!
