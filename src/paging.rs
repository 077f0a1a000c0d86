//! Paging schemes and the leaf granularities they can express.
use vstd::prelude::*;

verus! {

/// The size of the region one leaf entry covers, by the level it sits at.
#[derive(Debug, Clone, Copy, PartialEq, Eq, Structural)]
pub enum AlignSize {
    /// A level-zero leaf: 4KiB.
    Page4K,
    /// A level-one leaf: 2MiB.
    Page2M,
    /// A level-two leaf: 1GiB.
    Page1G,
    /// A level-three leaf: 512GiB.
    Page512G,
}

impl AlignSize {
    /// The level at which a leaf of this granularity sits.
    pub open spec fn spec_level(self) -> nat {
        match self {
            AlignSize::Page4K => 0,
            AlignSize::Page2M => 1,
            AlignSize::Page1G => 2,
            AlignSize::Page512G => 3,
        }
    }

    /// The size in bytes: `4096 << (9 * level)`.
    pub open spec fn spec_bytes(self) -> nat {
        match self {
            AlignSize::Page4K => 0x1000,
            AlignSize::Page2M => 0x20_0000,
            AlignSize::Page1G => 0x4000_0000,
            AlignSize::Page512G => 0x80_0000_0000,
        }
    }

    /// The level at which a leaf of this granularity sits.
    pub fn level(&self) -> (r: usize)
        ensures
            r == self.spec_level(),
    {
        match self {
            AlignSize::Page4K => 0,
            AlignSize::Page2M => 1,
            AlignSize::Page1G => 2,
            AlignSize::Page512G => 3,
        }
    }

    /// The size in bytes.
    pub fn bytes(&self) -> (r: u64)
        ensures
            r == self.spec_bytes(),
    {
        match self {
            AlignSize::Page4K => 0x1000,
            AlignSize::Page2M => 0x20_0000,
            AlignSize::Page1G => 0x4000_0000,
            AlignSize::Page512G => 0x80_0000_0000,
        }
    }
}

/// A hardware translation scheme: the value of the translation-mode field
/// that selects it, and its number of levels.
pub trait PageTableSpec {
    /// The translation-mode value.
    spec fn spec_mode() -> nat;

    /// The number of translation levels.
    spec fn spec_level() -> nat;

    /// The translation-mode value; it fits the four-bit mode field.
    fn mode() -> (r: u64)
        ensures
            r == Self::spec_mode(),
            r < 16,
    ;

    /// The number of translation levels, one to five.
    fn level() -> (r: usize)
        ensures
            r == Self::spec_level(),
            1 <= r <= 5,
    ;
}

/// The three-level scheme with 39-bit virtual addresses.
pub struct Sv39;

impl PageTableSpec for Sv39 {
    open spec fn spec_mode() -> nat {
        8
    }

    open spec fn spec_level() -> nat {
        3
    }

    fn mode() -> (r: u64) {
        8
    }

    fn level() -> (r: usize) {
        3
    }
}

} // verus!
