//! Addresses tagged with the alignment class they were checked against.
use core::marker::PhantomData;
use vstd::arithmetic::power2::{lemma2_to64, lemma2_to64_rest, pow2};
use vstd::bits::{lemma_u64_low_bits_mask_is_mod, low_bits_mask};
use vstd::arithmetic::div_mod::{lemma_fundamental_div_mod, lemma_fundamental_div_mod_converse};
use vstd::prelude::*;

verus! {

/// Mask of the in-page offset of an address.
pub const OFFSET_MASK: u64 = 0xfff;

/// Masks of the five page-number fields of an address.
pub const PN_0_MASK: u64 = 0x1f_f000;
pub const PN_1_MASK: u64 = 0x3fe0_0000;
pub const PN_2_MASK: u64 = 0x7f_c000_0000;
pub const PN_3_MASK: u64 = 0xff80_0000_0000;
pub const PN_4_MASK: u64 = 0x1ff_0000_0000_0000;

/// Bits of an address above the five page-number fields.
pub const UNUSED_MASK: u64 = 0xfe00_0000_0000_0000;

/// The offset, the five page-number fields and the unused bits of an
/// address cover its 64 bits, each bit exactly once.
pub proof fn lemma_address_masks_partition()
    ensures
        OFFSET_MASK ^ PN_0_MASK ^ PN_1_MASK ^ PN_2_MASK ^ PN_3_MASK ^ PN_4_MASK ^ UNUSED_MASK
            == u64::MAX,
        OFFSET_MASK | PN_0_MASK | PN_1_MASK | PN_2_MASK | PN_3_MASK | PN_4_MASK | UNUSED_MASK
            == u64::MAX,
{
    assert(0xfffu64 ^ 0x1f_f000u64 ^ 0x3fe0_0000u64 ^ 0x7f_c000_0000u64 ^ 0xff80_0000_0000u64
        ^ 0x1ff_0000_0000_0000u64 ^ 0xfe00_0000_0000_0000u64 == 0xffff_ffff_ffff_ffffu64)
        by (bit_vector);
    assert(0xfffu64 | 0x1f_f000u64 | 0x3fe0_0000u64 | 0x7f_c000_0000u64 | 0xff80_0000_0000u64
        | 0x1ff_0000_0000_0000u64 | 0xfe00_0000_0000_0000u64 == 0xffff_ffff_ffff_ffffu64)
        by (bit_vector);
}

/// The `n`-th page-number field of `a`: nine bits starting at bit `12 + 9 * n`.
pub open spec fn pn_of(a: usize, n: nat) -> usize {
    ((a as u64 >> (12 + 9 * n) as u64) & 0x1ff) as usize
}

/// The in-page offset of `a`: its low twelve bits.
pub open spec fn offset_of(a: usize) -> usize {
    ((a as u64) & 0xfff) as usize
}

/// An alignment class: every address of the class is a multiple of its size,
/// which is `2^align_bits()`.
pub trait AlignCheck {
    /// Base-two logarithm of the class's size.
    spec fn align_bits() -> nat;

    /// The size, in bytes, that addresses of this class are multiples of.
    fn align_size() -> (r: u64)
        ensures
            Self::align_bits() < 64,
            r as nat == pow2(Self::align_bits()),
    ;
}

/// The size of the alignment class `A`, in bytes.
pub open spec fn size_of_class<A: AlignCheck>() -> nat {
    pow2(A::align_bits())
}

/// No alignment: every address belongs to this class.
pub struct Unaligned;

impl AlignCheck for Unaligned {
    open spec fn align_bits() -> nat {
        0
    }

    fn align_size() -> (r: u64) {
        proof {
            lemma2_to64();
        }
        1
    }
}

/// 4KiB alignment, the size of a base page.
pub struct Align4K;

impl AlignCheck for Align4K {
    open spec fn align_bits() -> nat {
        12
    }

    fn align_size() -> (r: u64) {
        proof {
            lemma2_to64();
        }
        0x1000
    }
}

/// 2MiB alignment, the size of a level-one leaf.
pub struct Align2M;

impl AlignCheck for Align2M {
    open spec fn align_bits() -> nat {
        21
    }

    fn align_size() -> (r: u64) {
        proof {
            lemma2_to64();
        }
        0x20_0000
    }
}

/// 1GiB alignment, the size of a level-two leaf.
pub struct Align1G;

impl AlignCheck for Align1G {
    open spec fn align_bits() -> nat {
        30
    }

    fn align_size() -> (r: u64) {
        proof {
            lemma2_to64();
        }
        0x4000_0000
    }
}

/// 512GiB alignment, the size of a level-three leaf.
pub struct Align512G;

impl AlignCheck for Align512G {
    open spec fn align_bits() -> nat {
        39
    }

    fn align_size() -> (r: u64) {
        proof {
            lemma2_to64();
            lemma2_to64_rest();
        }
        0x80_0000_0000
    }
}

/// An address whose value is known to be a multiple of the size of its
/// alignment class `A`.
pub struct Address<A: AlignCheck = Unaligned>(usize, PhantomData<A>);

impl<A: AlignCheck> Clone for Address<A> {
    fn clone(&self) -> (r: Self)
        ensures
            r@ == self@,
    {
        proof {
            use_type_invariant(self);
        }
        Address(self.0, PhantomData)
    }
}

impl<A: AlignCheck> Copy for Address<A> {

}

impl<A: AlignCheck> View for Address<A> {
    type V = usize;

    closed spec fn view(&self) -> usize {
        self.0
    }
}

/// `a` is a multiple of the size of the alignment class `A`.
pub open spec fn aligned_to<A: AlignCheck>(a: usize) -> bool {
    (a as nat) % size_of_class::<A>() == 0
}

/// Tests whether `a` is a multiple of the size of class `T`.
fn aligned<T: AlignCheck>(a: usize) -> (r: bool)
    ensures
        r == aligned_to::<T>(a),
{
    let size = T::align_size();
    let x = a as u64;
    proof {
        let k = T::align_bits();
        vstd::arithmetic::power2::lemma_pow2_pos(k);
        lemma_u64_low_bits_mask_is_mod(x, k);
        assert(low_bits_mask(k) as u64 == (size - 1) as u64);
    }
    x & (size - 1) == 0
}

impl Address {
    /// An address of no particular alignment; never fails.
    pub fn new(addr: usize) -> (r: Address<Unaligned>)
        ensures
            r@ == addr,
    {
        proof {
            lemma2_to64();
        }
        Address(addr, PhantomData)
    }
}

impl<A: AlignCheck> Address<A> {
    #[verifier::type_invariant]
    spec fn inv(self) -> bool {
        aligned_to::<A>(self.0)
    }

    /// The address as an integer.
    pub fn as_usize(&self) -> (r: usize)
        ensures
            r == self@,
    {
        self.0
    }

    /// The offset of the address within its 4KiB page.
    pub fn offset(&self) -> (r: usize)
        ensures
            r == offset_of(self@),
            r < 0x1000,
    {
        let x = self.0 as u64;
        assert(x & 0xfff <= 0xfff) by (bit_vector);
        (x & OFFSET_MASK) as usize
    }

    /// The `N`-th page-number field of the address.
    pub fn pn<const N: usize>(&self) -> (r: usize)
        requires
            N < 5,
        ensures
            r == pn_of(self@, N as nat),
            r < 512,
    {
        let x = self.0 as u64;
        let s: u64 = if N == 0 {
            12
        } else if N == 1 {
            21
        } else if N == 2 {
            30
        } else if N == 3 {
            39
        } else {
            48
        };
        let v = (x >> s) & 0x1ff;
        proof {
            crate::entry::lemma_nine_bits(x >> s);
        }
        v as usize
    }

    /// Whether the address is a multiple of the size of class `T`.
    pub fn is_aligned<T: AlignCheck>(&self) -> (r: bool)
        ensures
            r == aligned_to::<T>(self@),
    {
        aligned::<T>(self.0)
    }

    /// The same address, tagged with class `T` once it is found to be a
    /// multiple of that class's size.
    pub fn check_alignment<T: AlignCheck>(self) -> (r: Result<Address<T>, crate::mm_error::Error>)
        ensures
            r is Ok <==> aligned_to::<T>(self@),
            r matches Ok(b) ==> b@ == self@,
            r matches Err(e) ==> e == crate::mm_error::Error::AddressNotAligned,
    {
        if aligned::<T>(self.0) {
            Ok(Address(self.0, PhantomData))
        } else {
            Err(crate::mm_error::Error::AddressNotAligned)
        }
    }
}

/// A multiple of a size greater than one is aligned to it, and the address
/// one byte below it is not.
pub proof fn lemma_one_byte_short(a: nat, size: nat)
    requires
        size > 1,
        a > 0,
        a % size == 0,
    ensures
        (a - 1) as nat % size == size - 1,
        (a - 1) as nat % size != 0,
{
    lemma_fundamental_div_mod(a as int, size as int);
    let q = a as int / size as int;
    assert(q >= 1) by (nonlinear_arith)
        requires
            a == size * q,
            a > 0,
            size > 1,
    ;
    assert((a - 1) as int == (q - 1) * size + (size - 1)) by (nonlinear_arith)
        requires
            a == size * q,
    ;
    lemma_fundamental_div_mod_converse((a - 1) as int, size as int, q - 1, size - 1);
}

/// An alignment check on an address one byte short of a multiple of the
/// class's size fails, and on the multiple itself succeeds, for every class
/// coarser than a byte.
pub proof fn lemma_alignment_boundary<T: AlignCheck>(a: usize)
    requires
        size_of_class::<T>() > 1,
        a > 0,
        aligned_to::<T>(a),
    ensures
        !aligned_to::<T>((a - 1) as usize),
{
    lemma_one_byte_short(a as nat, size_of_class::<T>());
}

} // verus!
