//! Physical frame allocator: hands out size-classed, aligned regions of a
//! physical range, backed by a buddy allocator of frame numbers.
use core::marker::PhantomData;
use vstd::arithmetic::div_mod::{lemma_fundamental_div_mod, lemma_mod_multiples_basic};
use vstd::arithmetic::mul::lemma_mul_is_associative;
use vstd::arithmetic::power2::{lemma2_to64, lemma_pow2_unfold, pow2};
use vstd::prelude::*;
use vstd::set_lib::{
    lemma_int_range, lemma_len_subset, lemma_set_difference_len, lemma_set_disjoint_lens,
    set_int_range,
};

use buddy_system_allocator::FrameAllocator as BuddyAllocator;

use crate::paging::PageTableSpec;

verus! {

/// The buddy allocator behind [`FrameAllocator`]: blocks of at most `2^31`
/// frames.
pub type BuddyFrames = BuddyAllocator<32>;

#[verifier::external_type_specification]
#[verifier::external_body]
pub struct ExBuddyFrames<const ORDER: usize>(BuddyAllocator<ORDER>);

#[verifier::external_type_specification]
#[verifier::external_body]
pub struct ExLayout(core::alloc::Layout);

#[verifier::external_type_specification]
#[verifier::external_body]
pub struct ExLayoutError(core::alloc::LayoutError);

/// The frame numbers that the buddy allocator holds free.
pub uninterp spec fn free_frames(a: BuddyAllocator<32>) -> Set<int>;

/// How many frames the buddy allocator has handed out and not had back.
pub uninterp spec fn frames_in_use(a: BuddyAllocator<32>) -> nat;

/// The frame numbers `lo` up to, not including, `hi`.
pub open spec fn frame_range(lo: int, hi: int) -> Set<int> {
    set_int_range(lo, hi)
}

/// The smallest power of two that is at least `n` (one for zero).
pub open spec fn pow2_ceil(n: nat) -> nat
    decreases n,
{
    if n <= 1 {
        1
    } else {
        2 * pow2_ceil(((n + 1) / 2) as nat)
    }
}

/// `free` holds a whole block of `b` frames that starts at a multiple of `b`.
pub open spec fn has_free_block(free: Set<int>, b: nat) -> bool {
    exists|s: int| s % (b as int) == 0 && #[trigger] frame_range(s, s + b).subset_of(free)
}

/// `size`, rounded up to a multiple of `align`, fits in `isize`.
pub open spec fn layout_fits(size: usize, align: usize) -> bool {
    align > 0 && (size + align - 1) / (align as int) * align <= isize::MAX
}

/// Relies on buddy_system_allocator::FrameAllocator::new: the allocator holds
/// no frame and has handed none out.
#[verifier::external_body]
fn buddy_new() -> (r: BuddyFrames)
    ensures
        free_frames(r) == Set::<int>::empty(),
        frames_in_use(r) == 0,
{
    BuddyAllocator::<32>::new()
}

/// Relies on buddy_system_allocator::FrameAllocator::add_frame: on an
/// allocator that holds nothing, the frames `start..end` become free.
#[verifier::external_body]
fn buddy_add_frame(a: &mut BuddyFrames, start: usize, end: usize)
    requires
        start <= end,
        free_frames(*old(a)) == Set::<int>::empty(),
        frames_in_use(*old(a)) == 0,
    ensures
        free_frames(*final(a)) == frame_range(start as int, end as int),
        frames_in_use(*final(a)) == 0,
{
    a.add_frame(start, end)
}

/// Relies on buddy_system_allocator::FrameAllocator::alloc: it takes a free
/// block of `count.next_power_of_two()` frames, aligned to that size, and
/// returns its first frame; or it returns `None` and changes nothing. Its
/// free blocks are maximal (`add_frame` cuts a range into the largest
/// aligned blocks, `dealloc` merges free buddies), so it returns a block
/// whenever an aligned free range of that size, at most `2^31`, exists.
#[verifier::external_body]
fn buddy_alloc(a: &mut BuddyFrames, count: usize) -> (r: Option<usize>)
    requires
        pow2_ceil(count as nat) <= usize::MAX,
    ensures
        pow2_ceil(count as nat) <= 0x8000_0000 && has_free_block(
            free_frames(*old(a)),
            pow2_ceil(count as nat),
        ) ==> r is Some,
        match r {
            Some(s) => {
                let b = pow2_ceil(count as nat);
                &&& b <= 0x8000_0000
                &&& s as nat % b == 0
                &&& frame_range(s as int, s + b).subset_of(free_frames(*old(a)))
                &&& free_frames(*final(a)) == free_frames(*old(a)).difference(
                    frame_range(s as int, s + b),
                )
                &&& frames_in_use(*final(a)) == frames_in_use(*old(a)) + b
            },
            None => {
                &&& free_frames(*final(a)) == free_frames(*old(a))
                &&& frames_in_use(*final(a)) == frames_in_use(*old(a))
            },
        },
{
    a.alloc(count)
}

/// Relies on buddy_system_allocator::FrameAllocator::dealloc: the block of
/// `count.next_power_of_two()` frames at `start`, handed out before, is free
/// again.
#[verifier::external_body]
fn buddy_dealloc(a: &mut BuddyFrames, start: usize, count: usize)
    requires
        pow2_ceil(count as nat) <= 0x8000_0000,
        start as nat % pow2_ceil(count as nat) == 0,
        frame_range(start as int, start + pow2_ceil(count as nat)).disjoint(
            free_frames(*old(a)),
        ),
        frames_in_use(*old(a)) >= pow2_ceil(count as nat),
    ensures
        free_frames(*final(a)) == free_frames(*old(a)).union(
            frame_range(start as int, start + pow2_ceil(count as nat)),
        ),
        frames_in_use(*final(a)) == frames_in_use(*old(a)) - pow2_ceil(count as nat),
{
    a.dealloc(start, count)
}

/// Relies on core::alloc::Layout::from_size_align: for a power-of-two
/// alignment it fails exactly when `size` rounded up to a multiple of `align`
/// exceeds `isize::MAX`.
#[verifier::external_body]
fn layout_from_size_align(size: usize, align: usize) -> (r: Result<
    core::alloc::Layout,
    core::alloc::LayoutError,
>)
    requires
        exists|k: nat| pow2(k) == align,
    ensures
        r is Ok <==> layout_fits(size, align),
{
    core::alloc::Layout::from_size_align(size, align)
}

/// Why an allocation failed.
#[derive(Debug)]
pub enum Error {
    /// The size and alignment form no valid layout.
    LayoutError(core::alloc::LayoutError),
    /// No free block is large enough.
    OutOfMemory,
}

/// A region handed out by [`FrameAllocator::alloc_frame`]; it is owned by its
/// holder until it goes back through [`FrameAllocator::dealloc`].
pub struct Frame {
    addr: usize,
    size: usize,
    align: usize,
}

/// The number of frames that a request of `size` bytes at `align` occupies.
pub open spec fn block_of(size: nat, align: nat) -> nat {
    pow2_ceil(if size > align { size } else { align })
}

impl Frame {
    #[verifier::type_invariant]
    spec fn inv(self) -> bool {
        &&& self.align == 0x1000 || self.align == 0x20_0000 || self.align == 0x4000_0000
        &&& block_of(self.size as nat, self.align as nat) <= 0x8000_0000
        &&& self.addr as nat % block_of(self.size as nat, self.align as nat) == 0
        &&& self.addr + block_of(self.size as nat, self.align as nat) <= usize::MAX + 1
    }

    /// First address of the region.
    pub closed spec fn spec_addr(&self) -> usize {
        self.addr
    }

    /// Requested size in bytes.
    pub closed spec fn spec_size(&self) -> usize {
        self.size
    }

    /// Alignment the region was chosen with.
    pub closed spec fn spec_align(&self) -> usize {
        self.align
    }

    /// The addresses the region takes from the allocator: the request
    /// rounded up to a power of two no smaller than the alignment.
    pub open spec fn span(&self) -> Set<int> {
        frame_range(
            self.spec_addr() as int,
            self.spec_addr() + block_of(self.spec_size() as nat, self.spec_align() as nat),
        )
    }

    /// First address of the region.
    pub fn addr(&self) -> (r: usize)
        ensures
            r == self.spec_addr(),
    {
        self.addr
    }

    /// Requested size in bytes.
    pub fn size(&self) -> (r: usize)
        ensures
            r == self.spec_size(),
    {
        self.size
    }

    /// Alignment the region was chosen with.
    pub fn align(&self) -> (r: usize)
        ensures
            r == self.spec_align(),
    {
        self.align
    }
}

/// The alignment class of a request of `size` bytes: 4KiB up to half of
/// 2MiB, 2MiB up to half of 1GiB, 1GiB above.
pub open spec fn fit_align(size: usize) -> usize {
    if size <= 0x10_0000 {
        0x1000
    } else if size <= 0x2000_0000 {
        0x20_0000
    } else {
        0x4000_0000
    }
}

/// The physical frame allocator. It serves addresses of one region, given
/// once by [`FrameAllocator::init`].
pub struct FrameAllocator<M: PageTableSpec> {
    frames: BuddyFrames,
    initialized: bool,
    region: Ghost<Set<int>>,
    lent: Ghost<Set<int>>,
    scheme: PhantomData<M>,
}

impl<M: PageTableSpec> FrameAllocator<M> {
    /// The addresses that are free to be handed out.
    pub closed spec fn free(&self) -> Set<int> {
        free_frames(self.frames)
    }

    /// The addresses held by frames handed out and not yet returned.
    pub closed spec fn lent(&self) -> Set<int> {
        self.lent@
    }

    /// The region given to [`FrameAllocator::init`]; empty before.
    pub closed spec fn region(&self) -> Set<int> {
        self.region@
    }

    /// Whether [`FrameAllocator::init`] has given the allocator its region.
    pub closed spec fn is_initialized(&self) -> bool {
        self.initialized
    }

    /// The free and lent addresses are finite, disjoint, within the region,
    /// and the lent ones are what the buddy allocator counts as in use.
    pub closed spec fn wf(&self) -> bool {
        &&& self.free().finite()
        &&& self.lent().finite()
        &&& self.free().disjoint(self.lent())
        &&& self.free().subset_of(self.region())
        &&& self.lent().subset_of(self.region())
        &&& self.region().subset_of(frame_range(0, usize::MAX as int))
        &&& frames_in_use(self.frames) == self.lent().len()
        &&& self.initialized ==> self.free().union(self.lent()) == self.region()
        &&& !self.initialized ==> self.free() == Set::<int>::empty() && self.lent()
            == Set::<int>::empty() && self.region() == Set::<int>::empty()
    }

    /// An allocator without a region: every request fails until
    /// [`FrameAllocator::init`].
    pub fn new() -> (r: Self)
        ensures
            r.wf(),
            !r.is_initialized(),
            r.free() == Set::<int>::empty(),
            r.lent() == Set::<int>::empty(),
            r.region() == Set::<int>::empty(),
    {
        FrameAllocator {
            frames: buddy_new(),
            initialized: false,
            region: Ghost(Set::empty()),
            lent: Ghost(Set::empty()),
            scheme: PhantomData,
        }
    }

    /// Gives the allocator the region `start..start + size`. Only the first
    /// call has an effect: later calls leave the allocator as it is.
    pub fn init(&mut self, start: usize, size: usize)
        requires
            old(self).wf(),
            start + size <= usize::MAX,
        ensures
            final(self).wf(),
            final(self).is_initialized(),
            !old(self).is_initialized() ==> {
                &&& final(self).free() == frame_range(start as int, start + size)
                &&& final(self).region() == frame_range(start as int, start + size)
                &&& final(self).lent() == Set::<int>::empty()
            },
            old(self).is_initialized() ==> {
                &&& final(self).free() == old(self).free()
                &&& final(self).region() == old(self).region()
                &&& final(self).lent() == old(self).lent()
            },
    {
        if self.initialized {
            return;
        }
        buddy_add_frame(&mut self.frames, start, start + size);
        self.initialized = true;
        self.region = Ghost(frame_range(start as int, start + size));
        proof {
            lemma_int_range(start as int, start + size);
            assert(self.free().union(self.lent()) =~= self.region());
        }
    }

    /// Hands out a region of `size` bytes aligned to the class of `size`
    /// (4KiB, 2MiB or 1GiB). It fails with `LayoutError` exactly when the
    /// size rounded up to that alignment exceeds `isize::MAX`, and with
    /// `OutOfMemory` when no free block is large enough, as before
    /// [`FrameAllocator::init`] and whenever the rounded block exceeds what
    /// is free. It succeeds whenever the layout is valid and the free
    /// addresses hold an aligned block of the rounded size (at most 2GiB).
    pub fn alloc_frame(&mut self, size: usize) -> (r: Result<Frame, Error>)
        requires
            old(self).wf(),
        ensures
            final(self).wf(),
            final(self).region() == old(self).region(),
            final(self).is_initialized() == old(self).is_initialized(),
            r matches Err(Error::LayoutError(_)) <==> !layout_fits(size, fit_align(size)),
            match r {
                Ok(f) => {
                    &&& f.spec_size() == size
                    &&& f.spec_align() == fit_align(size)
                    &&& f.spec_addr() as nat % f.spec_align() as nat == 0
                    &&& f.spec_addr() as nat % block_of(size as nat, fit_align(size) as nat) == 0
                    &&& f.span().subset_of(old(self).free())
                    &&& f.span().subset_of(old(self).region())
                    &&& final(self).free() == old(self).free().difference(f.span())
                    &&& final(self).lent() == old(self).lent().union(f.span())
                },
                Err(_) => {
                    &&& final(self).free() == old(self).free()
                    &&& final(self).lent() == old(self).lent()
                },
            },
            layout_fits(size, fit_align(size)) && block_of(size as nat, fit_align(size) as nat)
                > old(self).free().len() ==> r matches Err(Error::OutOfMemory),
            layout_fits(size, fit_align(size)) && block_of(size as nat, fit_align(size) as nat)
                <= 0x8000_0000 && has_free_block(
                old(self).free(),
                block_of(size as nat, fit_align(size) as nat),
            ) ==> r is Ok,
    {
        let align = Self::fit_align_from_size(size);
        let ghost j: nat = if align == 0x1000 {
            12
        } else if align == 0x20_0000 {
            21
        } else {
            30
        };
        proof {
            lemma2_to64();
            assert(pow2(j) == align);
        }
        match layout_from_size_align(size, align) {
            Err(e) => {
                return Err(Error::LayoutError(e));
            },
            Ok(_) => {},
        }
        let count = if size > align {
            size
        } else {
            align
        };
        proof {
            let x = size + align - 1;
            lemma_fundamental_div_mod(x as int, align as int);
            assert((x / (align as int)) * align >= size) by (nonlinear_arith)
                requires
                    x == align * (x / (align as int)) + x % (align as int),
                    x % (align as int) < align,
                    x == size + align - 1,
            ;
            assert(count <= isize::MAX);
            lemma_pow2_ceil_bounds(count as nat);
        }
        match buddy_alloc(&mut self.frames, count) {
            None => Err(Error::OutOfMemory),
            Some(s) => {
                let ghost b = pow2_ceil(count as nat);
                let ghost span = frame_range(s as int, s + b);
                proof {
                    lemma_int_range(s as int, s + b);
                    assert(span.contains(s as int));
                    assert(span.contains(s + b - 1));
                    lemma_pow2_ceil_multiple(count as nat, j);
                    lemma_multiple_of_multiple(s as nat, b, align as nat);
                    lemma_len_subset(span, old(self).free());
                    lemma_set_disjoint_lens(old(self).lent(), span);
                    self.lent@ = old(self).lent().union(span);
                }
                proof {
                    if self.initialized {
                        assert(self.free().union(self.lent()) =~= self.region());
                    }
                }
                let f = Frame { addr: s, size, align };
                assert(f.span() == span);
                Ok(f)
            },
        }
    }

    /// Takes back a region handed out by [`FrameAllocator::alloc_frame`]: its
    /// addresses are free again.
    pub fn dealloc(&mut self, frame: Frame)
        requires
            old(self).wf(),
            frame.span().subset_of(old(self).lent()),
        ensures
            final(self).wf(),
            final(self).region() == old(self).region(),
            final(self).is_initialized() == old(self).is_initialized(),
            final(self).free() == old(self).free().union(frame.span()),
            final(self).lent() == old(self).lent().difference(frame.span()),
    {
        proof {
            use_type_invariant(&frame);
        }
        let count = if frame.size > frame.align {
            frame.size
        } else {
            frame.align
        };
        let ghost span = frame.span();
        proof {
            lemma_pow2_ceil_bounds(count as nat);
            lemma_int_range(frame.addr as int, frame.addr + pow2_ceil(count as nat));
            assert(span.contains(frame.addr as int));
            lemma_len_subset(span, old(self).lent());
            lemma_set_difference_len(old(self).lent(), span);
            assert(old(self).lent().intersect(span) =~= span);
        }
        buddy_dealloc(&mut self.frames, frame.addr, count);
        proof {
            self.lent@ = old(self).lent().difference(span);
            assert(self.free().union(self.lent()) =~= self.region());
        }
    }

    /// The alignment class of a request of `size` bytes.
    pub fn fit_align_from_size(size: usize) -> (r: usize)
        ensures
            r == fit_align(size),
    {
        if size <= 0x20_0000 / 2 {
            0x1000
        } else if size <= 0x4000_0000 / 2 {
            0x20_0000
        } else {
            0x4000_0000
        }
    }
}

/// A request of one 4KiB page takes a block of exactly 4096 addresses.
pub proof fn lemma_page_block()
    ensures
        block_of(4096, 4096) == 4096,
        fit_align(4096) == 4096,
        layout_fits(4096, 4096),
{
    reveal_with_fuel(pow2_ceil, 14);
    assert(pow2_ceil(4096) == 4096);
}

/// A well-formed allocator has finitely many free addresses.
pub proof fn lemma_free_finite<M: PageTableSpec>(a: FrameAllocator<M>)
    requires
        a.wf(),
    ensures
        a.free().finite(),
{
}

/// `pow2_ceil(n)` is at least `n`, less than `2 * n` for positive `n`, and
/// even from two on.
proof fn lemma_pow2_ceil_bounds(n: nat)
    ensures
        pow2_ceil(n) >= n,
        pow2_ceil(n) >= 1,
        n >= 1 ==> pow2_ceil(n) < 2 * n,
        n >= 2 ==> pow2_ceil(n) % 2 == 0,
    decreases n,
{
    if n > 1 {
        let m = ((n + 1) / 2) as nat;
        lemma_pow2_ceil_bounds(m);
    }
}

/// `pow2_ceil(n)` is a multiple of every power of two up to `n`.
proof fn lemma_pow2_ceil_multiple(n: nat, j: nat)
    requires
        pow2(j) <= n,
    ensures
        pow2_ceil(n) % pow2(j) == 0,
    decreases n,
{
    lemma2_to64();
    if j == 0 {
        assert(pow2_ceil(n) % 1 == 0);
    } else {
        lemma_pow2_unfold(j);
        let m = ((n + 1) / 2) as nat;
        vstd::arithmetic::power2::lemma_pow2_pos((j - 1) as nat);
        assert(m >= pow2((j - 1) as nat));
        assert(n >= 2);
        lemma_pow2_ceil_multiple(m, (j - 1) as nat);
        let p = pow2((j - 1) as nat) as int;
        let c = pow2_ceil(m) as int;
        lemma_fundamental_div_mod(c, p);
        let q = c / p;
        assert(c == q * p);
        assert(pow2_ceil(n) == 2 * c);
        lemma_mul_is_associative(q, p, 2);
        assert(2 * c == q * (p * 2)) by (nonlinear_arith)
            requires
                c == q * p,
        ;
        lemma_mod_multiples_basic(q, p * 2);
    }
}

/// A multiple of `b` is a multiple of every divisor `a` of `b`.
proof fn lemma_multiple_of_multiple(s: nat, b: nat, a: nat)
    requires
        a > 0,
        b > 0,
        s % b == 0,
        b % a == 0,
    ensures
        s % a == 0,
{
    lemma_fundamental_div_mod(s as int, b as int);
    lemma_fundamental_div_mod(b as int, a as int);
    let k = s as int / b as int;
    let l = b as int / a as int;
    assert(s == b * k);
    assert(b == a * l);
    assert(s == (k * l) * a) by (nonlinear_arith)
        requires
            s == b * k,
            b == a * l,
    ;
    lemma_mod_multiples_basic(k * l, a as int);
}

/// Two regions handed out one after the other, with no return between,
/// share no address: the second comes from what the first left free.
pub proof fn lemma_successive_frames_disjoint(free0: Set<int>, first: Set<int>, second: Set<int>)
    requires
        first.subset_of(free0),
        second.subset_of(free0.difference(first)),
    ensures
        first.disjoint(second),
{
}

/// What is free is the region less what is lent: after
/// [`FrameAllocator::init`], a request whose block exceeds the region less
/// the blocks of the live frames fails with `OutOfMemory`.
pub proof fn lemma_free_is_region_less_lent<M: PageTableSpec>(a: FrameAllocator<M>)
    requires
        a.wf(),
        a.is_initialized(),
    ensures
        a.free().len() == a.region().len() - a.lent().len(),
        a.free() == a.region().difference(a.lent()),
{
    lemma_set_disjoint_lens(a.free(), a.lent());
    assert(a.free() =~= a.region().difference(a.lent()));
}

/// Regions handed out one after another, each from what the ones before
/// left free, lie in the first free set and share no address.
pub proof fn lemma_frames_pairwise_disjoint(frees: Seq<Set<int>>, spans: Seq<Set<int>>)
    requires
        frees.len() == spans.len() + 1,
        forall|i: int| 0 <= i < spans.len() ==> (#[trigger] spans[i]).subset_of(frees[i]),
        forall|i: int|
            0 <= i < spans.len() ==> #[trigger] frees[i + 1] == frees[i].difference(spans[i]),
    ensures
        forall|i: int| 0 <= i < spans.len() ==> (#[trigger] spans[i]).subset_of(frees[0]),
        forall|i: int, j: int|
            0 <= i < j < spans.len() ==> (#[trigger] spans[i]).disjoint(#[trigger] spans[j]),
    decreases spans.len(),
{
    if spans.len() > 0 {
        let k = spans.len() - 1;
        lemma_frames_pairwise_disjoint(frees.drop_last(), spans.drop_last());
        assert forall|i: int| 0 <= i < spans.len() implies (#[trigger] spans[i]).subset_of(
            frees[0],
        ) by {
            if i == k && k > 0 {
                lemma_free_shrinks(frees, spans, 0, k);
            }
            if i < k {
                assert(spans.drop_last()[i] == spans[i]);
            }
        }
        assert forall|i: int, j: int| 0 <= i < j < spans.len() implies (#[trigger] spans[i]).disjoint(
            #[trigger] spans[j],
        ) by {
            if j < k {
                assert(spans.drop_last()[i] == spans[i] && spans.drop_last()[j] == spans[j]);
            } else {
                lemma_free_shrinks(frees, spans, i, k);
            }
        }
    }
}

/// Free sets only shrink, and lose each region handed out.
proof fn lemma_free_shrinks(frees: Seq<Set<int>>, spans: Seq<Set<int>>, i: int, m: int)
    requires
        frees.len() == spans.len() + 1,
        forall|x: int|
            0 <= x < spans.len() ==> #[trigger] frees[x + 1] == frees[x].difference(spans[x]),
        0 <= i < m <= spans.len(),
    ensures
        frees[m].subset_of(frees[i]),
        frees[m].disjoint(spans[i]),
    decreases m - i,
{
    if m > i + 1 {
        lemma_free_shrinks(frees, spans, i, m - 1);
        assert(frees[(m - 1) + 1] == frees[m - 1].difference(spans[m - 1]));
    } else {
        assert(frees[i + 1] == frees[i].difference(spans[i]));
    }
}

/// A region handed out and taken back leaves the free addresses holding an
/// aligned block of its size, so the same request succeeds again: alloc,
/// return, alloc cycles never run out.
pub proof fn lemma_realloc_after_dealloc(free0: Set<int>, a: int, b: nat)
    requires
        b > 0,
        a % (b as int) == 0,
        frame_range(a, a + b).subset_of(free0),
    ensures
        has_free_block(free0.difference(frame_range(a, a + b)).union(frame_range(a, a + b)), b),
{
    let span = frame_range(a, a + b);
    assert(free0.difference(span).union(span) =~= free0);
    assert(frame_range(a, a + b).subset_of(free0.difference(span).union(span)));
}

/// Handing a region out and taking it back leaves the free and lent
/// addresses as they were, so alloc, return, alloc cycles leak nothing.
pub proof fn lemma_alloc_dealloc_restores(free0: Set<int>, lent0: Set<int>, span: Set<int>)
    requires
        span.subset_of(free0),
        free0.disjoint(lent0),
    ensures
        free0.difference(span).union(span) == free0,
        lent0.union(span).difference(span) == lent0,
{
    assert(free0.difference(span).union(span) =~= free0);
    assert(lent0.union(span).difference(span) =~= lent0);
}

} // verus!
