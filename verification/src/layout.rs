//! The layout of a chunk: a run of equally laid out elements.

use vstd::prelude::*;
use vstd::arithmetic::div_mod::{
    lemma_basic_div,
    lemma_div_is_ordered,
    lemma_div_multiples_vanish,
    lemma_fundamental_div_mod,
    lemma_mod_multiples_basic,
    lemma_multiply_divide_lt,
};
use vstd::arithmetic::logarithm::{lemma_log0, log};
use vstd::arithmetic::power2::{
    is_pow2,
    is_pow2_equiv,
    is_pow2_exists,
    lemma2_to64,
    lemma_pow2,
    lemma_pow2_adds,
    lemma_pow2_pos,
    lemma_pow2_strictly_increases,
    lemma_pow2_unfold,
    pow2,
};
use vstd::bits::{lemma_usize_shl_is_mul, lemma_usize_shr_is_div};
use vstd::std_specs::convert::{FromSpec, FromSpecImpl};
use crate::arith::{
    bit_length,
    lemma_bit_length,
    lemma_bit_length_usize,
    lemma_log2_between,
    lemma_log2_bounds,
    lemma_mul_le,
};
use crate::memory::{Layout, LayoutView};

verus! {

/// What a [`ChunkLayout`] stands for: `len` slots side by side, `size` bytes
/// in all, the first of them aligned to `align`.
pub struct ChunkView {
    pub size: nat,
    pub align: nat,
    pub len: nat,
}

impl ChunkView {
    /// The size of one slot.
    pub open spec fn elem_size(self) -> nat {
        self.size / self.len
    }

    /// The layout of one slot.
    pub open spec fn elem(self) -> LayoutView {
        LayoutView { size: self.elem_size(), align: self.align }
    }

    /// The layout of the whole chunk.
    pub open spec fn layout(self) -> LayoutView {
        LayoutView { size: self.size, align: self.align }
    }

    /// The chunk holds at least one slot, its size is the slot size times
    /// the number of slots, and the slot size is a positive multiple of the
    /// alignment, which is a power of two.
    pub open spec fn valid(self) -> bool {
        &&& self.len >= 1
        &&& is_pow2(self.align as int)
        &&& self.size <= usize::MAX
        &&& self.size == self.elem_size() * self.len
        &&& self.elem_size() > 0
        &&& self.elem_size() % self.align == 0
    }

    /// The number of slots of `padded` bytes that fit into `capacity`
    /// bytes, and one where not even one fits.
    pub open spec fn fit_len(padded: nat, capacity: nat) -> nat {
        if capacity / padded >= 1 {
            capacity / padded
        } else {
            1
        }
    }

    /// The chunk for elements of layout `elem` that holds as many of them
    /// as fit into `capacity` bytes, and one at least.
    pub open spec fn fit_capacity_or_one(elem: LayoutView, capacity: nat) -> ChunkView {
        let padded = elem.padded_size();
        let len = Self::fit_len(padded, capacity);
        ChunkView { size: padded * len, align: elem.align, len }
    }

    /// The largest exponent `k` for which two to the `k` slots of `padded`
    /// bytes fit into `capacity` bytes, and zero where not even one fits.
    pub open spec fn po2_shift(padded: nat, capacity: nat) -> nat {
        log(2, (capacity / padded) as int) as nat
    }

    /// The chunk for elements of layout `elem` that holds a power of two
    /// of them: as many as fit into `capacity` bytes, and one at least.
    pub open spec fn fit_capacity_or_one_po2(elem: LayoutView, capacity: nat) -> ChunkView {
        let padded = elem.padded_size();
        let len = pow2(Self::po2_shift(padded, capacity));
        ChunkView { size: padded * len, align: elem.align, len }
    }

    /// An exponent `k` with `padded * 2^k <= capacity < padded * 2^(k + 1)`
    /// is the one that `po2_shift` gives.
    pub proof fn lemma_po2_shift_unique(padded: nat, capacity: nat, k: nat)
        requires
            padded > 0,
            padded * pow2(k) <= capacity < padded * pow2(k + 1),
        ensures
            Self::po2_shift(padded, capacity) == k,
    {
        let p = padded as int;
        let c = capacity as int;
        let lo = pow2(k) as int;
        let hi = pow2(k + 1) as int;
        lemma_div_is_ordered(p * lo, c, p);
        lemma_div_multiples_vanish(lo, p);
        assert(p * lo == lo * p) by (nonlinear_arith);
        assert(p * hi == hi * p) by (nonlinear_arith);
        lemma_multiply_divide_lt(c, p, hi);
        lemma_log2_between(capacity / padded, k);
    }

    /// Fitting by division gives a chunk of at least one element.
    pub proof fn lemma_fit_holds_an_element(elem: LayoutView, capacity: nat)
        ensures
            Self::fit_capacity_or_one(elem, capacity).len >= 1,
    {
    }

    /// Either way of fitting gives a chunk whose size is the padded element
    /// size times the number of elements.
    pub proof fn lemma_fit_size(elem: LayoutView, capacity: nat)
        ensures
            ({
                let chunk = Self::fit_capacity_or_one(elem, capacity);
                chunk.size == elem.padded_size() * chunk.len
            }),
            ({
                let chunk = Self::fit_capacity_or_one_po2(elem, capacity);
                chunk.size == elem.padded_size() * chunk.len
            }),
    {
    }

    /// Where the capacity holds one padded element at least, the chunk of
    /// either way of fitting stays within the capacity.
    pub proof fn lemma_fit_within_capacity(elem: LayoutView, capacity: nat)
        requires
            elem.valid(),
            capacity >= elem.padded_size(),
        ensures
            Self::fit_capacity_or_one(elem, capacity).size <= capacity,
            Self::fit_capacity_or_one_po2(elem, capacity).size <= capacity,
    {
        reveal(is_pow2);
        elem.lemma_padded_size();
        let padded = elem.padded_size() as int;
        let slots = capacity as int / padded;
        lemma_fundamental_div_mod(capacity as int, padded);
        lemma_div_is_ordered(padded, capacity as int, padded);
        lemma_div_multiples_vanish(1, padded);
        lemma_log2_bounds(slots as nat);
        lemma_mul_le(padded, pow2(Self::po2_shift(elem.padded_size(), capacity)) as int, slots);
    }

    /// Where the capacity holds no padded element, the chunk of either way
    /// of fitting holds one element and has the padded element size, which
    /// is beyond the capacity.
    pub proof fn lemma_fit_beyond_capacity(elem: LayoutView, capacity: nat)
        requires
            capacity < elem.padded_size(),
        ensures
            ({
                let chunk = Self::fit_capacity_or_one(elem, capacity);
                chunk.len == 1 && chunk.size == elem.padded_size()
            }),
            ({
                let chunk = Self::fit_capacity_or_one_po2(elem, capacity);
                chunk.len == 1 && chunk.size == elem.padded_size()
            }),
            Self::po2_shift(elem.padded_size(), capacity) == 0,
    {
        lemma_basic_div(capacity as int, elem.padded_size() as int);
        lemma_log0(2, 0);
        lemma2_to64();
    }

    /// Fitting to a power of two gives a number of elements that is two to
    /// the exponent `po2_shift`, a power of two.
    pub proof fn lemma_po2_len(elem: LayoutView, capacity: nat)
        ensures
            ({
                let chunk = Self::fit_capacity_or_one_po2(elem, capacity);
                &&& chunk.len == pow2(Self::po2_shift(elem.padded_size(), capacity))
                &&& is_pow2(chunk.len as int)
            }),
    {
        let shift = Self::po2_shift(elem.padded_size(), capacity);
        lemma_pow2(shift);
        assert(is_pow2_exists(pow2(shift) as int));
        is_pow2_equiv(pow2(shift) as int);
    }

    /// Where the capacity holds one padded element at least, no power of
    /// two of elements that fits into the capacity is larger than the one
    /// that fitting to a power of two gives.
    pub proof fn lemma_po2_largest(elem: LayoutView, capacity: nat, k: nat)
        requires
            elem.valid(),
            capacity >= elem.padded_size(),
            elem.padded_size() * pow2(k) <= capacity,
        ensures
            k <= Self::po2_shift(elem.padded_size(), capacity),
            pow2(k) <= Self::fit_capacity_or_one_po2(elem, capacity).len,
            elem.padded_size() * pow2(k) <= Self::fit_capacity_or_one_po2(elem, capacity).size,
    {
        reveal(is_pow2);
        elem.lemma_padded_size();
        let padded = elem.padded_size() as int;
        let slots = capacity as int / padded;
        let shift = Self::po2_shift(elem.padded_size(), capacity);
        lemma_div_is_ordered(padded, capacity as int, padded);
        lemma_div_multiples_vanish(1, padded);
        lemma_log2_bounds(slots as nat);
        lemma_div_is_ordered(padded * pow2(k), capacity as int, padded);
        lemma_div_multiples_vanish(pow2(k) as int, padded);
        assert(padded * pow2(k) == pow2(k) * padded) by (nonlinear_arith);
        if k > shift {
            if k > shift + 1 {
                lemma_pow2_strictly_increases(shift + 1, k);
            }
        } else if k < shift {
            lemma_pow2_strictly_increases(k, shift);
        }
        lemma_mul_le(padded, pow2(k) as int, pow2(shift) as int);
    }

    /// One slot of the chunk of either way of fitting has the padded size
    /// and the alignment of the element.
    pub proof fn lemma_fit_elem(elem: LayoutView, capacity: nat)
        ensures
            Self::fit_capacity_or_one(elem, capacity).elem() == elem.padded(),
            Self::fit_capacity_or_one_po2(elem, capacity).elem() == elem.padded(),
    {
        let padded = elem.padded_size() as int;
        let len = Self::fit_len(elem.padded_size(), capacity) as int;
        let po2_len = pow2(Self::po2_shift(elem.padded_size(), capacity)) as int;
        lemma_pow2_pos(Self::po2_shift(elem.padded_size(), capacity));
        lemma_div_multiples_vanish(padded, len);
        lemma_div_multiples_vanish(padded, po2_len);
        assert(padded * len == len * padded) by (nonlinear_arith);
        assert(padded * po2_len == po2_len * padded) by (nonlinear_arith);
    }

    /// The layout of the chunk of either way of fitting has the padded
    /// element size times the number of elements for its size, and the
    /// alignment of the element.
    pub proof fn lemma_fit_layout(elem: LayoutView, capacity: nat)
        ensures
            ({
                let chunk = Self::fit_capacity_or_one(elem, capacity);
                chunk.layout() == LayoutView {
                    size: elem.padded_size() * chunk.len,
                    align: elem.align,
                }
            }),
            ({
                let chunk = Self::fit_capacity_or_one_po2(elem, capacity);
                chunk.layout() == LayoutView {
                    size: elem.padded_size() * chunk.len,
                    align: elem.align,
                }
            }),
    {
    }

    /// The chunk of either way of fitting is valid, as long as the capacity
    /// is one that `usize` holds.
    pub proof fn lemma_fit_valid(elem: LayoutView, capacity: nat)
        requires
            elem.valid(),
            capacity <= usize::MAX,
        ensures
            Self::fit_capacity_or_one(elem, capacity).valid(),
            Self::fit_capacity_or_one_po2(elem, capacity).valid(),
    {
        lemma_pow2_pos(Self::po2_shift(elem.padded_size(), capacity));
        if capacity >= elem.padded_size() {
            Self::lemma_fit_within_capacity(elem, capacity);
        } else {
            Self::lemma_fit_beyond_capacity(elem, capacity);
        }
        Self::lemma_run_of_slots(elem, Self::fit_len(elem.padded_size(), capacity));
        Self::lemma_run_of_slots(elem, pow2(Self::po2_shift(elem.padded_size(), capacity)));
    }

    /// The layouts of a valid chunk and of one of its slots are valid, and
    /// neither needs padding.
    pub proof fn lemma_valid_parts(self)
        requires
            self.valid(),
        ensures
            self.layout().valid(),
            self.layout().padded_size() == self.size,
            self.elem().valid(),
            self.elem().padded_size() == self.elem_size(),
    {
        reveal(is_pow2);
        let slot = self.elem_size() as int;
        let align = self.align as int;
        let n = self.len as int;
        lemma_fundamental_div_mod(slot, align);
        assert(slot * n == (slot / align * n) * align) by (nonlinear_arith)
            requires
                slot == align * (slot / align),
        ;
        lemma_mod_multiples_basic(slot / align * n, align);
        assert(slot * n >= slot) by (nonlinear_arith)
            requires
                slot > 0,
                n >= 1,
        ;
    }

    /// `len` slots of the padded size of a valid element layout make a
    /// valid chunk, as long as `usize` holds their size, and the layout of
    /// one of its slots is the padded element layout.
    pub proof fn lemma_run_of_slots(elem: LayoutView, len: nat)
        requires
            elem.valid(),
            len >= 1,
            elem.padded_size() * len <= usize::MAX,
        ensures
            ({
                let run = ChunkView { size: elem.padded_size() * len, align: elem.align, len };
                &&& run.valid()
                &&& run.elem() == elem.padded()
                &&& run.layout().valid()
                &&& run.layout().padded_size() == run.size
            }),
    {
        reveal(is_pow2);
        elem.lemma_padded_size();
        let padded = elem.padded_size() as int;
        let align = elem.align as int;
        let n = len as int;
        lemma_div_multiples_vanish(padded, n);
        assert(padded * n == n * padded) by (nonlinear_arith);
        lemma_fundamental_div_mod(padded, align);
        assert(padded * n == (padded / align * n) * align) by (nonlinear_arith)
            requires
                padded == align * (padded / align),
        ;
        lemma_mod_multiples_basic(padded / align * n, align);
        assert(padded * n >= padded) by (nonlinear_arith)
            requires
                padded > 0,
                n >= 1,
        ;
    }
}

/// Where the element has fewer binary digits than the capacity, shifting
/// its size by the difference gives a size with as many digits as the
/// capacity.
proof fn lemma_shift_candidate(elem_size: nat, elem_bits: nat, cap_bits: nat)
    requires
        1 <= elem_bits < cap_bits,
        pow2((elem_bits - 1) as nat) <= elem_size < pow2(elem_bits),
    ensures
        pow2((cap_bits - 1) as nat) <= elem_size * pow2((cap_bits - elem_bits) as nat) < pow2(
            cap_bits,
        ),
{
    let shift = (cap_bits - elem_bits) as nat;
    let scale = pow2(shift) as int;
    let lo = pow2((elem_bits - 1) as nat) as int;
    let hi = pow2(elem_bits) as int;
    lemma_pow2_adds((elem_bits - 1) as nat, shift);
    lemma_pow2_adds(elem_bits, shift);
    lemma_pow2_pos(shift);
    assert(lo * scale <= elem_size * scale < hi * scale) by (nonlinear_arith)
        requires
            lo <= elem_size < hi,
            scale > 0,
    ;
}

/// What the bit lengths of a padded element size and of a capacity tell
/// about the exponent of the largest power of two of elements that fits.
proof fn lemma_po2_shift_by_bit_length(elem_size: usize, capacity: usize)
    requires
        elem_size > 0,
    ensures
        ({
            let elem_bits = bit_length(elem_size as u64);
            let cap_bits = bit_length(capacity as u64);
            let shift = ChunkView::po2_shift(elem_size as nat, capacity as nat);
            let candidate = (cap_bits - elem_bits) as nat;
            &&& shift < usize::BITS
            &&& elem_size * pow2(shift) <= usize::MAX
            &&& capacity >= elem_size ==> elem_size * pow2(shift) <= capacity
            &&& if cap_bits > elem_bits {
                &&& candidate < usize::BITS
                &&& elem_size * pow2(candidate) <= usize::MAX
                &&& shift == if elem_size * pow2(candidate) > capacity {
                    candidate - 1
                } else {
                    candidate as int
                }
            } else {
                shift == 0
            }
        }),
{
    let elem_bits = bit_length(elem_size as u64);
    let cap_bits = bit_length(capacity as u64);
    let e = elem_size as nat;
    lemma_bit_length(elem_size as u64);
    lemma_bit_length(capacity as u64);
    lemma_bit_length_usize(capacity);
    lemma2_to64();
    if cap_bits > elem_bits {
        let candidate = (cap_bits - elem_bits) as nat;
        lemma_shift_candidate(e, elem_bits, cap_bits);
        lemma_pow2_unfold(cap_bits);
        lemma_pow2_unfold(candidate);
        lemma_pow2_unfold(candidate + 1);
        let half = pow2((candidate - 1) as nat);
        assert(e * pow2(candidate) == 2 * (e * half)) by (nonlinear_arith)
            requires
                pow2(candidate) == 2 * half,
        ;
        assert(e * pow2(candidate + 1) == 2 * (e * pow2(candidate))) by (nonlinear_arith)
            requires
                pow2(candidate + 1) == 2 * pow2(candidate),
        ;
        if e * pow2(candidate) > capacity {
            ChunkView::lemma_po2_shift_unique(e, capacity as nat, (candidate - 1) as nat);
        } else {
            ChunkView::lemma_po2_shift_unique(e, capacity as nat, candidate);
        }
    } else if elem_size <= capacity {
        lemma_pow2_unfold(elem_bits);
        if cap_bits < elem_bits {
            lemma_pow2_strictly_increases(cap_bits, elem_bits);
        }
        assert(e * pow2(0) == e) by (nonlinear_arith)
            requires
                pow2(0) == 1,
        ;
        assert(e * pow2(1) == 2 * e) by (nonlinear_arith)
            requires
                pow2(1) == 2,
        ;
        ChunkView::lemma_po2_shift_unique(e, capacity as nat, 0);
    } else {
        lemma_basic_div(capacity as int, elem_size as int);
        lemma_log0(2, 0);
        assert(e * pow2(0) == e) by (nonlinear_arith)
            requires
                pow2(0) == 1,
        ;
    }
}

/// The layout of a chunk of equally laid out elements, and their number.
#[derive(Clone, Copy, Debug, PartialEq, Eq, Structural)]
pub struct ChunkLayout {
    layout: Layout,
    len: usize,
}

impl View for ChunkLayout {
    type V = ChunkView;

    open spec fn view(&self) -> ChunkView {
        ChunkView {
            size: self.layout().size() as nat,
            align: self.layout().align() as nat,
            len: self.len() as nat,
        }
    }
}

/// The padded size and the alignment of an element of the given layout.
pub fn elem_size_align(layout: Layout) -> (parts: (usize, usize))
    ensures
        parts.0 == layout@.padded_size(),
        parts.1 == layout@.align,
{
    proof {
        use_type_invariant(&layout);
        reveal(is_pow2);
    }
    let align: usize = layout.align();
    let size: usize = layout.size();
    let rest: usize = size % align;
    let padded: usize = if size == 0 {
        align
    } else if rest == 0 {
        size
    } else {
        size + (align - rest)
    };
    (padded, align)
}

impl ChunkLayout {
    /// Holds of every chunk layout that exists at run time.
    #[verifier::type_invariant]
    pub open spec fn well_formed(self) -> bool {
        self@.valid()
    }

    /// The layout of the whole chunk.
    pub closed spec fn layout(self) -> Layout {
        self.layout
    }

    /// The number of elements that the chunk holds.
    pub closed spec fn spec_len(&self) -> usize {
        self.len
    }

    /// The chunk for elements of layout `elem_layout` that holds a power of
    /// two of them: as many as fit into `capacity` bytes, and one where not
    /// even one fits. The number that comes with it is the exponent of
    /// that power.
    pub fn fit_capacity_or_one_po2(elem_layout: Layout, capacity: usize) -> (fit: (
        ChunkLayout,
        u32,
    ))
        ensures
            fit.0@ == ChunkView::fit_capacity_or_one_po2(elem_layout@, capacity as nat),
            fit.0@.valid(),
            fit.1 == ChunkView::po2_shift(elem_layout@.padded_size(), capacity as nat),
            fit.1 < usize::BITS,
    {
        let (elem_size, elem_align): (usize, usize) = elem_size_align(elem_layout);
        let cap_lz: u32 = (capacity as u64).leading_zeros();
        let elem_lz: u32 = (elem_size as u64).leading_zeros();
        proof {
            use_type_invariant(&elem_layout);
            reveal(is_pow2);
            elem_layout@.lemma_padded_size();
            lemma_bit_length(capacity as u64);
            lemma_bit_length(elem_size as u64);
            lemma_po2_shift_by_bit_length(elem_size, capacity);
            lemma2_to64();
        }
        let (total_size, po2): (usize, u32) = if cap_lz < elem_lz {
            let shift: u32 = elem_lz - cap_lz;
            proof {
                lemma_usize_shl_is_mul(elem_size, shift as usize);
            }
            let size: usize = elem_size << shift;
            if size > capacity {
                proof {
                    lemma_usize_shr_is_div(size, 1);
                    lemma_pow2_unfold(shift as nat);
                    assert(elem_size * pow2(shift as nat) == 2 * (elem_size * pow2(
                        (shift - 1) as nat,
                    ))) by (nonlinear_arith)
                        requires
                            pow2(shift as nat) == 2 * pow2((shift - 1) as nat),
                    ;
                }
                (size >> 1, shift - 1)
            } else {
                (size, shift)
            }
        } else {
            (elem_size, 0)
        };
        proof {
            lemma_pow2_pos(po2 as nat);
            assert(pow2(po2 as nat) <= elem_size * pow2(po2 as nat)) by (nonlinear_arith)
                requires
                    elem_size >= 1,
            ;
            lemma_usize_shl_is_mul(1, po2 as usize);
            ChunkView::lemma_run_of_slots(elem_layout@, pow2(po2 as nat));
        }
        let layout = Layout::from_valid_parts(total_size, elem_align);
        (ChunkLayout { layout, len: 1usize << po2 }, po2)
    }

    /// The chunk for elements of layout `elem_layout` that holds as many of
    /// them as fit into `capacity` bytes, and one where not even one fits.
    pub fn fit_capacity_or_one(elem_layout: Layout, capacity: usize) -> (chunk: ChunkLayout)
        ensures
            chunk@ == ChunkView::fit_capacity_or_one(elem_layout@, capacity as nat),
            chunk@.valid(),
    {
        let (elem_size, elem_align): (usize, usize) = elem_size_align(elem_layout);
        proof {
            use_type_invariant(&elem_layout);
            reveal(is_pow2);
            elem_layout@.lemma_padded_size();
        }
        let mut len: usize = capacity / elem_size;
        if len == 0 {
            len = 1;
        }
        proof {
            lemma_fundamental_div_mod(capacity as int, elem_size as int);
            ChunkView::lemma_run_of_slots(elem_layout@, len as nat);
        }
        let layout = Layout::from_valid_parts(elem_size * len, elem_align);
        ChunkLayout { layout, len }
    }

    /// The layout of one element of the chunk, padding included.
    pub fn elem(&self) -> (elem: Layout)
        ensures
            elem@ == self@.elem(),
    {
        proof {
            use_type_invariant(self);
            self@.lemma_valid_parts();
        }
        Layout::from_valid_parts(self.layout.size() / self.len, self.layout.align())
    }

    /// The number of elements that the chunk holds.
    #[verifier::when_used_as_spec(spec_len)]
    pub fn len(&self) -> (len: usize)
        ensures
            len == self.len(),
    {
        self.len
    }

    /// Converting a chunk layout, by value or by reference, gives the
    /// layout that has the size and the alignment of the chunk.
    pub proof fn lemma_conversions(self)
        ensures
            <Layout as FromSpec<ChunkLayout>>::from_spec(self)@ == self@.layout(),
            <Layout as FromSpec<&ChunkLayout>>::from_spec(&self)@ == self@.layout(),
            self.layout()@ == self@.layout(),
    {
    }
}

impl From<ChunkLayout> for Layout {
    /// The layout of the whole chunk.
    fn from(chunk: ChunkLayout) -> (layout: Layout) {
        chunk.layout
    }
}

impl FromSpecImpl<ChunkLayout> for Layout {
    open spec fn obeys_from_spec() -> bool {
        true
    }

    open spec fn from_spec(chunk: ChunkLayout) -> Layout {
        chunk.layout()
    }
}

impl<'a> From<&'a ChunkLayout> for Layout {
    /// The layout of the whole chunk.
    fn from(chunk: &'a ChunkLayout) -> (layout: Layout) {
        chunk.layout
    }
}

impl<'a> FromSpecImpl<&'a ChunkLayout> for Layout {
    open spec fn obeys_from_spec() -> bool {
        true
    }

    open spec fn from_spec(chunk: &'a ChunkLayout) -> Layout {
        chunk.layout()
    }
}

impl AsRef<Layout> for ChunkLayout {
    /// The layout of the whole chunk.
    fn as_ref(&self) -> (layout: &Layout)
        ensures
            *layout == self.layout(),
    {
        &self.layout
    }
}

} // verus!
