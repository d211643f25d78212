//! Sizes and alignments of memory blocks.

use vstd::prelude::*;
use vstd::arithmetic::div_mod::lemma_fundamental_div_mod;
use vstd::arithmetic::power2::is_pow2;
use vstd::layout::{align_of, layout_for_type_is_valid, size_of};
use crate::arith::{is_power_of_two, lemma_mul_le, lemma_round_up, lemma_round_up_least, round_up};

verus! {

/// What a [`Layout`] stands for: a number of bytes and the alignment of
/// their first address.
pub struct LayoutView {
    pub size: nat,
    pub align: nat,
}

impl LayoutView {
    /// The size of one slot in a run of such blocks: the size rounded up to
    /// the alignment, and one whole alignment unit for a block of no bytes.
    pub open spec fn padded_size(self) -> nat {
        if self.size == 0 {
            self.align
        } else {
            round_up(self.size, self.align)
        }
    }

    /// The alignment is a power of two, and a slot for the block can be
    /// measured in `usize`.
    pub open spec fn valid(self) -> bool {
        &&& is_pow2(self.align as int)
        &&& self.padded_size() <= usize::MAX
    }

    /// The layout of one slot: the padded size under the same alignment.
    pub open spec fn padded(self) -> LayoutView {
        LayoutView { size: self.padded_size(), align: self.align }
    }

    /// The padded size is a positive multiple of the alignment, not below
    /// the size and less than one alignment unit above it, unless the size
    /// is zero.
    pub proof fn lemma_padded_size(self)
        requires
            self.align > 0,
        ensures
            self.padded_size() > 0,
            self.padded_size() % self.align == 0,
            self.size <= self.padded_size(),
            self.size > 0 ==> self.padded_size() < self.size + self.align,
            self.size == 0 ==> self.padded_size() == self.align,
    {
        lemma_round_up(self.size, self.align);
        assert(self.align % self.align == 0) by (nonlinear_arith)
            requires
                self.align > 0,
        ;
    }

    /// The padded size is the smallest positive multiple of the alignment
    /// that is not below the size.
    pub proof fn lemma_padded_size_least(self, multiple: nat)
        requires
            self.align > 0,
            multiple > 0,
            multiple % self.align == 0,
            self.size <= multiple,
        ensures
            self.padded_size() <= multiple,
    {
        if self.size == 0 {
            let a = self.align as int;
            lemma_fundamental_div_mod(multiple as int, a);
            if multiple as int / a <= 0 {
                lemma_mul_le(a, multiple as int / a, 0);
            } else {
                lemma_mul_le(a, 1, multiple as int / a);
            }
        } else {
            lemma_round_up_least(self.size, self.align, multiple);
        }
    }
}

/// The reason why a size and an alignment make no [`Layout`]: the alignment
/// is no power of two, or the padded size is beyond `usize`.
#[derive(Clone, Copy, Debug, PartialEq, Eq)]
pub struct LayoutError;

/// A size and an alignment, in bytes.
#[derive(Clone, Copy, Debug, PartialEq, Eq, Structural)]
pub struct Layout {
    size: usize,
    align: usize,
}

impl View for Layout {
    type V = LayoutView;

    open spec fn view(&self) -> LayoutView {
        LayoutView { size: self.size() as nat, align: self.align() as nat }
    }
}

impl Layout {
    /// Holds of every layout that exists at run time.
    #[verifier::type_invariant]
    pub open spec fn well_formed(self) -> bool {
        self@.valid()
    }

    /// The number of bytes of the block.
    pub closed spec fn spec_size(&self) -> usize {
        self.size
    }

    /// The alignment of the block's first address.
    pub closed spec fn spec_align(&self) -> usize {
        self.align
    }

    /// The layout of `size` bytes aligned to `align`, if there is one.
    pub fn from_size_align(size: usize, align: usize) -> (made: Result<Layout, LayoutError>)
        ensures
            made is Ok <==> (LayoutView { size: size as nat, align: align as nat }).valid(),
            made matches Ok(layout) ==> layout@ == (LayoutView {
                size: size as nat,
                align: align as nat,
            }),
    {
        if !is_power_of_two(align) {
            return Err(LayoutError);
        }
        proof {
            reveal(is_pow2);
        }
        let rest: usize = size % align;
        if rest != 0 && size > usize::MAX - (align - rest) {
            return Err(LayoutError);
        }
        Ok(Layout { size, align })
    }

    /// The layout of `size` bytes aligned to `align`, for a pair that is
    /// known to make one.
    pub(crate) fn from_valid_parts(size: usize, align: usize) -> (layout: Layout)
        requires
            (LayoutView { size: size as nat, align: align as nat }).valid(),
        ensures
            layout@ == (LayoutView { size: size as nat, align: align as nat }),
    {
        Layout { size, align }
    }

    /// The layout of a value of type `T`.
    pub fn new<T>() -> (layout: Layout)
        ensures
            layout@ == (LayoutView { size: size_of::<T>(), align: align_of::<T>() }),
    {
        layout_for_type_is_valid::<T>();
        Layout { size: core::mem::size_of::<T>(), align: core::mem::align_of::<T>() }
    }

    /// The number of bytes of the block.
    #[verifier::when_used_as_spec(spec_size)]
    pub fn size(&self) -> (size: usize)
        ensures
            size == self.size(),
    {
        self.size
    }

    /// The alignment of the block's first address.
    #[verifier::when_used_as_spec(spec_align)]
    pub fn align(&self) -> (align: usize)
        ensures
            align == self.align(),
    {
        self.align
    }
}

} // verus!
