//! The allocation-layout arithmetic of the task runtime: one heap block per
//! task holds the header, the embedded scheduler and a union slot that is
//! first the in-progress computation and later its result.  Extending a
//! layout rounds the running size up to the next field's alignment and
//! rejects totals that would overflow the platform's maximum allocation
//! size.

use vstd::arithmetic::div_mod::{
    lemma_fundamental_div_mod,
    lemma_mod_bound,
    lemma_mod_multiples_basic,
};
use vstd::arithmetic::mul::lemma_mul_is_commutative;
use vstd::prelude::*;

verus! {

/// Whether `a` is a power of two.
pub open spec fn is_pow2(a: int) -> bool
    decreases a,
{
    if a <= 0 {
        false
    } else if a == 1 {
        true
    } else {
        a % 2 == 0 && is_pow2(a / 2)
    }
}

/// The padding that rounds `size` up to a multiple of `align`.
pub open spec fn spec_padding(size: int, align: int) -> int {
    ((size + align - 1) / align) * align - size
}

/// The padding is small, nonnegative and exact.
proof fn lemma_padding_facts(size: int, align: int)
    requires
        align >= 1,
        size >= 0,
    ensures
        0 <= spec_padding(size, align) < align,
        (size + spec_padding(size, align)) % align == 0,
{
    let x = size + align - 1;
    lemma_fundamental_div_mod(x, align);
    lemma_mod_bound(x, align);
    lemma_mul_is_commutative(x / align, align);
    lemma_mod_multiples_basic(x / align, align);
}

/// A size/alignment pair, evaluated by the layout computation before the
/// allocation is made.
#[derive(Clone, Copy, Debug)]
pub struct ConstLayout {
    pub size: usize,
    pub align: usize,
}

impl ConstLayout {
    /// The layout's size in bytes.
    pub open spec fn spec_size(&self) -> usize {
        self.size
    }

    /// The layout's alignment in bytes.
    pub open spec fn spec_align(&self) -> usize {
        self.align
    }

    /// Builds the pair without validating it, as the allocation paths do
    /// once their inputs are known good.
    pub fn from_size_align_unchecked(size: usize, align: usize) -> (r: ConstLayout)
        ensures
            r.spec_size() == size,
            r.spec_align() == align,
    {
        ConstLayout { size, align }
    }

    /// The layout of a value of type `T`.
    pub fn new_for<T>() -> (r: ConstLayout)
        ensures
            r.spec_size() == vstd::layout::size_of::<T>(),
            r.spec_align() == vstd::layout::align_of::<T>(),
    {
        ConstLayout::from_size_align_unchecked(core::mem::size_of::<T>(), core::mem::align_of::<T>())
    }

    /// The layout of a union of the two fields: as large and as aligned as
    /// the larger of them.
    pub fn unionize(field_one: ConstLayout, field_two: ConstLayout) -> (r: ConstLayout)
        ensures
            r.spec_size() == max(field_one.spec_size(), field_two.spec_size()),
            r.spec_align() == max(field_one.spec_align(), field_two.spec_align()),
    {
        let new_size = max(field_one.size, field_two.size);
        let new_align = max(field_one.align, field_two.align);
        ConstLayout::from_size_align_unchecked(new_size, new_align)
    }

    /// The layout's size in bytes.
    pub fn size(&self) -> (r: usize)
        ensures
            r == self.spec_size(),
    {
        self.size
    }

    /// The layout's alignment in bytes.
    pub fn align(&self) -> (r: usize)
        ensures
            r == self.spec_align(),
    {
        self.align
    }

    /// The padding needed to round this layout's size up to a multiple of
    /// `align`: less than one whole alignment unit, and exact.
    pub fn padding_needed_for(self, align: usize) -> (r: usize)
        requires
            align >= 1,
            self.spec_size() + align <= usize::MAX,
        ensures
            r == spec_padding(self.spec_size() as int, align as int),
            r < align,
            (self.spec_size() + r) % (align as int) == 0,
    {
        let len = self.size;
        proof {
            lemma_padding_facts(len as int, align as int);
            let x = len + align - 1;
            lemma_fundamental_div_mod(x, align as int);
            lemma_mod_bound(x, align as int);
            lemma_mul_is_commutative(x / (align as int), align as int);
        }
        ((len + align - 1) / align) * align - len
    }

    /// What `extend` returns: the combined layout and the second field's
    /// offset, or nothing where the alignment is no power of two or the
    /// total would overflow the maximum allocation size.
    pub open spec fn spec_extend(self, other: ConstLayout) -> Option<(ConstLayout, usize)> {
        let new_align = max(self.spec_align(), other.spec_align());
        let offset = self.spec_size() + spec_padding(self.spec_size() as int, new_align as int);
        let new_size = offset + other.spec_size();
        if !is_pow2(new_align as int) || new_size > usize::MAX as int / 2 - (new_align - 1) {
            None
        } else {
            Some(
                (
                    ConstLayout { size: new_size as usize, align: new_align },
                    offset as usize,
                ),
            )
        }
    }

    /// Appends `other` behind this layout: rounds the running size up to
    /// `other`'s alignment, recording the offset at which `other` begins,
    /// and rejects layouts whose total size would overflow the platform's
    /// maximum allocation size.
    pub fn extend(self, other: ConstLayout) -> (r: Option<(ConstLayout, usize)>)
        ensures
            r == self.spec_extend(other),
    {
        let new_align = max(self.align, other.align);
        if !is_power_of_two(new_align) {
            return None;
        }
        if self.size > usize::MAX - new_align {
            // The padded size cannot be represented; the combined size is
            // certainly past the maximum allocation size.
            proof {
                lemma_pow2_positive(new_align as int);
                lemma_padding_facts(self.spec_size() as int, new_align as int);
            }
            return None;
        }
        let pad = self.padding_needed_for(new_align);
        let offset = self.size + pad;
        let new_size = match offset.checked_add(other.size) {
            Some(s) => s,
            None => {
                return None;
            },
        };
        // The platform caps one allocation at the signed address-space
        // half, less what aligning it up could add.
        let limit = usize::MAX / 2;
        if new_align - 1 > limit {
            return None;
        }
        if new_size > limit - (new_align - 1) {
            return None;
        }
        Some((ConstLayout { size: new_size, align: new_align }, offset))
    }
}

/// A power of two is positive.
proof fn lemma_pow2_positive(a: int)
    requires
        is_pow2(a),
    ensures
        a >= 1,
{
}

/// The larger of two sizes.
#[verifier::when_used_as_spec(max_spec)]
pub fn max(lhs: usize, rhs: usize) -> (r: usize)
    ensures
        r == max_spec(lhs, rhs),
{
    if lhs > rhs {
        lhs
    } else {
        rhs
    }
}

/// The larger of two sizes.
pub open spec fn max_spec(lhs: usize, rhs: usize) -> usize {
    if lhs > rhs {
        lhs
    } else {
        rhs
    }
}

/// Whether `n` is a power of two, by repeated halving.
pub fn is_power_of_two(n: usize) -> (r: bool)
    ensures
        r == is_pow2(n as int),
{
    if n == 0 {
        return false;
    }
    let mut m = n;
    while m % 2 == 0
        invariant
            m >= 1,
            is_pow2(n as int) == is_pow2(m as int),
        decreases m,
    {
        m = m / 2;
    }
    m == 1
}

/// The offsets at which a task allocation's pieces live: the whole layout,
/// then the scheduler, then the computation/result union (the two share the
/// same slot and are never alive at once).
pub struct TaskLayout {
    pub layout: ConstLayout,
    pub offset_s: usize,
    pub offset_f: usize,
    pub offset_r: usize,
}

/// Computes one task allocation's layout from its pieces: the header first,
/// then the scheduler, then a union slot sized and aligned as the larger of
/// the computation and its result.  Nothing is returned where the total
/// would overflow the maximum allocation size; the allocation paths treat
/// that as fatal.
pub fn eval_task_layout(
    layout_header: ConstLayout,
    layout_s: ConstLayout,
    layout_f: ConstLayout,
    layout_r: ConstLayout,
) -> (r: Option<TaskLayout>)
    ensures
        ({
            let layout_union = (ConstLayout {
                size: max_spec(layout_f.spec_size(), layout_r.spec_size()),
                align: max_spec(layout_f.spec_align(), layout_r.spec_align()),
            });
            match layout_header.spec_extend(layout_s) {
                None => r is None,
                Some((with_s, offset_s)) => match with_s.spec_extend(layout_union) {
                    None => r is None,
                    Some((whole, offset_union)) => r == Some(
                        TaskLayout {
                            layout: whole,
                            offset_s,
                            offset_f: offset_union,
                            offset_r: offset_union,
                        },
                    ),
                },
            }
        }),
{
    let size_union = max(layout_f.size(), layout_r.size());
    let align_union = max(layout_f.align(), layout_r.align());
    let layout_union = ConstLayout::from_size_align_unchecked(size_union, align_union);
    let (layout, offset_s) = match layout_header.extend(layout_s) {
        Some(pair) => pair,
        None => {
            return None;
        },
    };
    let (layout, offset_union) = match layout.extend(layout_union) {
        Some(pair) => pair,
        None => {
            return None;
        },
    };
    Some(TaskLayout { layout, offset_s, offset_f: offset_union, offset_r: offset_union })
}

/// A plain size/alignment pair as the windowing layer's raw vtables carry
/// it.
#[derive(Clone, Copy, Debug)]
pub struct DataLayout {
    pub size: usize,
    pub align: usize,
}

} // verus!
