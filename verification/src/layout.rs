use vstd::prelude::*;
use vstd::arithmetic::div_mod::{
    lemma_fundamental_div_mod, lemma_mod_decreases, lemma_mod_division_less_than_divisor,
    lemma_mod_multiples_basic, lemma_small_mod, lemma_sub_mod_noop,
};
use vstd::arithmetic::mul::{
    lemma_mul_inequality, lemma_mul_is_commutative, lemma_mul_is_distributive_add,
    lemma_mul_nonnegative,
};

verus! {

/// The physical layout of one pool inside a contiguous byte range: a flags
/// array (one byte per slot) at offset zero, followed by the object array at
/// the first suitably aligned offset. Independent processes each run this
/// computation locally and must derive the same physical layout, so it is a
/// pure function of the element count and the element's size and alignment.
pub struct PoolLayout {
    /// Total number of bytes the pool occupies.
    pub total_size: usize,
    /// Required alignment of the start of the byte range.
    pub total_align: usize,
    /// Byte offset at which the object array begins.
    pub objects_offset: usize,
}

/// Smallest multiple of `a` that is at least `x`.
pub open spec fn round_up(x: int, a: int) -> int
    recommends
        0 <= x,
        1 <= a,
{
    if x % a == 0 {
        x
    } else {
        x + a - x % a
    }
}

/// Byte offset of the object array: the flags array occupies one byte per
/// slot, and the objects begin at the next multiple of the element alignment.
pub open spec fn spec_objects_offset(element_count: int, elem_align: int) -> int {
    round_up(element_count, elem_align)
}

/// Total byte size of a pool: flags array, alignment padding, object array.
pub open spec fn spec_required_size(element_count: int, elem_size: int, elem_align: int) -> int {
    spec_objects_offset(element_count, elem_align) + element_count * elem_size
}

/// `round_up(x, a)` is a multiple of `a` lying in `[x, x + a)`.
pub proof fn lemma_round_up_bounds(x: int, a: int)
    requires
        0 <= x,
        1 <= a,
    ensures
        x <= round_up(x, a) < x + a,
        round_up(x, a) % a == 0,
{
    lemma_mod_division_less_than_divisor(x, a);
    if x % a != 0 {
        lemma_fundamental_div_mod(x, a);
        assert(a * (x / a + 1) == a * (x / a) + a * 1) by {
            lemma_mul_is_distributive_add(a, x / a, 1);
        }
        assert(round_up(x, a) == (x / a + 1) * a) by {
            lemma_mul_is_commutative(a, x / a + 1);
        }
        lemma_mod_multiples_basic(x / a + 1, a);
    }
}

/// `round_up(x, a)` is the least multiple of `a` that is at least `x`.
pub proof fn lemma_round_up_least(x: int, a: int, m: int)
    requires
        0 <= x,
        1 <= a,
        x <= m,
        m % a == 0,
    ensures
        round_up(x, a) <= m,
{
    lemma_round_up_bounds(x, a);
    let r = round_up(x, a);
    if m < r {
        lemma_sub_mod_noop(r, m, a);
        lemma_small_mod(0nat, a as nat);
        lemma_small_mod((r - m) as nat, a as nat);
        assert(false);
    }
}

/// Law: for any element counts `n1 <= n2`, the required size is monotonically
/// non-decreasing in the element count.
pub proof fn lemma_required_size_monotonic(n1: int, n2: int, elem_size: int, elem_align: int)
    requires
        1 <= n1 <= n2,
        0 <= elem_size,
        1 <= elem_align,
    ensures
        spec_required_size(n1, elem_size, elem_align) <= spec_required_size(
            n2,
            elem_size,
            elem_align,
        ),
{
    lemma_round_up_bounds(n2, elem_align);
    lemma_round_up_least(n1, elem_align, round_up(n2, elem_align));
    lemma_mul_inequality(n1, n2, elem_size);
}

/// Law: the objects offset is always a multiple of the element alignment, and
/// leaves room for the whole flags array below it.
pub proof fn lemma_objects_offset_aligned(element_count: int, elem_align: int)
    requires
        0 <= element_count,
        1 <= elem_align,
    ensures
        spec_objects_offset(element_count, elem_align) % elem_align == 0,
        element_count <= spec_objects_offset(element_count, elem_align),
{
    lemma_round_up_bounds(element_count, elem_align);
}

/// Law: every byte the pool touches lies inside a range of the required size:
/// flag byte `i` lies below the objects offset, and the bytes of object `i`
/// end at or before the end of the range.
pub proof fn lemma_layout_in_bounds(element_count: int, elem_size: int, elem_align: int, i: int)
    requires
        0 <= elem_size,
        1 <= elem_align,
        0 <= i < element_count,
    ensures
        0 <= i < spec_objects_offset(element_count, elem_align),
        spec_objects_offset(element_count, elem_align) + (i + 1) * elem_size
            <= spec_required_size(element_count, elem_size, elem_align),
{
    lemma_round_up_bounds(element_count, elem_align);
    lemma_mul_inequality(i + 1, element_count, elem_size);
}

/// Computes the byte offset at which the object array begins, for
/// `element_count` one-byte flags followed by elements of alignment
/// `elem_align`.
pub fn objects_offset(element_count: usize, elem_align: usize) -> (off: usize)
    requires
        1 <= elem_align,
        spec_objects_offset(element_count as int, elem_align as int) <= usize::MAX,
    ensures
        off as int == spec_objects_offset(element_count as int, elem_align as int),
{
    let rem = element_count % elem_align;
    if rem == 0 {
        element_count
    } else {
        proof {
            lemma_mod_division_less_than_divisor(element_count as int, elem_align as int);
            lemma_mod_decreases(element_count as nat, elem_align as nat);
        }
        element_count - rem + elem_align
    }
}

/// Computes the full pool layout for `element_count` elements of the given
/// size and alignment.
pub fn pool_layout(element_count: usize, elem_size: usize, elem_align: usize) -> (l: PoolLayout)
    requires
        1 <= elem_align,
        spec_required_size(element_count as int, elem_size as int, elem_align as int)
            <= usize::MAX,
    ensures
        l.objects_offset as int == spec_objects_offset(element_count as int, elem_align as int),
        l.total_size as int == spec_required_size(
            element_count as int,
            elem_size as int,
            elem_align as int,
        ),
        l.total_align == elem_align,
{
    proof {
        lemma_mul_nonnegative(element_count as int, elem_size as int);
        lemma_round_up_bounds(element_count as int, elem_align as int);
    }
    let off = objects_offset(element_count, elem_align);
    let object_bytes = element_count * elem_size;
    PoolLayout { total_size: off + object_bytes, total_align: elem_align, objects_offset: off }
}

/// Computes the full pool layout if it fits in `usize`; returns `None` if
/// and only if it would overflow. This is the validating form of
/// `pool_layout`, for callers that cannot rule the overflow out beforehand.
pub fn checked_pool_layout(element_count: usize, elem_size: usize, elem_align: usize) -> (r:
    Option<PoolLayout>)
    requires
        1 <= elem_align,
    ensures
        match r {
            Some(l) => {
                &&& spec_required_size(element_count as int, elem_size as int, elem_align as int)
                    <= usize::MAX
                &&& l.objects_offset as int == spec_objects_offset(
                    element_count as int,
                    elem_align as int,
                )
                &&& l.total_size as int == spec_required_size(
                    element_count as int,
                    elem_size as int,
                    elem_align as int,
                )
                &&& l.total_align == elem_align
            },
            None => spec_required_size(element_count as int, elem_size as int, elem_align as int)
                > usize::MAX,
        },
{
    proof {
        lemma_round_up_bounds(element_count as int, elem_align as int);
        lemma_mul_nonnegative(element_count as int, elem_size as int);
    }
    let rem = element_count % elem_align;
    let off_opt: Option<usize> = if rem == 0 {
        Some(element_count)
    } else {
        proof {
            lemma_mod_division_less_than_divisor(element_count as int, elem_align as int);
            lemma_mod_decreases(element_count as nat, elem_align as nat);
        }
        (element_count - rem).checked_add(elem_align)
    };
    match off_opt {
        None => None,
        Some(off) => match element_count.checked_mul(elem_size) {
            None => None,
            Some(object_bytes) => match off.checked_add(object_bytes) {
                None => None,
                Some(total) => Some(
                    PoolLayout { total_size: total, total_align: elem_align, objects_offset: off },
                ),
            },
        },
    }
}

} // verus!
