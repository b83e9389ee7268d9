//! Offset alignment helpers.
use vstd::prelude::*;

verus! {

/// The smallest multiple of `alignment` that is at least `offset`.
pub open spec fn align_up_spec(offset: int, alignment: int) -> int
    recommends
        alignment > 0,
{
    if offset % alignment == 0 {
        offset
    } else {
        offset + (alignment - offset % alignment)
    }
}

/// The largest multiple of `alignment` that is at most `x`.
pub open spec fn align_down_spec(x: int, alignment: int) -> int
    recommends
        alignment > 0,
{
    x - x % alignment
}

/// Round `offset` up to the next multiple of `alignment`.
pub fn align(offset: u64, alignment: u64) -> (r: u64)
    requires
        alignment > 0,
        align_up_spec(offset as int, alignment as int) <= u64::MAX,
    ensures
        r == align_up_spec(offset as int, alignment as int),
        r % alignment == 0,
        offset <= r < offset + alignment,
{
    proof {
        lemma_align_up(offset as int, alignment as int);
    }
    let misalignment = offset % alignment;
    let padding = if misalignment == 0 {
        0
    } else {
        alignment - misalignment
    };
    offset + padding
}

/// `align_up_spec` yields an aligned value within one alignment step above its input.
pub proof fn lemma_align_up(offset: int, alignment: int)
    requires
        alignment > 0,
        offset >= 0,
    ensures
        align_up_spec(offset, alignment) % alignment == 0,
        offset <= align_up_spec(offset, alignment) < offset + alignment,
{
    let m = offset % alignment;
    if m != 0 {
        assert((offset + (alignment - m)) % alignment == 0) by (nonlinear_arith)
            requires m == offset % alignment, alignment > 0;
    }
}

} // verus!

verus! {

/// `align_down_spec` yields an aligned value at most one alignment step below its input.
pub proof fn lemma_align_down(x: int, alignment: int)
    requires
        alignment > 0,
        x >= 0,
    ensures
        align_down_spec(x, alignment) % alignment == 0,
        x - alignment < align_down_spec(x, alignment) <= x,
        align_down_spec(x, alignment) >= 0,
        x % alignment <= x,
{
    let m = x % alignment;
    assert(0 <= m < alignment && m <= x) by (nonlinear_arith)
        requires m == x % alignment, alignment > 0, x >= 0;
    assert((x - m) % alignment == 0) by (nonlinear_arith)
        requires m == x % alignment, alignment > 0, x >= 0;
}

} // verus!
