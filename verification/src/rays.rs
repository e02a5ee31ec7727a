//! The stride of a ray-casting view: every `step`-th of 360 rays is drawn,
//! and two keys raise or lower the stride, wrapping around.

use vstd::prelude::*;

verus! {

/// Number of rays cast around the viewer.
pub const RAY_COUNT: usize = 360;

/// The stride after one press of the "more sparse" key.
pub open spec fn stride_after_increase(step: int) -> int {
    if step + 1 >= RAY_COUNT {
        1
    } else {
        step + 1
    }
}

/// The stride after one press of the "more dense" key.
pub open spec fn stride_after_decrease(step: int) -> int {
    if step - 1 <= 0 {
        RAY_COUNT - 1
    } else {
        step - 1
    }
}

/// A stride the view can show: from every ray to every 359th.
pub open spec fn is_valid_stride(step: int) -> bool {
    1 <= step < RAY_COUNT
}

/// Draws rays more sparsely: the stride grows by one and wraps from 359
/// back to 1.
pub fn increase_step(step: usize) -> (next: usize)
    requires
        step < usize::MAX,
    ensures
        next == stride_after_increase(step as int),
        is_valid_stride(next as int),
        step + 1 < 360 ==> next == step + 1,
        step + 1 >= 360 ==> next == 1,
{
    let mut next = step + 1;
    if next >= RAY_COUNT {
        next = 1;
    }
    next
}

/// Draws rays more densely: the stride shrinks by one and wraps from 1
/// round to 359.
pub fn decrease_step(step: usize) -> (next: usize)
    requires
        step > 0,
    ensures
        next == stride_after_decrease(step as int),
        is_valid_stride(step as int) ==> is_valid_stride(next as int),
        step >= 2 ==> next == step - 1,
        step == 1 ==> next == 359,
{
    let mut next = step - 1;
    if next <= 0 {
        next = RAY_COUNT - 1;
    }
    next
}

/// On the valid strides, the two keys undo each other.
pub proof fn lemma_stride_keys_undo_each_other(step: int)
    requires
        is_valid_stride(step),
    ensures
        stride_after_decrease(stride_after_increase(step)) == step,
        stride_after_increase(stride_after_decrease(step)) == step,
{
}

/// The "more sparse" key adds one to the stride, except that from 359 on it
/// starts again at 1; the "more dense" key takes one away, except that from 1
/// it goes round to 359.
pub proof fn lemma_stride_keys_step_by_one(step: int)
    ensures
        step + 1 < 360 ==> stride_after_increase(step) == step + 1,
        step + 1 >= 360 ==> stride_after_increase(step) == 1,
        step >= 2 ==> stride_after_decrease(step) == step - 1,
        step == 1 ==> stride_after_decrease(step) == 359,
{
}

} // verus!
