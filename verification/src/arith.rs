//! Small arithmetic lemmas shared by the resampler and the parsers.

use vstd::prelude::*;
use vstd::arithmetic::mul::lemma_mul_upper_bound;
use vstd::arithmetic::div_mod::lemma_fundamental_div_mod;
use vstd::arithmetic::div_mod::lemma_mod_bound;

verus! {

/// Products grow monotonically in both nonnegative factors.
pub proof fn lemma_mul_le(a: int, b: int, c: int, d: int)
    requires
        0 <= a <= c,
        0 <= b <= d,
    ensures
        a * b <= c * d,
{
    lemma_mul_upper_bound(a, c, b, d);
}

/// A value below `a * b` divided by `b` stays below `a`.
pub proof fn lemma_div_below(x: int, a: int, b: int)
    requires
        0 <= x,
        x < a * b,
        0 < b,
    ensures
        0 <= x / b < a,
{
    lemma_fundamental_div_mod(x, b);
    lemma_mod_bound(x, b);
    vstd::arithmetic::div_mod::lemma_div_pos_is_pos(x, b);
    if x / b >= a {
        assert(b * (x / b) >= a * b) by (nonlinear_arith)
            requires
                x / b >= a,
                0 < b,
        ;
    }
}

/// Scaling an index `x < a` by `b / a` stays below `b`.
pub proof fn lemma_scale_below(x: int, a: int, b: int)
    requires
        0 <= x < a,
        0 < b,
    ensures
        0 <= x * b,
        x * b / a < b,
{
    assert(0 <= x * b && x * b < b * a) by (nonlinear_arith)
        requires
            0 <= x < a,
            0 < b,
    ;
    lemma_div_below(x * b, b, a);
}

/// A row-major pixel index stays inside the flat buffer.
pub proof fn lemma_flat_index(x: int, y: int, cc: int, w: int, h: int)
    requires
        0 <= x < w,
        0 <= y < h,
        0 <= cc < 3,
    ensures
        0 <= y * w + x,
        (y * w + x) * 3 + cc < 3 * (w * h),
{
    assert(y * w + x >= 0 && (y * w + x) * 3 + cc < 3 * (w * h)) by (nonlinear_arith)
        requires
            0 <= x < w,
            0 <= y < h,
            0 <= cc < 3,
    ;
}

} // verus!
