//! Index arithmetic on a row-major pixel grid.

use vstd::prelude::*;
use core::ops::{Add, Mul};
use vstd::std_specs::ops::{AddSpec, MulSpec};

verus! {

/// The value of a 32-bit signed integer after a sign-extending conversion
/// to 64 unsigned bits: unchanged when non-negative, raised by 2^64
/// otherwise.
pub open spec fn sign_extended(v: i32) -> int {
    if v < 0 {
        v + 0x1_0000_0000_0000_0000
    } else {
        v as int
    }
}

/// The offset of a cell in a row-major grid whose rows are `wrap_width`
/// cells wide, over sign-extended operands.
pub open spec fn wrapped_index(int_coords: (i32, i32), wrap_width: i32) -> int {
    sign_extended(int_coords.1) * sign_extended(wrap_width) + sign_extended(int_coords.0)
}

fn sign_extend(v: i32) -> (r: u64)
    ensures
        r == sign_extended(v),
{
    if v >= 0 {
        v as u64
    } else {
        u64::MAX - ((-(v + 1)) as u64)
    }
}

/// Row-major offset of the cell `(x, y)` in a grid that is `wrap_width`
/// cells wide: `y * wrap_width + x`.
pub fn coords_to_wrapped_vec_index(int_coords: (i32, i32), wrap_width: i32) -> (index: u64)
    requires
        wrapped_index(int_coords, wrap_width) <= u64::MAX,
    ensures
        index == wrapped_index(int_coords, wrap_width),
        int_coords.0 >= 0 && int_coords.1 >= 0 && wrap_width >= 0 ==> index == int_coords.1
            * wrap_width + int_coords.0,
{
    let row: u64 = sign_extend(int_coords.1);
    let width: u64 = sign_extend(wrap_width);
    let column: u64 = sign_extend(int_coords.0);
    assert(row * width <= u64::MAX) by (nonlinear_arith)
        requires
            row * width + column <= u64::MAX,
            column >= 0,
    ;
    row * width + column
}

/// Integer quotient rounded toward zero, the way machine division rounds.
pub open spec fn quotient_toward_zero(n: int, d: int) -> int {
    if n >= 0 {
        n / d
    } else {
        -((-n) / d)
    }
}

/// A quotient rounded toward zero is no larger in magnitude than its
/// numerator, and fits in 32 bits wherever the machine division does.
proof fn lemma_quotient_within_numerator(n: int, d: int)
    requires
        d != 0,
        i32::MIN <= n <= i32::MAX,
        !(n == i32::MIN && d == -1),
    ensures
        i32::MIN <= quotient_toward_zero(n, d) <= i32::MAX,
{
    if n >= 0 {
        assert(-n <= n / d <= n) by (nonlinear_arith)
            requires
                n >= 0,
                d != 0,
        ;
    } else {
        let m = -n;
        assert(-m <= m / d <= m) by (nonlinear_arith)
            requires
                m >= 0,
                d != 0,
        ;
        assert(d <= -2 ==> 2 * (-(m / d)) <= m) by (nonlinear_arith)
            requires
                m >= 0,
        ;
        assert(d == -1 ==> m / d == -m) by (nonlinear_arith);
    }
}

/// The intensity that an escape count maps to: counts below the limit are
/// scaled onto `0..intensity_limit`, anything else is 0.
pub open spec fn intensity_index(itercount: int, iterlimit: int, intensity_limit: int) -> int {
    if itercount < iterlimit {
        quotient_toward_zero(itercount * intensity_limit, iterlimit)
    } else {
        0
    }
}

/// Scales an iteration count below `iterlimit` onto the intensities below
/// `intensity_limit`; a count that reached the limit maps to 0.
pub fn itercount_to_intensity_index(itercount: i32, iterlimit: i32, intensity_limit: i32) -> (index:
    i32)
    requires
        itercount < iterlimit ==> {
            &&& iterlimit != 0
            &&& i32::MIN <= itercount * intensity_limit <= i32::MAX
            &&& !(itercount * intensity_limit == i32::MIN && iterlimit == -1)
        },
    ensures
        index == intensity_index(itercount as int, iterlimit as int, intensity_limit as int),
{
    if itercount < iterlimit {
        let scaled: i32 = itercount * intensity_limit;
        proof {
            lemma_quotient_within_numerator(scaled as int, iterlimit as int);
        }
        scaled / iterlimit
    } else {
        0
    }
}

/// The sum of two products: each waypoint times its weight.
pub fn weighted_sum_of_pair<T: Mul<Output = T> + Add<Output = T>>(
    waypoint_pair: (T, T),
    weight_pair: (T, T),
) -> (sum: T)
    requires
        T::obeys_mul_spec(),
        waypoint_pair.0.mul_req(weight_pair.0),
        waypoint_pair.1.mul_req(weight_pair.1),
        waypoint_pair.0.mul_spec(weight_pair.0).add_req(
            waypoint_pair.1.mul_spec(weight_pair.1),
        ),
    ensures
        T::obeys_add_spec() ==> sum == waypoint_pair.0.mul_spec(weight_pair.0).add_spec(
            waypoint_pair.1.mul_spec(weight_pair.1),
        ),
{
    (waypoint_pair.0 * weight_pair.0) + (waypoint_pair.1 * weight_pair.1)
}

/// The pixel that a grid point falls into, in exact arithmetic, when a
/// grid of `size` points is laid over a view from edge to edge (`size - 1`
/// intervals) and the view is cut into `size` pixels: point `p` lies at
/// `p / (size - 1)` of the view, which is pixel `p * size / (size - 1)`,
/// rounded down. The view's own size and corner cancel out.
pub open spec fn pixel_of_grid_point(p: int, size: int) -> int {
    (p * size) / (size - 1)
}

/// In exact arithmetic every grid point but the last falls into the pixel
/// of its own index; the last, which lies on the far edge of the view,
/// falls just outside the window.
pub proof fn lemma_grid_point_falls_in_own_pixel(p: int, size: int)
    requires
        2 <= size,
        0 <= p <= size - 1,
    ensures
        p < size - 1 ==> pixel_of_grid_point(p, size) == p,
        p == size - 1 ==> pixel_of_grid_point(p, size) == size,
{
    if p < size - 1 {
        assert(p * size == p * (size - 1) + p) by (nonlinear_arith);
        vstd::arithmetic::div_mod::lemma_fundamental_div_mod_converse(p * size, size - 1, p, p);
    } else {
        assert(p * size == size * (size - 1)) by (nonlinear_arith)
            requires
                p == size - 1,
        ;
        vstd::arithmetic::div_mod::lemma_fundamental_div_mod_converse(
            p * size,
            size - 1,
            size,
            0,
        );
    }
}

} // verus!
