use vstd::prelude::*;

verus! {

/// Half of `n`, rounded toward zero, as integer division does in Rust.
pub open spec fn half_toward_zero(n: int) -> int {
    if n >= 0 {
        n / 2
    } else {
        -((-n) / 2)
    }
}

/// Whether `v` is a value of `i32`.
pub open spec fn fits_i32(v: int) -> bool {
    i32::MIN <= v <= i32::MAX
}

/// A triangle given by the lengths of its three sides.
///
/// Nothing about the sides is enforced: they may be zero, negative, or fail
/// the triangle inequality. The operations below are defined for every value.
#[derive(Debug, Clone, Copy, PartialEq, Eq, Structural)]
pub struct Triangle {
    pub side_ab: i32,
    pub side_bc: i32,
    pub side_ca: i32,
}

impl Triangle {
    /// The sum of the three sides, as a mathematical integer.
    pub open spec fn perimeter_spec(&self) -> int {
        self.side_ab + self.side_bc + self.side_ca
    }

    /// The semi-perimeter: half the perimeter, truncated toward zero.
    pub open spec fn semi_perimeter_spec(&self) -> int {
        half_toward_zero(self.perimeter_spec())
    }

    /// The quantity under the square root in Heron's formula,
    /// `s * (s - ab) * (s - bc) * (s - ca)` with `s` the truncated
    /// semi-perimeter.
    pub open spec fn radicand_spec(&self) -> int {
        let s = self.semi_perimeter_spec();
        s * (s - self.side_ab) * (s - self.side_bc) * (s - self.side_ca)
    }

    /// Sum of the three sides.
    pub fn compute_perimeter(&self) -> (r: i32)
        requires
            fits_i32(self.perimeter_spec()),
        ensures
            r == self.perimeter_spec(),
    {
        let sum: i64 = self.side_ab as i64 + self.side_bc as i64 + self.side_ca as i64;
        sum as i32
    }

    /// The semi-perimeter, half the sum of the sides truncated toward zero.
    /// For an odd perimeter the fractional half is dropped.
    pub fn semi_perimeter(&self) -> (s: i64)
        ensures
            s == self.semi_perimeter_spec(),
    {
        let sum: i64 = self.side_ab as i64 + self.side_bc as i64 + self.side_ca as i64;
        if sum >= 0 {
            sum / 2
        } else {
            -((-sum) / 2)
        }
    }

    /// The integer under the square root in Heron's formula. The area is the
    /// square root of this value; it is negative when the sides cannot form a
    /// triangle. `None` exactly when the value does not fit in `i32`.
    pub fn heron_radicand(&self) -> (r: Option<i32>)
        ensures
            r == (if fits_i32(self.radicand_spec()) {
                Some(self.radicand_spec() as i32)
            } else {
                None::<i32>
            }),
    {
        // The factors are computed exactly in wide integers, so whether the
        // result is `None` depends on the product alone, not on the order of
        // the sides. |s| < 2^32 and each |s - side| < 2^33.
        let s: i64 = self.semi_perimeter();
        let da: i64 = s - self.side_ab as i64;
        let db: i64 = s - self.side_bc as i64;
        let dc: i64 = s - self.side_ca as i64;
        proof {
            lemma_factor_bounds(s as int, da as int, db as int);
        }
        let p1: i128 = s as i128 * da as i128;
        let p2: i128 = p1 * db as i128;
        if dc == 0 {
            proof {
                lemma_times_zero(p2 as int);
            }
            return Some(0);
        }
        // A nonzero last factor cannot shrink the magnitude of the product.
        if p2 > 0x8000_0000 || p2 < -0x8000_0000 {
            proof {
                lemma_large_factor(p2 as int, dc as int);
            }
            return None;
        }
        assert(-0x8000_0000 * 0x2_0000_0000 <= p2 * dc <= 0x8000_0000 * 0x2_0000_0000)
            by (nonlinear_arith)
            requires
                -0x8000_0000 <= p2 <= 0x8000_0000,
                -0x2_0000_0000 <= dc <= 0x2_0000_0000,
        ;
        let p3: i128 = p2 * dc as i128;
        if p3 < i32::MIN as i128 || p3 > i32::MAX as i128 {
            None
        } else {
            Some(p3 as i32)
        }
    }
}

/// Whether the sides of `u` are those of `t` in some order.
pub open spec fn is_permutation_of(u: Triangle, t: Triangle) -> bool {
    let (a, b, c) = (t.side_ab, t.side_bc, t.side_ca);
    ||| (u.side_ab, u.side_bc, u.side_ca) == (a, b, c)
    ||| (u.side_ab, u.side_bc, u.side_ca) == (a, c, b)
    ||| (u.side_ab, u.side_bc, u.side_ca) == (b, a, c)
    ||| (u.side_ab, u.side_bc, u.side_ca) == (b, c, a)
    ||| (u.side_ab, u.side_bc, u.side_ca) == (c, a, b)
    ||| (u.side_ab, u.side_bc, u.side_ca) == (c, b, a)
}

/// The order of the sides does not matter: a triangle whose sides are those
/// of another in any order has the same perimeter, semi-perimeter and Heron
/// radicand, so `compute_perimeter` and `heron_radicand` return the same
/// values for both.
pub proof fn lemma_order_of_sides_irrelevant(t: Triangle, u: Triangle)
    requires
        is_permutation_of(u, t),
    ensures
        u.perimeter_spec() == t.perimeter_spec(),
        u.semi_perimeter_spec() == t.semi_perimeter_spec(),
        u.radicand_spec() == t.radicand_spec(),
{
    let s = t.semi_perimeter_spec();
    lemma_product_of_four_commutes(
        s - t.side_ab,
        s - t.side_bc,
        s - t.side_ca,
        s - u.side_ab,
        s - u.side_bc,
        s - u.side_ca,
        s,
    );
}

/// The operations are pure: triangles with equal sides get equal perimeters,
/// semi-perimeters and radicands, so calling `compute_perimeter`,
/// `semi_perimeter` or `heron_radicand` twice on the same sides gives the
/// same result each time.
pub proof fn lemma_same_sides_same_results(t: Triangle, u: Triangle)
    requires
        u.side_ab == t.side_ab,
        u.side_bc == t.side_bc,
        u.side_ca == t.side_ca,
    ensures
        u.perimeter_spec() == t.perimeter_spec(),
        u.semi_perimeter_spec() == t.semi_perimeter_spec(),
        u.radicand_spec() == t.radicand_spec(),
{
}

/// Positive sides one of which is longer than the other two together cannot
/// form a triangle, and their Heron radicand is negative, so the area, its
/// square root, is not a real number.
pub proof fn lemma_too_long_side_negative_radicand(t: Triangle)
    requires
        t.side_ab > 0,
        t.side_bc > 0,
        t.side_ca > 0,
        t.side_ab > t.side_bc + t.side_ca
            || t.side_bc > t.side_ab + t.side_ca
            || t.side_ca > t.side_ab + t.side_bc,
    ensures
        t.radicand_spec() < 0,
{
    let s = t.semi_perimeter_spec();
    let (x, y, z) = (s - t.side_ab, s - t.side_bc, s - t.side_ca);
    if t.side_ab > t.side_bc + t.side_ca {
        lemma_one_negative_factor(s, x, y, z);
    } else if t.side_bc > t.side_ab + t.side_ca {
        lemma_one_negative_factor(s, y, x, z);
        lemma_product_of_four_commutes(x, y, z, y, x, z, s);
    } else {
        lemma_one_negative_factor(s, z, x, y);
        lemma_product_of_four_commutes(x, y, z, z, x, y, s);
    }
}

proof fn lemma_one_negative_factor(s: int, n: int, p: int, q: int) by (nonlinear_arith)
    requires
        s > 0,
        n < 0,
        p > 0,
        q > 0,
    ensures
        s * n * p * q < 0,
{
}

/// `s * x * y * z` does not depend on the order of `x`, `y` and `z`.
proof fn lemma_product_of_four_commutes(x: int, y: int, z: int, a: int, b: int, c: int, s: int)
    by (nonlinear_arith)
    requires
        (a, b, c) == (x, y, z) || (a, b, c) == (x, z, y) || (a, b, c) == (y, x, z)
            || (a, b, c) == (y, z, x) || (a, b, c) == (z, x, y) || (a, b, c) == (z, y, x),
    ensures
        s * a * b * c == s * x * y * z,
{
}

proof fn lemma_factor_bounds(s: int, da: int, db: int)
    requires
        -0x1_0000_0000 <= s <= 0x1_0000_0000,
        -0x2_0000_0000 <= da <= 0x2_0000_0000,
        -0x2_0000_0000 <= db <= 0x2_0000_0000,
    ensures
        -0x10_0000_0000_0000_0000 <= s * da <= 0x10_0000_0000_0000_0000,
        -0x100_0000_0000_0000_0000_0000_0000 <= s * da * db
            <= 0x100_0000_0000_0000_0000_0000_0000,
{
    assert(-0x10_0000_0000_0000_0000 <= s * da <= 0x10_0000_0000_0000_0000) by (nonlinear_arith)
        requires
            -0x1_0000_0000 <= s <= 0x1_0000_0000,
            -0x2_0000_0000 <= da <= 0x2_0000_0000,
    ;
    let p = s * da;
    assert(-0x100_0000_0000_0000_0000_0000_0000 <= p * db <= 0x100_0000_0000_0000_0000_0000_0000)
        by (nonlinear_arith)
        requires
            -0x10_0000_0000_0000_0000 <= p <= 0x10_0000_0000_0000_0000,
            -0x2_0000_0000 <= db <= 0x2_0000_0000,
    ;
}

proof fn lemma_times_zero(p: int)
    ensures
        p * 0 == 0,
{
}

/// A product whose first factor is out of `[-2^31, 2^31]` and whose second
/// factor is nonzero is out of the range of `i32`.
proof fn lemma_large_factor(p: int, d: int) by (nonlinear_arith)
    requires
        p > 0x8000_0000 || p < -0x8000_0000,
        d != 0,
    ensures
        !fits_i32(p * d),
{
}

} // verus!
