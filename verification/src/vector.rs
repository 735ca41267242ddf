//! Fixed-point three-component vector algebra.
//!
//! A color (or a blend-fraction triple) is an ordered triple of signed
//! 64-bit fixed-point components: a component value of [`FX_ONE`] stands for
//! the real number one. All operations are total: results that would leave
//! the representable range saturate at the range's ends, and a division by
//! zero yields the saturated value of the matching sign (zero for a zero
//! numerator). Component order is fixed and significant.

use vstd::prelude::*;

verus! {

/// The fixed-point scale: a component equal to `FX_ONE` represents 1.0.
pub const FX_ONE: i64 = 65536;

/// Clamps a mathematical integer into the `i64` range.
pub open spec fn sat64(v: int) -> int {
    if v > i64::MAX as int {
        i64::MAX as int
    } else if v < i64::MIN as int {
        i64::MIN as int
    } else {
        v
    }
}

/// Absolute value of a mathematical integer.
pub open spec fn fx_abs(v: int) -> int {
    if v < 0 {
        -v
    } else {
        v
    }
}

/// Fixed-point product of two components: `a * b / FX_ONE`, with the
/// magnitude rounded toward zero and the result saturated.
pub open spec fn fx_mul(a: int, b: int) -> int {
    let m = (fx_abs(a) * fx_abs(b)) / (FX_ONE as int);
    if (a < 0) <==> (b < 0) {
        sat64(m)
    } else {
        sat64(-m)
    }
}

/// Fixed-point quotient of two components: `a * FX_ONE / b`, with the
/// magnitude rounded toward zero and the result saturated. A zero divisor
/// yields the saturated value of the sign of the numerator (zero when the
/// numerator is zero), standing in for the infinities of real division.
pub open spec fn fx_div(a: int, b: int) -> int {
    if b == 0 {
        if a == 0 {
            0
        } else if a > 0 {
            i64::MAX as int
        } else {
            i64::MIN as int
        }
    } else {
        let m = (fx_abs(a) * (FX_ONE as int)) / fx_abs(b);
        if (a < 0) <==> (b < 0) {
            sat64(m)
        } else {
            sat64(-m)
        }
    }
}

/// A three-component fixed-point vector.
#[derive(Clone, Copy, Debug, PartialEq, Eq, Structural, Hash)]
pub struct Vector3 {
    pub x: i64,
    pub y: i64,
    pub z: i64,
}

/// The vector whose components are the saturated values of the given
/// mathematical integers.
pub open spec fn spec_v3(x: int, y: int, z: int) -> Vector3 {
    Vector3 { x: sat64(x) as i64, y: sat64(y) as i64, z: sat64(z) as i64 }
}

/// Component-wise negation.
pub open spec fn v_neg(a: Vector3) -> Vector3 {
    spec_v3(-(a.x as int), -(a.y as int), -(a.z as int))
}

/// Component-wise addition.
pub open spec fn v_add(a: Vector3, b: Vector3) -> Vector3 {
    spec_v3(a.x + b.x, a.y + b.y, a.z + b.z)
}

/// Component-wise subtraction.
pub open spec fn v_sub(a: Vector3, b: Vector3) -> Vector3 {
    spec_v3(a.x - b.x, a.y - b.y, a.z - b.z)
}

/// Multiplication by a fixed-point scalar.
pub open spec fn v_scale(a: Vector3, s: int) -> Vector3 {
    Vector3 {
        x: fx_mul(a.x as int, s) as i64,
        y: fx_mul(a.y as int, s) as i64,
        z: fx_mul(a.z as int, s) as i64,
    }
}

/// Division by a fixed-point scalar.
pub open spec fn v_scale_div(a: Vector3, s: int) -> Vector3 {
    Vector3 {
        x: fx_div(a.x as int, s) as i64,
        y: fx_div(a.y as int, s) as i64,
        z: fx_div(a.z as int, s) as i64,
    }
}

/// Hadamard (component-wise) product.
pub open spec fn v_mul_elem(a: Vector3, b: Vector3) -> Vector3 {
    Vector3 {
        x: fx_mul(a.x as int, b.x as int) as i64,
        y: fx_mul(a.y as int, b.y as int) as i64,
        z: fx_mul(a.z as int, b.z as int) as i64,
    }
}

/// Hadamard (component-wise) quotient.
pub open spec fn v_div_elem(a: Vector3, b: Vector3) -> Vector3 {
    Vector3 {
        x: fx_div(a.x as int, b.x as int) as i64,
        y: fx_div(a.y as int, b.y as int) as i64,
        z: fx_div(a.z as int, b.z as int) as i64,
    }
}

/// Saturating `i64` addition.
fn sat_add(a: i64, b: i64) -> (r: i64)
    ensures
        r as int == sat64(a + b),
{
    let s: i128 = a as i128 + b as i128;
    if s > i64::MAX as i128 {
        i64::MAX
    } else if s < i64::MIN as i128 {
        i64::MIN
    } else {
        s as i64
    }
}

/// Saturating `i64` subtraction.
fn sat_sub(a: i64, b: i64) -> (r: i64)
    ensures
        r as int == sat64(a - b),
{
    let s: i128 = a as i128 - b as i128;
    if s > i64::MAX as i128 {
        i64::MAX
    } else if s < i64::MIN as i128 {
        i64::MIN
    } else {
        s as i64
    }
}

/// Saturating `i64` negation.
fn sat_neg(a: i64) -> (r: i64)
    ensures
        r as int == sat64(-(a as int)),
{
    if a == i64::MIN {
        i64::MAX
    } else {
        -a
    }
}

/// The magnitude of an `i64` as a `u128`.
fn abs_u128(a: i64) -> (r: u128)
    ensures
        r as int == fx_abs(a as int),
        r <= 0x8000_0000_0000_0000u128,
{
    if a >= 0 {
        a as u128
    } else {
        (-(a as i128)) as u128
    }
}

/// Applies the sign and the saturation step shared by [`fx_mul`] and
/// [`fx_div`]: yields `sat64(m)` for a positive sign and `sat64(-m)` for a
/// negative one.
fn sat_signed(m: u128, negative: bool) -> (r: i64)
    ensures
        !negative ==> r as int == sat64(m as int),
        negative ==> r as int == sat64(-(m as int)),
{
    if negative {
        if m >= 0x8000_0000_0000_0000u128 {
            i64::MIN
        } else {
            -(m as i64)
        }
    } else {
        if m > i64::MAX as u128 {
            i64::MAX
        } else {
            m as i64
        }
    }
}

/// Fixed-point multiplication on raw components.
fn mul_fx(a: i64, b: i64) -> (r: i64)
    ensures
        r as int == fx_mul(a as int, b as int),
{
    let ua = abs_u128(a);
    let ub = abs_u128(b);
    proof {
        assert(ua * ub <= 0x8000_0000_0000_0000u128 * 0x8000_0000_0000_0000u128)
            by (nonlinear_arith)
            requires
                ua <= 0x8000_0000_0000_0000u128,
                ub <= 0x8000_0000_0000_0000u128,
        ;
    }
    let m: u128 = (ua * ub) / (FX_ONE as u128);
    sat_signed(m, (a < 0) != (b < 0))
}

/// Fixed-point division on raw components.
fn div_fx(a: i64, b: i64) -> (r: i64)
    ensures
        r as int == fx_div(a as int, b as int),
{
    if b == 0 {
        if a == 0 {
            0
        } else if a > 0 {
            i64::MAX
        } else {
            i64::MIN
        }
    } else {
        let ua = abs_u128(a);
        let ub = abs_u128(b);
        proof {
            assert(ua * (FX_ONE as u128) <= 0x8000_0000_0000_0000u128 * (FX_ONE as u128))
                by (nonlinear_arith)
                requires
                    ua <= 0x8000_0000_0000_0000u128,
            ;
        }
        let m: u128 = (ua * (FX_ONE as u128)) / ub;
        sat_signed(m, (a < 0) != (b < 0))
    }
}

impl Vector3 {
    /// Builds a vector from its three components.
    pub fn new(x: i64, y: i64, z: i64) -> (r: Vector3)
        ensures
            r == (Vector3 { x, y, z }),
    {
        Vector3 { x, y, z }
    }

    /// The component at the given index: 0, 1 and 2 name the first, second
    /// and third component.
    pub open spec fn spec_nth(self, i: int) -> int {
        if i == 0 {
            self.x as int
        } else if i == 1 {
            self.y as int
        } else {
            self.z as int
        }
    }

    /// Reads the component at the given index.
    pub fn nth(&self, i: usize) -> (r: i64)
        requires
            i < 3,
        ensures
            r as int == self.spec_nth(i as int),
    {
        if i == 0 {
            self.x
        } else if i == 1 {
            self.y
        } else {
            self.z
        }
    }

    /// Replaces the component at the given index.
    pub fn set_nth(&mut self, i: usize, v: i64)
        requires
            i < 3,
        ensures
            final(self).spec_nth(i as int) == v as int,
            forall|j: int| 0 <= j < 3 && j != i as int ==> final(self).spec_nth(j) == old(
                self,
            ).spec_nth(j),
    {
        if i == 0 {
            self.x = v;
        } else if i == 1 {
            self.y = v;
        } else {
            self.z = v;
        }
    }

    /// Builds a vector from a per-index function, the way a coordinate type
    /// for a spatial index is generated.
    pub fn generate<F: Fn(usize) -> i64>(f: &F) -> (r: Vector3)
        requires
            forall|i: usize| i < 3 ==> f.requires((i,)),
        ensures
            f.ensures((0usize,), r.x),
            f.ensures((1usize,), r.y),
            f.ensures((2usize,), r.z),
    {
        Vector3 { x: f(0), y: f(1), z: f(2) }
    }

    /// Borrows the component at the given index mutably.
    pub fn nth_mut(&mut self, i: usize) -> (r: &mut i64)
        requires
            i < 3,
        ensures
            *r == old(self).spec_nth(i as int),
            final(self).spec_nth(i as int) == *final(r),
            forall|j: int| 0 <= j < 3 && j != i as int ==> final(self).spec_nth(j) == old(
                self,
            ).spec_nth(j),
    {
        if i == 0 {
            &mut self.x
        } else if i == 1 {
            &mut self.y
        } else {
            &mut self.z
        }
    }

    /// Component-wise negation.
    pub fn neg(self) -> (r: Vector3)
        ensures
            r == v_neg(self),
    {
        Vector3 { x: sat_neg(self.x), y: sat_neg(self.y), z: sat_neg(self.z) }
    }

    /// Component-wise addition.
    pub fn add(self, other: Vector3) -> (r: Vector3)
        ensures
            r == v_add(self, other),
    {
        Vector3 {
            x: sat_add(self.x, other.x),
            y: sat_add(self.y, other.y),
            z: sat_add(self.z, other.z),
        }
    }

    /// Component-wise subtraction.
    pub fn sub(self, other: Vector3) -> (r: Vector3)
        ensures
            r == v_sub(self, other),
    {
        Vector3 {
            x: sat_sub(self.x, other.x),
            y: sat_sub(self.y, other.y),
            z: sat_sub(self.z, other.z),
        }
    }

    /// Multiplication by a fixed-point scalar.
    pub fn scale(self, s: i64) -> (r: Vector3)
        ensures
            r == v_scale(self, s as int),
    {
        Vector3 { x: mul_fx(self.x, s), y: mul_fx(self.y, s), z: mul_fx(self.z, s) }
    }

    /// Division by a fixed-point scalar.
    pub fn scale_div(self, s: i64) -> (r: Vector3)
        ensures
            r == v_scale_div(self, s as int),
    {
        Vector3 { x: div_fx(self.x, s), y: div_fx(self.y, s), z: div_fx(self.z, s) }
    }

    /// Hadamard (component-wise) multiplication.
    pub fn mul_elem(self, other: Vector3) -> (r: Vector3)
        ensures
            r == v_mul_elem(self, other),
    {
        Vector3 {
            x: mul_fx(self.x, other.x),
            y: mul_fx(self.y, other.y),
            z: mul_fx(self.z, other.z),
        }
    }

    /// Hadamard (component-wise) division.
    pub fn div_elem(self, other: Vector3) -> (r: Vector3)
        ensures
            r == v_div_elem(self, other),
    {
        Vector3 {
            x: div_fx(self.x, other.x),
            y: div_fx(self.y, other.y),
            z: div_fx(self.z, other.z),
        }
    }
}

} // verus!
