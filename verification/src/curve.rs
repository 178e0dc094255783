//! Curves as data, not code.
//!
//! Attribute→derived mappings (Strength → Physical Power Bonus, Armor Rating
//! → PDR) are themselves balance-patched, so they live in the dataset as
//! point sets with a defined interpolation.
//!
//! Interpolation runs in fixed-point with exactly one rounding per sample:
//! `y = y0 + (y1 − y0) · (x − x0) / (x1 − x0)`, where the multiply-divide is
//! one fused [`Fixed::mul_div_half_even`]. Outside the point range the curve
//! clamps to its end values — extrapolation is a guess, not arithmetic.

use vstd::prelude::*;

use crate::fixed::{
    Fixed, in_micro_range, mul_div_spec, round_half_even, law_rounding_is_monotone,
    law_mul_div_is_monotone,
};

verus! {

/// How values between curve points are computed.
#[derive(Copy, Clone, PartialEq, Eq, Structural, Debug)]
pub enum Interpolation {
    /// Straight line between neighbouring points, one rounding per sample.
    Linear,
}

/// Why a curve definition was rejected.
#[derive(Copy, Clone, PartialEq, Eq, Structural, Debug)]
pub enum CurveError {
    /// A curve needs at least one point.
    Empty,
    /// Inputs must be strictly ascending — equal inputs would make the
    /// sampled value depend on point order.
    NotStrictlyAscending,
}

impl CurveError {
    /// The message a reader sees.
    pub fn to_string(&self) -> (r: String)
        ensures
            r@ == curve_error_text(*self),
    {
        match self {
            CurveError::Empty => crate::text::owned("curve has no points"),
            CurveError::NotStrictlyAscending => crate::text::owned("curve inputs must be strictly ascending"),
        }
    }
}

/// The message for a curve error.
pub open spec fn curve_error_text(e: CurveError) -> Seq<char> {
    match e {
        CurveError::Empty => "curve has no points"@,
        CurveError::NotStrictlyAscending => "curve inputs must be strictly ascending"@,
    }
}

/// Inputs strictly ascend between every pair of neighbours.
pub open spec fn ascending(p: Seq<(Fixed, Fixed)>) -> bool {
    forall|i: int| 0 <= i < p.len() - 1 ==> #[trigger] p[i].0@ < p[i + 1].0@
}

/// A usable point set: non-empty and strictly ascending.
pub open spec fn valid_points(p: Seq<(Fixed, Fixed)>) -> bool {
    p.len() > 0 && ascending(p)
}

/// The straight line through points `i` and `i + 1`, evaluated at `x`.
pub open spec fn segment_value(p: Seq<(Fixed, Fixed)>, i: int, x: int) -> int {
    p[i].1@ + mul_div_spec(p[i + 1].1@ - p[i].1@, x - p[i].0@, p[i + 1].0@ - p[i].0@)
}

/// The segment whose inputs enclose `x`.
pub open spec fn segment_of(p: Seq<(Fixed, Fixed)>, x: int) -> int {
    choose|i: int| 0 <= i < p.len() - 1 && (#[trigger] p[i]).0@ <= x < p[i + 1].0@
}

/// The curve's value at `x`: the first output at or below the first input,
/// the last output at or above the last input, and the straight line
/// between the enclosing neighbours in between.
pub open spec fn sample_spec(p: Seq<(Fixed, Fixed)>, x: int) -> int {
    if x <= p[0].0@ {
        p[0].1@
    } else if x >= p.last().0@ {
        p.last().1@
    } else {
        segment_value(p, segment_of(p, x), x)
    }
}

/// A sampled curve: `(input, output)` points, strictly ascending in input.
#[derive(Debug)]
pub struct Curve {
    points: Vec<(Fixed, Fixed)>,
    interpolation: Interpolation,
}

impl Curve {
    /// The point set.
    pub closed spec fn points_spec(&self) -> Seq<(Fixed, Fixed)> {
        self.points@
    }

    /// A curve built by [`Curve::linear`] satisfies this.
    pub open spec fn wf(&self) -> bool {
        valid_points(self.points_spec())
    }

    /// The curve's value at `x`.
    pub open spec fn at(&self, x: int) -> int {
        sample_spec(self.points_spec(), x)
    }

    /// Builds a linear curve, validating the point set: `Empty` for no
    /// points, `NotStrictlyAscending` when some input does not exceed the
    /// one before it.
    pub fn linear(points: Vec<(Fixed, Fixed)>) -> (r: Result<Curve, CurveError>)
        ensures
            points@.len() == 0 ==> r == Err::<Curve, CurveError>(CurveError::Empty),
            points@.len() > 0 && !ascending(points@) ==> r == Err::<Curve, CurveError>(CurveError::NotStrictlyAscending),
            valid_points(points@) ==> r is Ok && r->Ok_0.points_spec() == points@ && r->Ok_0.wf(),
    {
        if points.len() == 0 {
            return Err(CurveError::Empty);
        }
        let n = points.len();
        let mut i: usize = 0;
        while i + 1 < n
            invariant
                n == points@.len(),
                n > 0,
                i < n,
                forall|j: int| 0 <= j < i ==> #[trigger] points@[j].0@ < points@[j + 1].0@,
            decreases n - i,
        {
            if points[i + 1].0.micro() <= points[i].0.micro() {
                proof {
                    assert(!(points@[i as int].0@ < points@[i + 1].0@));
                }
                return Err(CurveError::NotStrictlyAscending);
            }
            i = i + 1;
        }
        Ok(Curve { points, interpolation: Interpolation::Linear })
    }

    /// The points, in ascending input order.
    pub fn points(&self) -> (r: &Vec<(Fixed, Fixed)>)
        ensures
            r@ == self.points_spec(),
    {
        &self.points
    }

    /// Samples the curve at `x`: clamped outside the range, interpolated
    /// between neighbours inside it, exact at the points themselves.
    pub fn sample(&self, x: Fixed) -> (r: Fixed)
        requires
            self.wf(),
        ensures
            r@ == self.at(x@),
    {
        let p = &self.points;
        let first = p[0];
        if x.micro() <= first.0.micro() {
            return first.1;
        }
        let last = p[p.len() - 1];
        if x.micro() >= last.0.micro() {
            return last.1;
        }
        // The first point whose input exceeds x; x lies strictly inside the
        // range, so both neighbours exist.
        let mut hi: usize = 1;
        while hi < p.len() && p[hi].0.micro() <= x.micro()
            invariant
                1 <= hi <= p@.len(),
                p@ == self.points_spec(),
                forall|j: int| 0 <= j < hi ==> #[trigger] p@[j].0@ <= x@,
            decreases p@.len() - hi,
        {
            hi = hi + 1;
        }
        proof {
            assert(hi < p@.len()) by {
                if hi == p@.len() {
                    assert(p@[p@.len() - 1].0@ <= x@);
                }
            }
            let i = (hi - 1) as int;
            assert(p@[i].0@ <= x@ < p@[i + 1].0@);
            lemma_segment_unique(p@, x@, i);
        }
        let (x0, y0) = p[hi - 1];
        let (x1, y1) = p[hi];
        if x.micro() == x0.micro() {
            proof {
                assert(mul_div_spec(y1@ - y0@, 0, x1@ - x0@) == 0) by {
                    assert((y1@ - y0@) * 0 == 0);
                }
            }
            return y0;
        }
        proof {
            crate::fixed::lemma_fixed_view(y0, y0);
            crate::fixed::lemma_fixed_view(y1, y1);
            lemma_interpolation_between(y0@, y1@, x@ - x0@, x1@ - x0@);
        }
        match self.interpolation {
            Interpolation::Linear => interpolate(x0, y0, x1, y1, x),
        }
    }
}

/// The straight line through `(x0, y0)` and `(x1, y1)` at `x`, strictly
/// between the inputs. The step may be wider than the fixed-point range:
/// the product is formed on magnitudes in `u128`, where it always fits, and
/// the result lies between the two outputs.
fn interpolate(x0: Fixed, y0: Fixed, x1: Fixed, y1: Fixed, x: Fixed) -> (r: Fixed)
    requires
        x0@ < x@ < x1@,
    ensures
        r@ == y0@ + mul_div_spec(y1@ - y0@, x@ - x0@, x1@ - x0@),
{
    let ghost dyi: int = y1@ - y0@;
    let ghost ti: int = x@ - x0@;
    let ghost dxi: int = x1@ - x0@;
    let dx: i128 = x1.micro() as i128 - x0.micro() as i128;
    let t: i128 = x.micro() as i128 - x0.micro() as i128;
    let dy: i128 = y1.micro() as i128 - y0.micro() as i128;
    let neg = dy < 0;
    let a: u128 = if neg { (0 - dy) as u128 } else { dy as u128 };
    let d: u128 = dx as u128;
    let tu: u128 = t as u128;
    proof {
        assert(a < 0x1_0000_0000_0000_0000);
        assert(tu < d && d < 0x1_0000_0000_0000_0000);
        assert(a * tu < 0xffff_ffff_ffff_ffff_ffff_ffff_ffff_ffff) by (nonlinear_arith)
            requires a < 0x1_0000_0000_0000_0000, tu < 0x1_0000_0000_0000_0000;
    }
    let p: u128 = a * tu;
    let q: u128 = p / d;
    let rem: u128 = p % d;
    let up = 2 * rem > d || (2 * rem == d && q % 2 == 1);
    proof {
        assert(q <= p) by {
            vstd::arithmetic::div_mod::lemma_div_is_ordered_by_denominator(p as int, 1, d as int);
        }
    }
    let m: u128 = if up { q + 1 } else { q };
    proof {
        assert(m as int == round_half_even(a as int * ti, dxi));
        if neg {
            lemma_round_neg(a as int * ti, dxi);
            assert(-(a as int * ti) == dyi * ti) by (nonlinear_arith)
                requires a as int == -dyi;
        } else {
            assert(a as int * ti == dyi * ti);
        }
        assert(mul_div_spec(dyi, ti, dxi) == if neg { -(m as int) } else { m as int });
        crate::fixed::lemma_fixed_view(y0, y0);
        crate::fixed::lemma_fixed_view(y1, y1);
        lemma_interpolation_between(y0@, y1@, ti, dxi);
    }
    let v: i128 = if neg { y0.micro() as i128 - m as i128 } else { y0.micro() as i128 + m as i128 };
    Fixed::from_micro(v as i64)
}

/// Rounding half to even is symmetric about zero.
proof fn lemma_round_neg(n: int, d: int)
    requires
        d > 0,
        n >= 0,
    ensures
        round_half_even(-n, d) == -round_half_even(n, d),
{
    let q = n / d;
    let r = n % d;
    vstd::arithmetic::div_mod::lemma_fundamental_div_mod(n, d);
    vstd::arithmetic::div_mod::lemma_mod_bound(n, d);
    assert(n == d * q + r);
    if r == 0 {
        assert(-n == (-q) * d + 0) by (nonlinear_arith)
            requires n == d * q + r, r == 0;
        vstd::arithmetic::div_mod::lemma_fundamental_div_mod_converse(-n, d, -q, 0);
    } else {
        assert(-n == (-q - 1) * d + (d - r)) by (nonlinear_arith)
            requires n == d * q + r;
        vstd::arithmetic::div_mod::lemma_fundamental_div_mod_converse(-n, d, -q - 1, d - r);
    }
}

/// The enclosing segment is unique, so the one found is the one meant.
proof fn lemma_segment_unique(p: Seq<(Fixed, Fixed)>, x: int, i: int)
    requires
        valid_points(p),
        0 <= i < p.len() - 1,
        p[i].0@ <= x < p[i + 1].0@,
    ensures
        segment_of(p, x) == i,
{
    let j = segment_of(p, x);
    assert(0 <= j < p.len() - 1 && p[j].0@ <= x < p[j + 1].0@);
    if j < i {
        lemma_ascending_between(p, j + 1, i);
    } else if j > i {
        lemma_ascending_between(p, i + 1, j);
    }
}

/// In a strictly ascending point set, an earlier input is never above a
/// later one.
pub proof fn lemma_ascending_between(p: Seq<(Fixed, Fixed)>, a: int, b: int)
    requires
        ascending(p),
        0 <= a <= b < p.len(),
    ensures
        p[a].0@ <= p[b].0@,
        a < b ==> p[a].0@ < p[b].0@,
    decreases b - a,
{
    if a < b {
        lemma_ascending_between(p, a, b - 1);
        assert(p[b - 1].0@ < p[b].0@);
    }
}

/// Dividing an exact multiple rounds to nothing: `k · d / d = k`.
proof fn lemma_round_exact(k: int, d: int)
    requires
        d > 0,
    ensures
        round_half_even(k * d, d) == k,
{
    vstd::arithmetic::div_mod::lemma_div_multiples_vanish(k, d);
    vstd::arithmetic::div_mod::lemma_mod_multiples_basic(k, d);
    assert(k * d == d * k) by (nonlinear_arith);
}

/// A point between two neighbours interpolates to a value between their
/// outputs.
proof fn lemma_interpolation_between(y0: int, y1: int, dx: int, w: int)
    requires
        0 <= dx < w,
    ensures
        y0 <= y1 ==> y0 <= y0 + mul_div_spec(y1 - y0, dx, w) <= y1,
        y1 <= y0 ==> y1 <= y0 + mul_div_spec(y1 - y0, dx, w) <= y0,
{
    let dy = y1 - y0;
    lemma_round_exact(0, w);
    lemma_round_exact(dy, w);
    assert(0 * w == 0);
    if dy >= 0 {
        assert(0 <= dy * dx <= dy * w) by (nonlinear_arith)
            requires dy >= 0, 0 <= dx < w;
        law_rounding_is_monotone(0, dy * dx, w);
        law_rounding_is_monotone(dy * dx, dy * w, w);
    } else {
        assert(dy * w <= dy * dx <= 0) by (nonlinear_arith)
            requires dy < 0, 0 <= dx < w;
        law_rounding_is_monotone(dy * dx, 0, w);
        law_rounding_is_monotone(dy * w, dy * dx, w);
    }
}

// ── Laws ────────────────────────────────────────────────────────────────

/// Outputs never decrease from one point to the next.
pub open spec fn non_decreasing(p: Seq<(Fixed, Fixed)>) -> bool {
    forall|i: int| 0 <= i < p.len() - 1 ==> #[trigger] p[i].1@ <= p[i + 1].1@
}

proof fn lemma_outputs_between(p: Seq<(Fixed, Fixed)>, a: int, b: int)
    requires
        non_decreasing(p),
        0 <= a <= b < p.len(),
    ensures
        p[a].1@ <= p[b].1@,
    decreases b - a,
{
    if a < b {
        lemma_outputs_between(p, a, b - 1);
        assert(p[b - 1].1@ <= p[b].1@);
    }
}

/// Where a non-decreasing curve's sample lies: within its segment's
/// outputs, and never outside the curve's first and last outputs.
proof fn lemma_sample_bounds(p: Seq<(Fixed, Fixed)>, x: int)
    requires
        valid_points(p),
        non_decreasing(p),
    ensures
        p[0].1@ <= sample_spec(p, x) <= p.last().1@,
        p[0].0@ < x < p.last().0@ ==> p[segment_of(p, x)].1@ <= sample_spec(p, x) <= p[segment_of(p, x) + 1].1@,
{
    lemma_outputs_between(p, 0, p.len() - 1);
    if p[0].0@ < x < p.last().0@ {
        lemma_segment_exists(p, x);
        let i = segment_of(p, x);
        assert(p[i].1@ <= p[i + 1].1@);
        lemma_interpolation_between(p[i].1@, p[i + 1].1@, x - p[i].0@, p[i + 1].0@ - p[i].0@);
        lemma_outputs_between(p, 0, i);
        lemma_outputs_between(p, i + 1, p.len() - 1);
    }
}

/// Every input strictly inside the range has an enclosing segment.
proof fn lemma_segment_exists(p: Seq<(Fixed, Fixed)>, x: int)
    requires
        valid_points(p),
        p[0].0@ < x < p.last().0@,
    ensures
        0 <= segment_of(p, x) < p.len() - 1,
        p[segment_of(p, x)].0@ <= x < p[segment_of(p, x) + 1].0@,
{
    let k = lemma_segment_from(p, x, 0);
    assert(0 <= k < p.len() - 1 && p[k].0@ <= x < p[k + 1].0@);
}

/// Searching from point `k` onwards finds the enclosing segment.
proof fn lemma_segment_from(p: Seq<(Fixed, Fixed)>, x: int, k: int) -> (s: int)
    requires
        valid_points(p),
        0 <= k < p.len(),
        p[k].0@ <= x < p.last().0@,
    ensures
        0 <= s < p.len() - 1,
        p[s].0@ <= x < p[s + 1].0@,
    decreases p.len() - k,
{
    if k == p.len() - 1 {
        assert(false);
        k
    } else if x < p[k + 1].0@ {
        k
    } else {
        lemma_segment_from(p, x, k + 1)
    }
}

/// Monotone points give monotone samples: when a curve's outputs never
/// decrease, sampling at a larger input never gives a smaller value. This
/// is what makes "more armour rating never lowers PDR" hold for every
/// non-decreasing armour curve.
pub proof fn law_monotone_points_give_monotone_samples(c: Curve, lo: int, hi: int)
    requires
        c.wf(),
        non_decreasing(c.points_spec()),
        lo <= hi,
    ensures
        c.at(lo) <= c.at(hi),
{
    let p = c.points_spec();
    let (a, b) = (lo, hi);
    lemma_sample_bounds(p, a);
    lemma_sample_bounds(p, b);
    if a <= p[0].0@ || b >= p.last().0@ {
        return;
    }
    // Both strictly inside the range.
    lemma_segment_exists(p, a);
    lemma_segment_exists(p, b);
    let i = segment_of(p, a);
    let j = segment_of(p, b);
    if i == j {
        let w = p[i + 1].0@ - p[i].0@;
        let dy = p[i + 1].1@ - p[i].1@;
        assert(p[i].1@ <= p[i + 1].1@);
        assert(dy * (a - p[i].0@) <= dy * (b - p[i].0@)) by (nonlinear_arith)
            requires dy >= 0, a <= b;
        law_mul_div_is_monotone(dy, a - p[i].0@, dy, b - p[i].0@, w);
    } else if i < j {
        lemma_outputs_between(p, i + 1, j);
    } else {
        lemma_ascending_between(p, j + 1, i);
    }
}

} // verus!
