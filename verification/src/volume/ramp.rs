use vstd::arithmetic::div_mod::{
    lemma_div_is_ordered, lemma_div_pos_is_pos, lemma_multiply_divide_le,
    lemma_multiply_divide_lt,
};
use vstd::arithmetic::mul::lemma_mul_inequality;
use vstd::prelude::*;

verus! {

/// Fixed-point denominator for ramp progress: a query instant inside the
/// ramp window is mapped to a progress value in `0..EASE_SCALE`.
pub const EASE_SCALE: u64 = 4096;

/// `EASE_SCALE` to the fifth power, the denominator of the eased fraction.
pub const EASE_SCALE_POW5: u64 = 0x1000_0000_0000_0000;

/// The mathematical content of a ramp: levels and instants as plain
/// integers.
pub struct RampModel {
    pub from: int,
    pub to: int,
    pub start: int,
    pub end: int,
}

/// The quadratic factor of the smootherstep polynomial, scaled by
/// `EASE_SCALE`: `6u^2 - 15*u*S + 10*S^2`. It is positive for every `u`.
pub open spec fn ease_weight(u: int) -> int {
    6 * u * u - 15 * u * (EASE_SCALE as int) + 10 * (EASE_SCALE as int) * (EASE_SCALE as int)
}

/// The smootherstep polynomial `u^3 * (6u^2 - 15uS + 10S^2)` in fixed
/// point: for `u` in `0..=S` it runs from `0` to `S^5`, with zero first and
/// second derivative at both ends.
pub open spec fn ease_poly(u: int) -> int {
    u * u * u * ease_weight(u)
}

/// Rounds `delta * g / S^5` to the nearest integer (for `delta >= 0` and an
/// eased numerator `g` in `0..=S^5`): the distance the level has moved from
/// its starting point.
pub open spec fn scaled_delta(delta: int, g: int) -> int {
    (2 * (delta * g) + EASE_SCALE_POW5 as int) / (2 * (EASE_SCALE_POW5 as int))
}

/// What `value_at` returns, as a function of the model and the query
/// instant: the starting level before the window, the target at or past the
/// deadline, and the eased interpolation in between.
pub open spec fn ramp_value(m: RampModel, now: int) -> int {
    if now <= m.start {
        m.from
    } else if now >= m.end {
        m.to
    } else {
        let u = ((now - m.start) * (EASE_SCALE as int)) / (m.end - m.start);
        if m.from <= m.to {
            m.from + scaled_delta(m.to - m.from, ease_poly(u))
        } else {
            m.from - scaled_delta(m.from - m.to, ease_poly(u))
        }
    }
}

/// Validity of a ramp: both levels in range and a well-ordered window.
pub open spec fn ramp_wf(m: RampModel) -> bool {
    &&& 0 <= m.from <= 100
    &&& 0 <= m.to <= 100
    &&& 0 <= m.start <= m.end
}

/// A single ramp: move from the level observed now to the target level,
/// over the window that ends at the target instant. Instants are
/// milliseconds on the caller's monotonic clock.
pub struct VolumeRamp {
    from: u8,
    to: u8,
    start: u64,
    end: u64,
}

impl View for VolumeRamp {
    type V = RampModel;

    closed spec fn view(&self) -> RampModel {
        RampModel {
            from: self.from as int,
            to: self.to as int,
            start: self.start as int,
            end: self.end as int,
        }
    }
}

proof fn lemma_ease_weight_pos(u: int)
    ensures
        ease_weight(u) > 0,
{
    let s = EASE_SCALE as int;
    assert(8 * (6 * u * u - 15 * u * s + 10 * s * s) == 3 * (4 * u - 5 * s) * (4 * u - 5 * s) + 5
        * s * s) by (nonlinear_arith);
    assert(3 * (4 * u - 5 * s) * (4 * u - 5 * s) >= 0) by (nonlinear_arith);
}

proof fn lemma_ease_poly_nonneg(u: int)
    requires
        0 <= u,
    ensures
        0 <= ease_poly(u),
{
    lemma_ease_weight_pos(u);
    assert(u * u * u >= 0) by (nonlinear_arith)
        requires
            u >= 0,
    ;
    assert(u * u * u * ease_weight(u) >= 0) by (nonlinear_arith)
        requires
            u * u * u >= 0 && ease_weight(u) > 0,
    ;
}

/// `ease_poly` with the scale as a parameter, so the algebra below can be
/// stated once.
spec fn ease_poly_with(x: int, s: int) -> int {
    x * x * x * (6 * x * x - 15 * x * s + 10 * s * s)
}

proof fn lemma_poly_as_powers(x: int, s: int)
    ensures
        ease_poly_with(x, s) == 6 * (x * x * x * x * x) - 15 * (s * (x * x * x * x)) + 10 * ((s
            * s) * (x * x * x)),
{
    assert(x * x * x * (6 * x * x - 15 * x * s + 10 * s * s) == 6 * (x * x * x * x * x) - 15 * (s
        * (x * x * x * x)) + 10 * ((s * s) * (x * x * x))) by (nonlinear_arith);
}

/// Expansions of the powers and power sums of `b = a + d` as sums of the
/// monomials `a^i * d^j`, written in one fixed spelling each so later steps
/// can combine them linearly.
proof fn lemma_binomial_monomials(a: int, d: int, b: int)
    requires
        b == a + d,
    ensures
        b * b == a * a + 2 * (a * d) + d * d,
        b * b * b == a * a * a + 3 * ((a * a) * d) + 3 * (a * (d * d)) + d * d * d,
        b * b * b * b == a * a * a * a + 4 * ((a * a * a) * d) + 6 * ((a * a) * (d * d)) + 4 * (a
            * (d * d * d)) + d * d * d * d,
        a * (b * b * b) == a * a * a * a + 3 * ((a * a * a) * d) + 3 * ((a * a) * (d * d)) + a * (d
            * d * d),
        (a * a) * (b * b) == a * a * a * a + 2 * ((a * a * a) * d) + (a * a) * (d * d),
        (a * a * a) * b == a * a * a * a + (a * a * a) * d,
        a * (b * b) == a * a * a + 2 * ((a * a) * d) + a * (d * d),
        (a * a) * b == a * a * a + (a * a) * d,
        a * b == a * a + a * d,
{
    assert((a + d) * (a + d) == a * a + 2 * (a * d) + d * d) by (nonlinear_arith);
    assert((a + d) * (a + d) * (a + d) == a * a * a + 3 * ((a * a) * d) + 3 * (a * (d * d)) + d * d
        * d) by (nonlinear_arith);
    assert((a + d) * (a + d) * (a + d) * (a + d) == a * a * a * a + 4 * ((a * a * a) * d) + 6 * ((a
        * a) * (d * d)) + 4 * (a * (d * d * d)) + d * d * d * d) by (nonlinear_arith);
    assert(a * ((a + d) * (a + d) * (a + d)) == a * a * a * a + 3 * ((a * a * a) * d) + 3 * ((a
        * a) * (d * d)) + a * (d * d * d)) by (nonlinear_arith);
    assert((a * a) * ((a + d) * (a + d)) == a * a * a * a + 2 * ((a * a * a) * d) + (a * a) * (d
        * d)) by (nonlinear_arith);
    assert((a * a * a) * (a + d) == a * a * a * a + (a * a * a) * d) by (nonlinear_arith);
    assert(a * ((a + d) * (a + d)) == a * a * a + 2 * ((a * a) * d) + a * (d * d))
        by (nonlinear_arith);
    assert((a * a) * (a + d) == a * a * a + (a * a) * d) by (nonlinear_arith);
    assert(a * (a + d) == a * a + a * d) by (nonlinear_arith);
}

/// The monomials `a^i * d^j` are nonnegative for nonnegative `a` and `d`.
proof fn lemma_monomials_nonneg(a: int, d: int)
    requires
        0 <= a,
        0 <= d,
    ensures
        0 <= a * a,
        0 <= a * d,
        0 <= d * d,
        0 <= a * a * a,
        0 <= (a * a) * d,
        0 <= a * (d * d),
        0 <= d * d * d,
        0 <= (a * a) * (d * d),
        0 <= a * (d * d * d),
        0 <= d * d * d * d,
{
    assert(0 <= a * a && 0 <= a * d && 0 <= d * d && 0 <= a * a * a && 0 <= (a * a) * d && 0 <= a
        * (d * d) && 0 <= d * d * d && 0 <= (a * a) * (d * d) && 0 <= a * (d * d * d) && 0 <= d * d
        * d * d) by (nonlinear_arith)
        requires
            0 <= a && 0 <= d,
    ;
}

/// Combining the power differences: if each `b^n - a^n` factors as the gap
/// times a power sum, the polynomial difference factors as the gap times
/// the divided difference `q`.
proof fn lemma_diff_combination(
    gap: int,
    s: int,
    s2: int,
    pa: int,
    pb: int,
    a3: int,
    a4: int,
    a5: int,
    b3: int,
    b4: int,
    b5: int,
    w2: int,
    w3: int,
    w4: int,
    q: int,
)
    requires
        pb == 6 * b5 - 15 * (s * b4) + 10 * (s2 * b3),
        pa == 6 * a5 - 15 * (s * a4) + 10 * (s2 * a3),
        b3 - a3 == gap * w2,
        b4 - a4 == gap * w3,
        b5 - a5 == gap * w4,
        q == 6 * w4 - 15 * (s * w3) + 10 * (s2 * w2),
    ensures
        pb - pa == gap * q,
{
    assert(pb - pa == gap * q) by (nonlinear_arith)
        requires
            pb == 6 * b5 - 15 * (s * b4) + 10 * (s2 * b3) && pa == 6 * a5 - 15 * (s * a4) + 10 * (
            s2 * a3) && b3 - a3 == gap * w2 && b4 - a4 == gap * w3 && b5 - a5 == gap * w4 && q == 6
                * w4 - 15 * (s * w3) + 10 * (s2 * w2),
    ;
}

/// Multiplying a cubic in the monomials of `a` and `d` by `b = a + d`.
proof fn lemma_scale_cubic_by_binomial(a: int, d: int, b: int, w: int)
    requires
        b == a + d,
        w == 3 * (a * a * a) + 6 * ((a * a) * d) + 4 * (a * (d * d)) + d * d * d,
    ensures
        b * w == 3 * (a * a * a * a) + 9 * ((a * a * a) * d) + 10 * ((a * a) * (d * d)) + 5 * (a
            * (d * d * d)) + d * d * d * d,
{
    assert(b * w == 3 * (a * a * a * a) + 9 * ((a * a * a) * d) + 10 * ((a * a) * (d * d)) + 5 * (a
        * (d * d * d)) + d * d * d * d) by (nonlinear_arith)
        requires
            b == a + d && w == 3 * (a * a * a) + 6 * ((a * a) * d) + 4 * (a * (d * d)) + d * d * d,
    ;
}

/// Monotonicity of the ease polynomial on `0..=S`: the certificate is the
/// factoring of `ease_poly(b) - ease_poly(a)` into `(b - a)` times a sum of
/// products of the nonnegative quantities `a`, `b - a` and `S - b`.
proof fn lemma_ease_poly_monotone(a: int, b: int)
    requires
        0 <= a <= b <= EASE_SCALE as int,
    ensures
        ease_poly(a) <= ease_poly(b),
{
    let s = EASE_SCALE as int;
    let d = b - a;
    let e = s - b;
    lemma_binomial_monomials(a, d, b);
    lemma_monomials_nonneg(a, d);
    // Power-sum factors of `b^n - a^n`.
    let p2 = b * b + a * b + a * a;
    let p3 = b * b * b + a * (b * b) + (a * a) * b + a * a * a;
    let p4 = b * b * b * b + a * (b * b * b) + (a * a) * (b * b) + (a * a * a) * b + a * a * a * a;
    assert(b * b * b - a * a * a == d * p2) by (nonlinear_arith)
        requires
            d == b - a && p2 == b * b + a * b + a * a,
    ;
    assert(b * b * b * b - a * a * a * a == d * p3) by (nonlinear_arith)
        requires
            d == b - a && p3 == b * b * b + a * (b * b) + (a * a) * b + a * a * a,
    ;
    assert(b * b * b * b * b - a * a * a * a * a == d * p4) by (nonlinear_arith)
        requires
            d == b - a && p4 == b * b * b * b + a * (b * b * b) + (a * a) * (b * b) + (a * a * a)
                * b + a * a * a * a,
    ;
    // The divided difference of the polynomial over `[a, b]`. Naming the
    // powers keeps the combination below multilinear.
    let s2 = s * s;
    let a3 = a * a * a;
    let a4 = a * a * a * a;
    let a5 = a * a * a * a * a;
    let b3 = b * b * b;
    let b4 = b * b * b * b;
    let b5 = b * b * b * b * b;
    let q = 6 * p4 - 15 * (s * p3) + 10 * (s2 * p2);
    lemma_poly_as_powers(a, s);
    lemma_poly_as_powers(b, s);
    lemma_diff_combination(
        d,
        s,
        s2,
        ease_poly_with(a, s),
        ease_poly_with(b, s),
        a3,
        a4,
        a5,
        b3,
        b4,
        b5,
        p2,
        p3,
        p4,
        q,
    );
    assert(ease_poly_with(b, s) - ease_poly_with(a, s) == d * q);
    // Split `q` by powers of `e = s - b`.
    let t0 = 6 * p4 - 15 * (b * p3) + 10 * ((b * b) * p2);
    let t1 = 20 * (b * p2) - 15 * p3;
    assert(q == t0 + e * t1 + 10 * ((e * e) * p2)) by (nonlinear_arith)
        requires
            s == b + e && s2 == s * s && q == 6 * p4 - 15 * (s * p3) + 10 * (s2 * p2) && t0 == 6
                * p4 - 15 * (b * p3) + 10 * ((b * b) * p2) && t1 == 20 * (b * p2) - 15 * p3,
    ;
    // Expand the split parts in the monomials of `a` and `d`. The power
    // sums are linear combinations of the expansions proved above.
    assert(p2 == 3 * (a * a) + 3 * (a * d) + d * d);
    assert(p3 == 4 * (a * a * a) + 6 * ((a * a) * d) + 4 * (a * (d * d)) + d * d * d);
    assert(p4 == 5 * (a * a * a * a) + 10 * ((a * a * a) * d) + 10 * ((a * a) * (d * d)) + 5 * (a
        * (d * d * d)) + d * d * d * d);
    assert(b * p3 == 4 * (a * a * a * a) + 10 * ((a * a * a) * d) + 10 * ((a * a) * (d * d)) + 5
        * (a * (d * d * d)) + d * d * d * d) by (nonlinear_arith)
        requires
            b == a + d && p3 == 4 * (a * a * a) + 6 * ((a * a) * d) + 4 * (a * (d * d)) + d * d
                * d,
    ;
    assert(b * p2 == 3 * (a * a * a) + 6 * ((a * a) * d) + 4 * (a * (d * d)) + d * d * d)
        by (nonlinear_arith)
        requires
            b == a + d && p2 == 3 * (a * a) + 3 * (a * d) + d * d,
    ;
    assert((b * b) * p2 == b * (b * p2)) by (nonlinear_arith);
    lemma_scale_cubic_by_binomial(a, d, b, b * p2);
    assert(b * (b * p2) == 3 * (a * a * a * a) + 9 * ((a * a * a) * d) + 10 * ((a * a) * (d * d))
        + 5 * (a * (d * d * d)) + d * d * d * d);
    // Now `t0` and `t1` reduce linearly to nonnegative monomial sums.
    assert(t0 == 10 * ((a * a) * (d * d)) + 5 * (a * (d * d * d)) + d * d * d * d);
    assert(t1 == 30 * ((a * a) * d) + 20 * (a * (d * d)) + 5 * (d * d * d));
    assert(t0 >= 0 && t1 >= 0 && p2 >= 0);
    assert(e * t1 >= 0) by (nonlinear_arith)
        requires
            e >= 0 && t1 >= 0,
    ;
    assert((e * e) * p2 >= 0) by (nonlinear_arith)
        requires
            e >= 0 && p2 >= 0,
    ;
    assert(q >= 0);
    assert(d * q >= 0) by (nonlinear_arith)
        requires
            d >= 0 && q >= 0,
    ;
    assert(ease_poly(a) == ease_poly_with(a, s));
    assert(ease_poly(b) == ease_poly_with(b, s));
}

proof fn lemma_ease_poly_range(u: int)
    requires
        0 <= u <= EASE_SCALE as int,
    ensures
        0 <= ease_poly(u) <= EASE_SCALE_POW5 as int,
{
    lemma_ease_poly_nonneg(u);
    lemma_ease_poly_monotone(u, EASE_SCALE as int);
    let s = EASE_SCALE as int;
    assert(ease_poly(s) == s * s * s * s * s) by (nonlinear_arith)
        requires
            ease_poly(s) == s * s * s * (6 * s * s - 15 * s * s + 10 * s * s),
    ;
    assert(s * s * s * s * s == EASE_SCALE_POW5 as int) by (nonlinear_arith)
        requires
            s == 4096,
    ;
}

/// Bounds on the rounded move: it never exceeds the full distance.
proof fn lemma_scaled_delta_range(delta: int, g: int)
    requires
        0 <= delta,
        0 <= g <= EASE_SCALE_POW5 as int,
    ensures
        0 <= scaled_delta(delta, g) <= delta,
{
    let s5 = EASE_SCALE_POW5 as int;
    assert(delta * g >= 0) by (nonlinear_arith)
        requires
            delta >= 0 && g >= 0,
    ;
    lemma_div_pos_is_pos(2 * (delta * g) + s5, 2 * s5);
    assert(2 * (delta * g) + s5 < (2 * s5) * (delta + 1)) by (nonlinear_arith)
        requires
            delta >= 0 && 0 <= g <= s5 && s5 > 0,
    ;
    lemma_multiply_divide_lt(2 * (delta * g) + s5, 2 * s5, delta + 1);
}

proof fn lemma_scaled_delta_monotone(delta: int, g1: int, g2: int)
    requires
        0 <= delta,
        g1 <= g2,
    ensures
        scaled_delta(delta, g1) <= scaled_delta(delta, g2),
{
    let s5 = EASE_SCALE_POW5 as int;
    assert(delta * g1 <= delta * g2) by (nonlinear_arith)
        requires
            delta >= 0 && g1 <= g2,
    ;
    lemma_div_is_ordered(2 * (delta * g1) + s5, 2 * (delta * g2) + s5, 2 * s5);
}

/// The progress value for an instant strictly inside the window lies in
/// `0..EASE_SCALE`, and grows with the instant.
proof fn lemma_progress_range(x: int, d: int)
    requires
        0 < x < d,
    ensures
        0 <= (x * (EASE_SCALE as int)) / d < EASE_SCALE as int,
{
    let s = EASE_SCALE as int;
    assert(x * s >= 0) by (nonlinear_arith)
        requires
            x >= 0 && s >= 0,
    ;
    lemma_div_pos_is_pos(x * s, d);
    assert(x * s < d * s) by (nonlinear_arith)
        requires
            0 < x < d && s > 0,
    ;
    lemma_multiply_divide_lt(x * s, d, s);
}

/// The value the engine reports always lies between the two levels of the
/// ramp (and so in `0..=100` for a valid ramp).
pub proof fn lemma_ramp_value_bounds(m: RampModel, now: int)
    requires
        ramp_wf(m),
    ensures
        m.from <= m.to ==> m.from <= ramp_value(m, now) <= m.to,
        m.to <= m.from ==> m.to <= ramp_value(m, now) <= m.from,
        0 <= ramp_value(m, now) <= 100,
{
    if now <= m.start || now >= m.end {
    } else {
        let d = m.end - m.start;
        let x = now - m.start;
        let u = (x * (EASE_SCALE as int)) / d;
        lemma_progress_range(x, d);
        lemma_ease_poly_range(u);
        if m.from <= m.to {
            lemma_scaled_delta_range(m.to - m.from, ease_poly(u));
        } else {
            lemma_scaled_delta_range(m.from - m.to, ease_poly(u));
        }
    }
}

/// The engine is monotonic in the query instant: the level moves weakly
/// toward the target, never away from it, whichever direction the ramp
/// runs.
pub proof fn lemma_ramp_value_monotone(m: RampModel, n1: int, n2: int)
    requires
        ramp_wf(m),
        n1 <= n2,
    ensures
        m.from <= m.to ==> ramp_value(m, n1) <= ramp_value(m, n2),
        m.to <= m.from ==> ramp_value(m, n2) <= ramp_value(m, n1),
{
    lemma_ramp_value_bounds(m, n1);
    lemma_ramp_value_bounds(m, n2);
    if m.start < n1 && n1 < m.end && m.start < n2 && n2 < m.end {
        let d = m.end - m.start;
        let x1 = n1 - m.start;
        let x2 = n2 - m.start;
        let s = EASE_SCALE as int;
        let u1 = (x1 * s) / d;
        let u2 = (x2 * s) / d;
        lemma_progress_range(x1, d);
        lemma_progress_range(x2, d);
        lemma_mul_inequality(x1, x2, s);
        lemma_div_is_ordered(x1 * s, x2 * s, d);
        lemma_ease_poly_monotone(u1, u2);
        lemma_ease_poly_range(u1);
        lemma_ease_poly_range(u2);
        if m.from <= m.to {
            lemma_scaled_delta_monotone(m.to - m.from, ease_poly(u1), ease_poly(u2));
        } else {
            lemma_scaled_delta_monotone(m.from - m.to, ease_poly(u1), ease_poly(u2));
        }
    }
}

impl VolumeRamp {
    /// Validity of this ramp; established by `new` and preserved ever
    /// after, since the fields never change.
    pub open spec fn wf(&self) -> bool {
        ramp_wf(self@)
    }

    /// Build a ramp that ends at `target_time` having reached `target`,
    /// starting `duration` milliseconds earlier from the level observed
    /// now.
    pub fn new(current_volume_now: u8, target: u8, target_time: u64, duration: u64) -> (r:
        VolumeRamp)
        requires
            current_volume_now <= 100,
            target <= 100,
            duration <= target_time,
        ensures
            r@ == (RampModel {
                from: current_volume_now as int,
                to: target as int,
                start: target_time - duration,
                end: target_time as int,
            }),
            r.wf(),
    {
        VolumeRamp { from: current_volume_now, to: target, start: target_time - duration, end: target_time }
    }

    /// The instant the ramp window ends (and the target must be reached).
    pub fn end(&self) -> (r: u64)
        ensures
            r == self@.end,
    {
        self.end
    }

    /// The target level of this ramp.
    pub fn target(&self) -> (r: u8)
        ensures
            r == self@.to,
    {
        self.to
    }

    /// The eased level for a query instant: `from` before the window, `to`
    /// at or after its end, and the smootherstep interpolation between the
    /// two inside it, rounded to the nearest integer.
    pub fn value_at(&self, now: u64) -> (r: u8)
        requires
            self.wf(),
        ensures
            r as int == ramp_value(self@, now as int),
            now <= self@.start ==> r as int == self@.from,
            now >= self@.end && now > self@.start ==> r as int == self@.to,
            0 <= r <= 100,
    {
        proof {
            lemma_ramp_value_bounds(self@, now as int);
        }
        if now <= self.start {
            return self.from;
        }
        if now >= self.end {
            return self.to;
        }
        let d: u64 = self.end - self.start;
        let x: u64 = now - self.start;
        let scaled: u128 = (x as u128) * (EASE_SCALE as u128);
        let u: u128 = scaled / (d as u128);
        let ghost ui: int = u as int;
        proof {
            lemma_progress_range(x as int, d as int);
            lemma_ease_poly_range(ui);
        }
        // `6u^2 - 15uS + 10S^2` rewritten without subtraction:
        // `6(S - u)^2 + S(4S - 3u)`, possible because `u < S`.
        let su: u128 = (EASE_SCALE as u128) - u;
        proof {
            assert(su * su <= 4096 * 4096) by (nonlinear_arith)
                requires
                    0 <= su <= 4096,
            ;
        }
        let weight: u128 = 6 * (su * su) + (EASE_SCALE as u128) * (4 * (EASE_SCALE as u128) - 3
            * u);
        proof {
            assert(weight as int == ease_weight(ui)) by (nonlinear_arith)
                requires
                    weight == 6 * (su * su) + 4096 * (4 * 4096 - 3 * u) && su == 4096 - u && ui == u
                        as int && ease_weight(ui) == 6 * ui * ui - 15 * ui * 4096 + 10 * 4096
                        * 4096,
            ;
        }
        proof {
            assert(u * u <= 4095 * 4095) by (nonlinear_arith)
                requires
                    0 <= u <= 4095,
            ;
        }
        let u2: u128 = u * u;
        proof {
            assert(u2 * u <= 4095 * 4095 * 4095) by (nonlinear_arith)
                requires
                    0 <= u <= 4095 && 0 <= u2 <= 4095 * 4095,
            ;
        }
        let u3: u128 = u2 * u;
        proof {
            assert(u3 * weight <= 4095 * 4095 * 4095 * 0x10000000) by (nonlinear_arith)
                requires
                    0 <= u3 <= 4095 * 4095 * 4095 && 0 <= weight <= 0x10000000,
            ;
        }
        let g: u128 = u3 * weight;
        proof {
            assert(g as int == ease_poly(ui)) by (nonlinear_arith)
                requires
                    g == u3 * weight && u3 == u2 * u && u2 == u * u && ui == u as int && weight
                        as int == ease_weight(ui) && ease_poly(ui) == ui * ui * ui * ease_weight(
                        ui),
            ;
        }
        let delta: u8 = if self.from <= self.to {
            self.to - self.from
        } else {
            self.from - self.to
        };
        proof {
            lemma_scaled_delta_range(delta as int, g as int);
            assert((delta as u128) * g <= 255 * (4095 * 4095 * 4095 * 0x10000000))
                by (nonlinear_arith)
                requires
                    0 <= delta as u128 <= 255 && 0 <= g <= 4095 * 4095 * 4095 * 0x10000000,
            ;
        }
        let adj128: u128 = (2 * ((delta as u128) * g) + (EASE_SCALE_POW5 as u128)) / (2 * (
        EASE_SCALE_POW5 as u128));
        let adj: u8 = adj128 as u8;
        if self.from <= self.to {
            self.from + adj
        } else {
            self.from - adj
        }
    }
}

} // verus!
