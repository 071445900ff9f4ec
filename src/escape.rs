//! The escape-time evaluator: main-body short-circuit, escape iteration and
//! periodicity detection.
//!
//! Arithmetic is fixed point with 24 fractional bits, about the precision of
//! `f32` near the set. The orbit is kept in `i64`, each product is formed
//! exactly in `i128` and rounded toward zero, and the main-body tests are
//! evaluated exactly, so results are bit-for-bit reproducible.
use vstd::prelude::*;

verus! {

/// Number of fractional bits of a fixed-point coordinate.
pub const FRAC_BITS: u32 = 24;

/// The fixed-point value 1.0.
pub const ONE: i64 = 16777216;

/// The fixed-point value 2.0, as a coordinate.
const TWO: i32 = 33554432;

/// How many iterations pass between two snapshots of the orbit.
pub const SNAPSHOT_INTERVAL: u16 = 20;

/// A point of the complex plane, both parts in fixed point.
#[derive(Clone, Copy, Debug, PartialEq, Eq, Structural)]
pub struct Point {
    pub x: i32,
    pub y: i32,
}

/// Fixed-point product of `a` and `b`, rounded toward zero.
pub open spec fn fx_mul(a: int, b: int) -> int {
    let p = a * b;
    if p >= 0 {
        p / (ONE as int)
    } else {
        -((-p) / (ONE as int))
    }
}

/// One step of the recurrence z <- z^2 + c.
pub open spec fn step(c: Point, z: (int, int)) -> (int, int) {
    (fx_mul(z.0, z.0) - fx_mul(z.1, z.1) + c.x, fx_mul(2 * z.0, z.1) + c.y)
}

/// The `n`-th element of the orbit of 0 under the recurrence.
pub open spec fn orbit(c: Point, n: nat) -> (int, int)
    decreases n,
{
    if n == 0 {
        (0, 0)
    } else {
        step(c, orbit(c, (n - 1) as nat))
    }
}

/// |z|^2 >= 4, with the squares taken as fixed-point products.
pub open spec fn escaped(z: (int, int)) -> bool {
    fx_mul(z.0, z.0) + fx_mul(z.1, z.1) >= 4 * ONE
}

/// The first index from `n` on at which the orbit has escaped, capped at `max`.
pub open spec fn escape_from(c: Point, n: nat, max: nat) -> nat
    decreases max - n,
{
    if escaped(orbit(c, n)) || n >= max {
        n
    } else {
        escape_from(c, n + 1, max)
    }
}

/// The escape time of `c`: the number of steps after which |z|^2 >= 4,
/// or `max` when that does not happen within `max` steps.
pub open spec fn escape_count(c: Point, max: nat) -> nat {
    escape_from(c, 0, max)
}

/// Inside the main cardioid: q(q + (x - 1/4)) < y^2 / 4 with
/// q = (x - 1/4)^2 + y^2, multiplied out exactly in units of `ONE`.
pub open spec fn in_cardioid(c: Point) -> bool {
    let x = c.x - ONE / 4;
    let y = c.y as int;
    let q = x * x + y * y;
    4 * q * (q + x * ONE) < y * y * ONE * ONE
}

/// Inside the period-2 bulb: (x + 1)^2 + y^2 < 1/16, exactly.
pub open spec fn in_bulb(c: Point) -> bool {
    let x = c.x + ONE;
    let y = c.y as int;
    16 * (x * x + y * y) < ONE * ONE
}

/// Within the square |x| <= 2, |y| <= 2 and in the main cardioid or the
/// period-2 bulb (both lie wholly inside that square).
pub open spec fn in_main_body(c: Point) -> bool {
    -2 * ONE <= c.x <= 2 * ONE && -2 * ONE <= c.y <= 2 * ONE && (in_cardioid(c) || in_bulb(c))
}

/// The value of the evaluator: `max` in the main body, the escape time elsewhere.
pub open spec fn escape_time(c: Point, max: nat) -> nat {
    if in_main_body(c) {
        max
    } else {
        escape_count(c, max)
    }
}

/// Fixed-point product, rounded toward zero.
fn mul_fixed(a: i64, b: i64) -> (r: i64)
    requires
        -0x2_0000_0000 < a < 0x2_0000_0000,
        -0x2_0000_0000 < b < 0x2_0000_0000,
    ensures
        r == fx_mul(a as int, b as int),
        -0x400_0000_0000 < r < 0x400_0000_0000,
{
    assert(-0x4_0000_0000_0000_0000 < a * b < 0x4_0000_0000_0000_0000) by (nonlinear_arith)
        requires
            -0x2_0000_0000 < a < 0x2_0000_0000,
            -0x2_0000_0000 < b < 0x2_0000_0000,
    ;
    let p: i128 = (a as i128) * (b as i128);
    if p >= 0 {
        let m: u128 = p as u128;
        let q: u128 = m / 16777216u128;
        assert(q <= m / 16777216);
        q as i64
    } else {
        let m: u128 = (-p) as u128;
        let q: u128 = m / 16777216u128;
        assert(q < 0x400_0000_0000);
        -(q as i64)
    }
}

/// Decides whether `c` lies in the main cardioid or the period-2 bulb.
pub fn is_in_cardiod_or_bulb(c: Point) -> (r: bool)
    ensures
        r == in_main_body(c),
{
    if c.x < -TWO || c.x > TWO || c.y < -TWO || c.y > TWO {
        return false;
    }
    let one: i128 = ONE as i128;
    let x: i128 = c.x as i128 - one / 4;
    let y: i128 = c.y as i128;
    assert(-0x400_0000 < x < 0x400_0000);
    assert(-0x400_0000 < y < 0x400_0000);
    assert(0 <= x * x < 0x10_0000_0000_0000 && 0 <= y * y < 0x10_0000_0000_0000) by (nonlinear_arith)
        requires
            -0x400_0000 < x < 0x400_0000,
            -0x400_0000 < y < 0x400_0000,
    ;
    let xx: i128 = x * x;
    let yy: i128 = y * y;
    let q: i128 = xx + yy;
    let xs: i128 = x * one;
    let t: i128 = q + xs;
    assert(-0x100_0000_0000_0000 < t < 0x100_0000_0000_0000);
    assert(-0x1_0000_0000_0000_0000_0000_0000_0000 < 4 * q * t < 0x1_0000_0000_0000_0000_0000_0000_0000) by (nonlinear_arith)
        requires
            0 <= q < 0x20_0000_0000_0000,
            -0x100_0000_0000_0000 < t < 0x100_0000_0000_0000,
    ;
    let left: i128 = 4 * q * t;
    assert(0 <= yy * one * one < 0x1_0000_0000_0000_0000_0000_0000_0000) by (nonlinear_arith)
        requires
            0 <= yy < 0x10_0000_0000_0000,
            one == 0x100_0000,
    ;
    let right: i128 = yy * one * one;
    let cardioid = left < right;
    let bx: i128 = c.x as i128 + one;
    assert(0 <= bx * bx < 0x100_0000_0000_0000) by (nonlinear_arith)
        requires
            -0x400_0000 < bx < 0x400_0000,
    ;
    let bulb_left: i128 = 16 * (bx * bx + yy);
    let bulb = bulb_left < one * one;
    cardioid || bulb
}

/// Steps of the recurrence repeat once the orbit has met a value again.
proof fn lemma_orbit_shift(c: Point, j: nat, p: nat, m: nat)
    requires
        orbit(c, j) == orbit(c, j + p),
    ensures
        orbit(c, j + m) == orbit(c, j + p + m),
    decreases m,
{
    if m > 0 {
        lemma_orbit_shift(c, j, p, (m - 1) as nat);
        assert(orbit(c, j + m) == step(c, orbit(c, (j + m - 1) as nat)));
        assert(orbit(c, j + p + m) == step(c, orbit(c, (j + p + m - 1) as nat)));
    }
}

/// An orbit that meets again a value it had at `j` before escaping never escapes.
proof fn lemma_cycle_never_escapes(c: Point, j: nat, k: nat, n: nat)
    requires
        j < k,
        orbit(c, j) == orbit(c, k),
        forall|m: nat| m < k ==> !escaped(#[trigger] orbit(c, m)),
    ensures
        !escaped(orbit(c, n)),
    decreases n,
{
    if n >= k {
        let p = (k - j) as nat;
        lemma_orbit_shift(c, j, p, (n - k) as nat);
        assert(j + p + (n - k) == n);
        lemma_cycle_never_escapes(c, j, k, (j + (n - k)) as nat);
    }
}

/// An orbit that never escapes is counted as `max`.
proof fn lemma_never_escapes_count(c: Point, n: nat, max: nat)
    requires
        n <= max,
        forall|m: nat| !escaped(#[trigger] orbit(c, m)),
    ensures
        escape_from(c, n, max) == max,
    decreases max - n,
{
    if n < max {
        lemma_never_escapes_count(c, n + 1, max);
    }
}

/// A fixed-point square is never negative.
proof fn lemma_square_nonneg(a: int)
    ensures
        fx_mul(a, a) >= 0,
{
    assert(a * a >= 0) by (nonlinear_arith);
}

/// A value whose square is below 4 lies strictly between -2 and 2.
proof fn lemma_inside_bound(a: int)
    requires
        fx_mul(a, a) < 4 * ONE,
    ensures
        -2 * ONE < a < 2 * ONE,
{
    if a >= 2 * ONE || a <= -2 * ONE {
        assert(a * a >= 4 * ONE * ONE) by (nonlinear_arith)
            requires
                a >= 2 * ONE || a <= -2 * ONE,
        ;
    }
}

/// The cross term of a step taken from inside the escape radius stays below 8.
proof fn lemma_cross_term_bound(a: int, b: int)
    requires
        -0x400_0000 < a < 0x400_0000,
        -0x200_0000 < b < 0x200_0000,
    ensures
        -0x800_0000 < fx_mul(a, b) < 0x800_0000,
{
    assert(-0x8_0000_0000_0000 < a * b < 0x8_0000_0000_0000) by (nonlinear_arith)
        requires
            -0x400_0000 < a < 0x400_0000,
            -0x200_0000 < b < 0x200_0000,
    ;
}

/// The orbit takes again at `j + p` the value it had at `j`.
pub open spec fn cycles_at(c: Point, j: nat, p: nat) -> bool {
    orbit(c, j) == orbit(c, j + p)
}

/// The first step at or after `j` at which the orbit is saved.
pub open spec fn next_snapshot(j: nat) -> nat {
    ((j + SNAPSHOT_INTERVAL - 1) / (SNAPSHOT_INTERVAL as int) * SNAPSHOT_INTERVAL) as nat
}

/// The outcome of iterating one point: its escape time, and how many steps
/// of the recurrence were actually computed to find it.
#[derive(Clone, Copy, Debug, PartialEq, Eq, Structural)]
pub struct OrbitRun {
    pub count: u16,
    pub steps: u16,
}

/// Iterates z <- z^2 + c from z = 0 until |z|^2 >= 4 or `max` steps have been
/// taken. Every `SNAPSHOT_INTERVAL` steps the orbit is saved; when it meets the
/// saved value again it is periodic and cannot escape, so the count is `max`
/// at once: an orbit that enters a cycle of at most `SNAPSHOT_INTERVAL` steps
/// is stopped within one interval and one cycle of entering it.
pub fn run_orbit(c: Point, max: u16) -> (r: OrbitRun)
    ensures
        r.count == escape_count(c, max as nat),
        r.steps <= r.count,
        r.steps < r.count ==> r.count == max,
        forall|j: nat, p: nat|
            1 <= p <= SNAPSHOT_INTERVAL && #[trigger] cycles_at(c, j, p) ==> r.steps
                <= next_snapshot(j) + p,
{
    let mut zx: i64 = 0;
    let mut zy: i64 = 0;
    let mut x2: i64 = 0;
    let mut y2: i64 = 0;
    let mut steps: u16 = 0;
    let mut snap_x: i64 = 0;
    let mut snap_y: i64 = 0;
    let mut period: u16 = 0;
    while x2 + y2 < 4 * ONE && steps < max
        invariant
            orbit(c, steps as nat) == (zx as int, zy as int),
            -0x1_0000_0000 < zx < 0x1_0000_0000,
            -0x1_0000_0000 < zy < 0x1_0000_0000,
            x2 == fx_mul(zx as int, zx as int),
            y2 == fx_mul(zy as int, zy as int),
            0 <= x2 < 0x400_0000_0000,
            0 <= y2 < 0x400_0000_0000,
            steps <= max,
            period < SNAPSHOT_INTERVAL,
            period <= steps,
            orbit(c, (steps - period) as nat) == (snap_x as int, snap_y as int),
            (steps - period) % (SNAPSHOT_INTERVAL as int) == 0,
            forall|j: nat, p: nat|
                1 <= p <= SNAPSHOT_INTERVAL && #[trigger] cycles_at(c, j, p) ==> steps
                    < next_snapshot(j) + p,
            forall|m: nat| m < steps ==> !escaped(#[trigger] orbit(c, m)),
            escape_count(c, max as nat) == escape_from(c, steps as nat, max as nat),
        decreases max - steps,
    {
        proof {
            lemma_square_nonneg(zx as int);
            lemma_square_nonneg(zy as int);
            lemma_inside_bound(zx as int);
            lemma_inside_bound(zy as int);
            lemma_cross_term_bound(2 * zx, zy as int);
            assert(!escaped(orbit(c, steps as nat)));
            assert(escape_from(c, steps as nat, max as nat) == escape_from(
                c,
                (steps + 1) as nat,
                max as nat,
            ));
        }
        let ghost prev = steps;
        let new_y = mul_fixed(2 * zx, zy) + c.y as i64;
        let new_x = x2 - y2 + c.x as i64;
        zx = new_x;
        zy = new_y;
        x2 = mul_fixed(zx, zx);
        y2 = mul_fixed(zy, zy);
        steps += 1;
        proof {
            lemma_square_nonneg(zx as int);
            lemma_square_nonneg(zy as int);
            assert(orbit(c, steps as nat) == step(c, orbit(c, prev as nat)));
            assert forall|m: nat| m < steps implies !escaped(#[trigger] orbit(c, m)) by {
                if m < prev {
                }
            }
        }
        if zx == snap_x && zy == snap_y {
            proof {
                lemma_cycle_never_escapes_all(c, (prev - period) as nat, steps as nat);
                lemma_never_escapes_count(c, 0, max as nat);
            }
            return OrbitRun { count: max, steps };
        }
        proof {
            assert forall|j: nat, p: nat|
                1 <= p <= SNAPSHOT_INTERVAL && #[trigger] cycles_at(c, j, p) implies steps
                < next_snapshot(j) + p by {
                let ns = next_snapshot(j);
                if steps >= ns + p {
                    let s0 = (prev - period) as int;
                    assert(ns % 20 == 0);
                    assert(ns >= j);
                    assert(s0 == ns);
                    lemma_orbit_shift(c, j, p, (ns - j) as nat);
                    assert(j + p + (ns - j) == ns + p);
                }
            }
        }
        period += 1;
        if period == SNAPSHOT_INTERVAL {
            snap_x = zx;
            snap_y = zy;
            period = 0;
        }
    }
    OrbitRun { count: steps, steps }
}

/// The whole orbit stays inside the escape radius once it has met a value again.
proof fn lemma_cycle_never_escapes_all(c: Point, j: nat, k: nat)
    requires
        j < k,
        orbit(c, j) == orbit(c, k),
        forall|m: nat| m < k ==> !escaped(#[trigger] orbit(c, m)),
    ensures
        forall|n: nat| !escaped(#[trigger] orbit(c, n)),
{
    assert forall|n: nat| !escaped(#[trigger] orbit(c, n)) by {
        lemma_cycle_never_escapes(c, j, k, n);
    }
}

/// The escape time never exceeds the cap.
proof fn lemma_escape_from_bound(c: Point, n: nat, max: nat)
    requires
        n <= max,
    ensures
        n <= escape_from(c, n, max) <= max,
    decreases max - n,
{
    if !escaped(orbit(c, n)) && n < max {
        lemma_escape_from_bound(c, n + 1, max);
    }
}

/// The escape time of `c` by iteration alone, capped at `max`.
pub fn calculate_iterations(c: Point, max: u16) -> (r: u16)
    ensures
        r == escape_count(c, max as nat),
{
    run_orbit(c, max).count
}

/// The evaluator: `max` at once for a point of the main cardioid or the
/// period-2 bulb, the escape time by iteration for any other point.
pub fn evaluate_point(c: Point, max: u16) -> (r: u16)
    ensures
        r == escape_time(c, max as nat),
        r <= max,
        in_main_body(c) ==> r == max,
{
    proof {
        lemma_escape_from_bound(c, 0, max as nat);
    }
    if is_in_cardiod_or_bulb(c) {
        max
    } else {
        calculate_iterations(c, max)
    }
}

/// A point with |c|^2 >= 4 lies in neither the main cardioid nor the
/// period-2 bulb.
proof fn lemma_far_point_outside_main_body(c: Point)
    requires
        escaped((c.x as int, c.y as int)),
    ensures
        !in_main_body(c),
{
    let s = ONE as int;
    let x = c.x as int;
    let y = c.y as int;
    lemma_square_nonneg(x);
    lemma_square_nonneg(y);
    assert(x * x >= 0 && y * y >= 0) by (nonlinear_arith);
    assert(x * x + y * y >= 4 * s * s) by {
        assert(fx_mul(x, x) == (x * x) / s);
        assert(fx_mul(y, y) == (y * y) / s);
        assert((x * x) / s * s <= x * x);
        assert((y * y) / s * s <= y * y);
        assert(((x * x) / s + (y * y) / s) * s >= 4 * s * s) by (nonlinear_arith)
            requires
                (x * x) / s + (y * y) / s >= 4 * s,
                s > 0,
        ;
    }
    if -2 * s <= x <= 2 * s && -2 * s <= y <= 2 * s {
        let xx = x - s / 4;
        let q = xx * xx + y * y;
        assert(q >= 3 * s * s) by (nonlinear_arith)
            requires
                xx == x - 4194304,
                q == xx * xx + y * y,
                x * x + y * y >= 4 * s * s,
                -2 * s <= x <= 2 * s,
                s == 16777216,
        ;
        assert(2 * (q + xx * s) >= q - s * s) by (nonlinear_arith)
            requires
                q == xx * xx + y * y,
                y * y >= 0,
        ;
        assert(q + xx * s >= s * s);
        assert(4 * q * (q + xx * s) >= 12 * s * s * s * s) by (nonlinear_arith)
            requires
                q >= 3 * s * s,
                q + xx * s >= s * s,
                s > 0,
        ;
        assert(y * y * s * s <= 4 * s * s * s * s) by (nonlinear_arith)
            requires
                -2 * s <= y <= 2 * s,
                s > 0,
        ;
        assert(!in_cardioid(c));
        let bx = x + s;
        if 16 * (bx * bx + y * y) < s * s {
            assert(x * x + y * y < 4 * s * s) by (nonlinear_arith)
                requires
                    bx == x + s,
                    16 * (bx * bx + y * y) < s * s,
                    s > 0,
            ;
        }
    }
}

/// A point with |c|^2 >= 4 is definitely outside the set: it escapes after
/// one step, below any cap of at least 2.
pub proof fn lemma_far_point_escapes_at_once(c: Point, max: nat)
    requires
        max >= 1,
        escaped((c.x as int, c.y as int)),
    ensures
        escape_time(c, max) == 1,
{
    lemma_far_point_outside_main_body(c);
    assert(fx_mul(0, 0) == 0);
    assert(orbit(c, 1) == step(c, orbit(c, 0)));
    assert(orbit(c, 1) == (c.x as int, c.y as int));
    assert(escape_from(c, 1, max) == 1);
    assert(escape_from(c, 0, max) == escape_from(c, 1, max));
}

} // verus!
