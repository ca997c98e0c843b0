//! Per-node Verlet state and the constraint rule library.

use vstd::prelude::*;

verus! {

use vstd::math::abs;
use crate::nac::Node;
use crate::num::{
    COORD_LIMIT, DELTA_LIMIT, SCALE, UNIT_DENOM, abs_u64, add_clamp, clamp_coord, isqrt,
    sqrt_floor, tdiv, tdiv_mag,
};

/// A 2D point in fixed-point coordinates.
#[derive(Clone, Copy, PartialEq, Eq, Structural, Debug)]
pub struct Point2 {
    pub x: i64,
    pub y: i64,
}

impl Point2 {
    /// Is the point inside the coordinate range?
    pub open spec fn valid(&self) -> bool {
        &&& -(COORD_LIMIT as int) <= self.x <= COORD_LIMIT as int
        &&& -(COORD_LIMIT as int) <= self.y <= COORD_LIMIT as int
    }
}

/// Verlet state of one point mass: where it is, where it was, and
/// whether it is pinned in place.
#[derive(Clone, Copy, PartialEq, Eq, Structural, Debug)]
pub struct Verlet {
    pub position: Point2,
    pub delta_position: Point2,
    pub pinned: bool,
}

impl Verlet {
    /// Both stored points lie inside the coordinate range.
    pub open spec fn valid(&self) -> bool {
        self.position.valid() && self.delta_position.valid()
    }

    /// A free node at rest: the previous position equals the position.
    pub fn new(x: i64, y: i64) -> (v: Verlet)
        requires
            -COORD_LIMIT <= x <= COORD_LIMIT,
            -COORD_LIMIT <= y <= COORD_LIMIT,
        ensures
            v == (Verlet {
                position: Point2 { x, y },
                delta_position: Point2 { x, y },
                pinned: false,
            }),
            v.valid(),
    {
        Verlet { position: Point2 { x, y }, delta_position: Point2 { x, y }, pinned: false }
    }

    /// A pinned node: no rule that honors the flag will ever move it.
    pub fn new_pinned(x: i64, y: i64) -> (v: Verlet)
        requires
            -COORD_LIMIT <= x <= COORD_LIMIT,
            -COORD_LIMIT <= y <= COORD_LIMIT,
        ensures
            v == (Verlet {
                position: Point2 { x, y },
                delta_position: Point2 { x: 0, y: 0 },
                pinned: true,
            }),
            v.valid(),
    {
        Verlet { position: Point2 { x, y }, delta_position: Point2 { x: 0, y: 0 }, pinned: true }
    }
}

/// A coordinate clamped back into range after a rule has moved it.
pub open spec fn clamped(v: int) -> i64 {
    clamp_coord(v) as i64
}

/// The per-step vertical displacement of gravity: half the acceleration
/// times the squared timestep, in coordinate units. `gravity` is in world
/// units per second squared, `dt_micros` in microseconds.
pub open spec fn grav_accel(gravity: int, dt_micros: int) -> int {
    tdiv(gravity * dt_micros * dt_micros, 2 * (SCALE as int))
}

/// One Verlet integration step under gravity: each axis advances by the
/// position delta since the last step, the y axis also by `grav_accel`,
/// and the previous position becomes the pre-step position.
pub open spec fn apply_gravity(s: Verlet, dt_micros: int, gravity: int) -> Verlet {
    Verlet {
        position: Point2 {
            x: clamped(s.position.x + (s.position.x - s.delta_position.x)),
            y: clamped(
                s.position.y + (s.position.y - s.delta_position.y) + grav_accel(
                    gravity,
                    dt_micros,
                ),
            ),
        },
        delta_position: s.position,
        pinned: s.pinned,
    }
}

/// The displacement of a one-shot force: strength times squared timestep,
/// in coordinate units.
pub open spec fn impulse_disp(strength: int, dt_micros: int) -> int {
    tdiv(strength * dt_micros * dt_micros, SCALE as int)
}

/// A one-shot constant acceleration: the position moves by the impulse
/// displacement and the previous position becomes the pre-step position,
/// so the next integration step reads it as a velocity change.
pub open spec fn apply_impulse(s: Verlet, dt_micros: int, fx: int, fy: int) -> Verlet {
    Verlet {
        position: Point2 {
            x: clamped(s.position.x + impulse_disp(fx, dt_micros)),
            y: clamped(s.position.y + impulse_disp(fy, dt_micros)),
        },
        delta_position: s.position,
        pinned: s.pinned,
    }
}

/// One axis of the wind perturbation: the strength scaled by a uniform
/// sample `u` in `[0, UNIT_DENOM)`, kept only while its magnitude stays
/// below half the strength's magnitude.
pub open spec fn wind_term(strength: int, u: int) -> int {
    let c = tdiv(strength * u, UNIT_DENOM as int);
    if 2 * abs(c) < abs(strength) {
        c
    } else {
        0
    }
}

/// A stochastic wind impulse: each axis moves by its wind term; the
/// previous position is left as it was.
pub open spec fn apply_wind(s: Verlet, horz: int, vert: int, ux: int, uy: int) -> Verlet {
    Verlet {
        position: Point2 {
            x: clamped(s.position.x + wind_term(horz, ux)),
            y: clamped(s.position.y + wind_term(vert, uy)),
        },
        delta_position: s.delta_position,
        pinned: s.pinned,
    }
}

/// A hard ground clamp: a node below the boundary snaps exactly onto it;
/// a node on or above it passes through unchanged.
pub open spec fn apply_ground(s: Verlet, boundary: int) -> Verlet {
    if s.position.y < boundary {
        Verlet {
            position: Point2 { x: s.position.x, y: boundary as i64 },
            delta_position: s.delta_position,
            pinned: s.pinned,
        }
    } else {
        s
    }
}

/// Ground clamp combined with gravity: below the boundary the node snaps
/// onto it, otherwise it takes a gravity integration step.
pub open spec fn apply_bound_gravity(s: Verlet, dt_micros: int, gravity: int, boundary: int) -> Verlet {
    if s.position.y < boundary {
        apply_ground(s, boundary)
    } else {
        apply_gravity(s, dt_micros, gravity)
    }
}

/// Squared separation of two points.
pub open spec fn dist_sq(a: Point2, b: Point2) -> int {
    (a.x - b.x) * (a.x - b.x) + (a.y - b.y) * (a.y - b.y)
}

/// Separation of two points, rounded down to an integer.
pub open spec fn separation(a: Point2, b: Point2) -> int {
    sqrt_floor(dist_sq(a, b) as nat) as int
}

/// Half of one endpoint's share of the distance correction along one
/// axis: the axis difference, scaled by the relative rest-length error
/// and the stiffness (in thousandths), split evenly between the two ends.
pub open spec fn half_correction(diff: int, rest: int, dist: int, spring_milli: int) -> int {
    tdiv(diff * (rest - dist) * spring_milli, dist * 2000)
}

/// One endpoint after a distance correction: a pinned endpoint is left
/// untouched; a free endpoint moves by the correction and records its
/// pre-correction position as the new previous position.
pub open spec fn moved_endpoint(s: Verlet, dx: int, dy: int) -> Verlet {
    if s.pinned {
        s
    } else {
        Verlet {
            position: Point2 {
                x: clamped(s.position.x + dx),
                y: clamped(s.position.y + dy),
            },
            delta_position: s.position,
            pinned: false,
        }
    }
}

/// A distance constraint between two endpoints. Coincident endpoints
/// (separation zero) receive zero displacement; otherwise each free
/// endpoint moves by half the stiffness-scaled correction, in opposite
/// directions.
pub open spec fn apply_distance(a: Verlet, b: Verlet, rest: int, spring_milli: int) -> (Verlet, Verlet) {
    let d = separation(a.position, b.position);
    if d == 0 {
        (moved_endpoint(a, 0, 0), moved_endpoint(b, 0, 0))
    } else {
        let px = half_correction(a.position.x - b.position.x, rest, d, spring_milli);
        let py = half_correction(a.position.y - b.position.y, rest, d, spring_milli);
        (moved_endpoint(a, px, py), moved_endpoint(b, -px, -py))
    }
}

/// Zero-distance guard: the distance rule applied to two coincident
/// endpoints displaces neither of them.
pub proof fn lemma_distance_zero_guard(a: Verlet, b: Verlet, rest: int, spring_milli: int)
    requires
        a.valid(),
        b.valid(),
        a.position == b.position,
    ensures
        apply_distance(a, b, rest, spring_milli).0.position == a.position,
        apply_distance(a, b, rest, spring_milli).1.position == b.position,
{
    assert(dist_sq(a.position, b.position) == 0);
    crate::num::lemma_sqrt_square(0);
    assert(separation(a.position, b.position) == 0);
}

/// Gravity monotonicity: under a nonnegative gravity term, a free node
/// that is not moving upward never rises, and it keeps not moving
/// upward, so repeated steps accumulate downward displacement. The
/// step is strictly downward while the acceleration term is positive
/// and the node is short of the coordinate limit.
pub proof fn lemma_gravity_monotone(s: Verlet, dt_micros: int, gravity: int)
    requires
        s.valid(),
        s.position.y >= s.delta_position.y,
        gravity >= 0,
        dt_micros >= 0,
    ensures
        apply_gravity(s, dt_micros, gravity).position.y >= s.position.y,
        apply_gravity(s, dt_micros, gravity).position.y >= apply_gravity(
            s,
            dt_micros,
            gravity,
        ).delta_position.y,
        apply_gravity(s, dt_micros, gravity).valid(),
        grav_accel(gravity, dt_micros) >= 1 && s.position.y < COORD_LIMIT as int
            ==> apply_gravity(s, dt_micros, gravity).position.y > s.position.y,
{
    assert(gravity * dt_micros * dt_micros >= 0) by (nonlinear_arith)
        requires
            gravity >= 0,
            dt_micros >= 0,
    ;
    assert((gravity * dt_micros * dt_micros) / (2 * (SCALE as int)) >= 0) by (nonlinear_arith)
        requires
            gravity * dt_micros * dt_micros >= 0,
    ;
    assert(grav_accel(gravity, dt_micros) >= 0);
}

/// The state after `k` gravity steps in a row.
pub open spec fn iter_gravity(s: Verlet, dt_micros: int, gravity: int, k: nat) -> Verlet
    decreases k,
{
    if k == 0 {
        s
    } else {
        apply_gravity(iter_gravity(s, dt_micros, gravity, (k - 1) as nat), dt_micros, gravity)
    }
}

/// Gravity monotonicity over any number of steps: starting at rest or
/// already moving downward, a free node under a nonnegative gravity
/// term never rises, however many steps are taken.
pub proof fn lemma_gravity_monotone_iter(s: Verlet, dt_micros: int, gravity: int, k: nat)
    requires
        s.valid(),
        s.position.y >= s.delta_position.y,
        gravity >= 0,
        dt_micros >= 0,
    ensures
        iter_gravity(s, dt_micros, gravity, k).position.y >= s.position.y,
        iter_gravity(s, dt_micros, gravity, k).position.y >= iter_gravity(
            s,
            dt_micros,
            gravity,
            k,
        ).delta_position.y,
        iter_gravity(s, dt_micros, gravity, k).valid(),
    decreases k,
{
    if k > 0 {
        lemma_gravity_monotone_iter(s, dt_micros, gravity, (k - 1) as nat);
        lemma_gravity_monotone(iter_gravity(s, dt_micros, gravity, (k - 1) as nat), dt_micros,
            gravity);
    }
}

/// Distance-constraint convergence, for two free endpoints aligned on
/// one axis: one resolution moves the separation toward the rest length
/// without overshooting it, and the remaining gap shrinks by exactly
/// twice the stiffness-scaled half correction. Inputs are kept far
/// enough from the coordinate limit that the clamp cannot interfere.
pub proof fn lemma_distance_converges_axis(a: Verlet, b: Verlet, rest: int, spring_milli: int)
    requires
        a.valid(),
        b.valid(),
        !a.pinned,
        !b.pinned,
        a.position.y == b.position.y,
        a.position.x > b.position.x,
        -((COORD_LIMIT as int) / 2) <= b.position.x,
        a.position.x <= (COORD_LIMIT as int) / 2,
        0 <= rest <= (COORD_LIMIT as int) / 2,
        0 < spring_milli <= 1000,
    ensures
        ({
            let a2 = apply_distance(a, b, rest, spring_milli).0;
            let b2 = apply_distance(a, b, rest, spring_milli).1;
            let d = a.position.x - b.position.x;
            let d2 = a2.position.x - b2.position.x;
            &&& a2.position.y == a.position.y
            &&& b2.position.y == b.position.y
            &&& (rest >= d ==> d <= d2 <= rest)
            &&& (rest < d ==> rest <= d2 <= d)
            &&& abs(rest - d2) == abs(rest - d) - 2 * ((abs(rest - d) * spring_milli) / 2000)
        }),
{
    let d = a.position.x - b.position.x;
    let e = rest - d;
    let s = spring_milli;
    assert(dist_sq(a.position, b.position) == d * d);
    assert((d as nat) * (d as nat) == d * d) by (nonlinear_arith)
        requires
            d > 0,
    ;
    crate::num::lemma_sqrt_square(d as nat);
    assert(separation(a.position, b.position) == d);
    // the y correction vanishes
    assert(d * 2000 > 0) by (nonlinear_arith)
        requires
            d > 0,
    ;
    assert(0 * (rest - d) * s == 0) by (nonlinear_arith);
    assert(0int / (d * 2000) == 0) by (nonlinear_arith)
        requires
            d * 2000 > 0,
    ;
    assert(half_correction(0, rest, d, s) == 0);
    // the x correction reduces to tdiv(e * s, 2000)
    assert(d * (rest - d) * s == d * ((rest - d) * s)) by (nonlinear_arith);
    crate::num::lemma_tdiv_cancel_factor(d, e * s, 2000);
    let px = half_correction(d, rest, d, s);
    assert(px == tdiv(e * s, 2000));
    // |e * s| / 2000 is between 0 and |e| / 2
    let m = abs(e);
    assert(abs(e * s) == m * s) by (nonlinear_arith)
        requires
            s > 0,
            m == abs(e),
    ;
    assert((m * s) as int >= 0) by (nonlinear_arith)
        requires
            s > 0,
    ;
    assert(m * s <= m * 1000) by (nonlinear_arith)
        requires
            0 < s <= 1000,
    ;
    vstd::arithmetic::div_mod::lemma_div_is_ordered((m * s) as int, (m * 1000) as int, 2000);
    crate::num::lemma_div_cancel_factor(1000, m as int, 2);
    assert(m * 1000 == 1000 * (m as int) && 2000 == 1000 * 2) by (nonlinear_arith);
    assert((m * 1000) as int / 2000 == m as int / 2);
    assert((m * s) as int / 2000 >= 0) by (nonlinear_arith)
        requires
            (m * s) as int >= 0,
    ;
    let h = (m * s) as int / 2000;
    assert(0 <= h <= m as int / 2);
    vstd::arithmetic::div_mod::lemma_fundamental_div_mod(m as int, 2);
    vstd::arithmetic::div_mod::lemma_mod_bound(m as int, 2);
    assert(2 * (m as int / 2) <= m);
    // relate px to h by the sign of e
    if e >= 0 {
        assert(e * s >= 0) by (nonlinear_arith)
            requires
                e >= 0,
                s > 0,
        ;
        assert(px == h);
    } else {
        assert(e * s < 0) by (nonlinear_arith)
            requires
                e < 0,
                s > 0,
        ;
        assert(-(e * s) == (m * s) as int) by (nonlinear_arith)
            requires
                m == abs(e),
                e < 0,
        ;
        assert(px == -h);
    }
    // neither endpoint reaches the clamp
    let ax2 = a.position.x + px;
    let bx2 = b.position.x - px;
    assert(-(COORD_LIMIT as int) <= ax2 <= COORD_LIMIT as int);
    assert(-(COORD_LIMIT as int) <= bx2 <= COORD_LIMIT as int);
    assert(clamped(ax2) == ax2 && clamped(bx2) == bx2);
    let ay2 = a.position.y + 0;
    assert(clamped(ay2) == a.position.y);
}

/// `tdiv(a * m * m, den)`, for the gravity and impulse displacements.
fn scaled_sq(a: i64, m: u32, den: u64) -> (q: i128)
    requires
        den > 0,
    ensures
        q as int == tdiv(a as int * (m as int) * (m as int), den as int),
        -(0x8000_0000_0000_0000_0000_0000_0000_0000int / (den as int)) <= q as int
            <= 0x8000_0000_0000_0000_0000_0000_0000_0000int / (den as int),
{
    let neg = a < 0;
    let am: u128 = abs_u64(a) as u128;
    let mm: u128 = m as u128;
    assert(am * mm <= 0x8000_0000_0000_0000_0000_0000u128) by (nonlinear_arith)
        requires
            am <= 0x8000_0000_0000_0000u128,
            mm < 0x1_0000_0000u128,
    ;
    assert((am * mm) * mm < 0x8000_0000_0000_0000_0000_0000_0000_0000u128) by (nonlinear_arith)
        requires
            am * mm <= 0x8000_0000_0000_0000_0000_0000u128,
            mm < 0x1_0000_0000u128,
    ;
    let mag: u128 = am * mm * mm;
    let q = tdiv_mag(neg, mag, den as u128);
    proof {
        if a >= 0 {
            assert(a as int * (m as int) * (m as int) == mag as int) by (nonlinear_arith)
                requires
                    am as int == a as int,
                    mm as int == m as int,
                    mag as int == am as int * mm as int * mm as int,
            ;
        } else {
            assert(a as int * (m as int) * (m as int) == -(mag as int)) by (nonlinear_arith)
                requires
                    am as int == -(a as int),
                    mm as int == m as int,
                    mag as int == am as int * mm as int * mm as int,
            ;
        }
        assert(mag as int / den as int <= 0x8000_0000_0000_0000_0000_0000_0000_0000int / (
        den as int)) by (nonlinear_arith)
            requires
                mag as int <= 0x8000_0000_0000_0000_0000_0000_0000_0000int,
                den as int > 0,
        ;
        assert(0x8000_0000_0000_0000_0000_0000_0000_0000int / (den as int) >= 0)
            by (nonlinear_arith)
            requires
                den as int > 0,
        ;
        assert(mag as int / den as int >= 0) by (nonlinear_arith)
            requires
                den as int > 0,
                mag as int >= 0,
        ;
    }
    q
}

/// One axis of the wind perturbation.
fn wind_term_exec(strength: i64, u: u64) -> (c: i64)
    requires
        u < UNIT_DENOM,
    ensures
        c as int == wind_term(strength as int, u as int),
{
    let neg = strength < 0;
    let sm: u128 = abs_u64(strength) as u128;
    assert(sm * (u as u128) <= 0x8000_0000_0000_0000u128 * 0x10_0000u128) by (nonlinear_arith)
        requires
            sm <= 0x8000_0000_0000_0000u128,
            (u as u128) <= 0x10_0000u128,
    ;
    let mag: u128 = sm * (u as u128);
    let q: i128 = tdiv_mag(neg, mag, UNIT_DENOM as u128);
    proof {
        if strength >= 0 {
            assert(strength as int * (u as int) == mag as int) by (nonlinear_arith)
                requires
                    sm as int == strength as int,
                    mag as int == sm as int * (u as int),
            ;
        } else {
            assert(strength as int * (u as int) == -(mag as int)) by (nonlinear_arith)
                requires
                    sm as int == -(strength as int),
                    mag as int == sm as int * (u as int),
            ;
        }
        // the scaled sample is smaller in magnitude than the strength
        assert(mag as int <= sm as int * (UNIT_DENOM as int)) by (nonlinear_arith)
            requires
                mag as int == sm as int * (u as int),
                sm as int >= 0,
                (u as int) < UNIT_DENOM as int,
        ;
        assert(mag as int / (UNIT_DENOM as int) <= sm as int) by (nonlinear_arith)
            requires
                mag as int <= sm as int * (UNIT_DENOM as int),
                UNIT_DENOM as int > 0,
        ;
    }
    let c0: i64 = q as i64;
    let cm: u64 = abs_u64(c0);
    if (cm as u128) * 2 < sm {
        c0
    } else {
        0
    }
}

/// One endpoint of a distance correction.
fn moved_endpoint_exec(s: Verlet, dx: i128, dy: i128) -> (r: Verlet)
    requires
        s.valid(),
        -DELTA_LIMIT <= dx <= DELTA_LIMIT,
        -DELTA_LIMIT <= dy <= DELTA_LIMIT,
    ensures
        r == moved_endpoint(s, dx as int, dy as int),
        r.valid(),
{
    if s.pinned {
        s
    } else {
        Verlet {
            position: Point2 { x: add_clamp(s.position.x, dx), y: add_clamp(s.position.y, dy) },
            delta_position: s.position,
            pinned: false,
        }
    }
}

/// One endpoint's half correction along one axis.
fn half_correction_exec(diff: i64, rest: i64, dist: u64, spring_milli: u16) -> (q: i128)
    requires
        dist > 0,
        rest >= 0,
        -2 * (COORD_LIMIT as int) <= diff <= 2 * (COORD_LIMIT as int),
        spring_milli <= 1000,
    ensures
        q as int == half_correction(diff as int, rest as int, dist as int, spring_milli as int),
        -DELTA_LIMIT <= q <= DELTA_LIMIT,
{
    let neg_d = diff < 0;
    let dm: u128 = abs_u64(diff) as u128;
    let rm: u128 = if (rest as u128) < (dist as u128) {
        dist as u128 - rest as u128
    } else {
        rest as u128 - dist as u128
    };
    let neg = if dm == 0 || rm == 0 {
        false
    } else {
        neg_d != ((rest as u128) < (dist as u128))
    };
    assert(dm * rm <= 4_000_000_000_000_000_000_000_000_000_000_000u128) by (nonlinear_arith)
        requires
            dm <= 2 * (COORD_LIMIT as u128),
            rm <= 0xffff_ffff_ffff_ffffu128,
            COORD_LIMIT == 100_000_000_000_000i64,
    ;
    assert((dm * rm) * (spring_milli as u128)
        <= 4_000_000_000_000_000_000_000_000_000_000_000_000u128) by (nonlinear_arith)
        requires
            dm * rm <= 4_000_000_000_000_000_000_000_000_000_000_000u128,
            (spring_milli as u128) <= 1000,
    ;
    let mag: u128 = dm * rm * (spring_milli as u128);
    let den: u128 = (dist as u128) * 2000;
    let q = tdiv_mag(neg, mag, den);
    proof {
        let a = diff as int;
        let b = rest as int - dist as int;
        let s = spring_milli as int;
        assert(a * b * s == (if neg {
            -(mag as int)
        } else {
            mag as int
        })) by (nonlinear_arith)
            requires
                dm as int == abs(a),
                rm as int == abs(b),
                mag as int == dm as int * rm as int * s,
                s >= 0,
                neg == (if dm == 0 || rm == 0 {
                    false
                } else {
                    (a < 0) != (b < 0)
                }),
        ;
        assert(mag as int / (den as int) <= DELTA_LIMIT as int) by (nonlinear_arith)
            requires
                mag as int <= 4_000_000_000_000_000_000_000_000_000_000_000_000,
                den as int >= 2000,
                DELTA_LIMIT == 1_000_000_000_000_000_000_000_000_000_000_000_000i128,
        ;
    }
    q
}

/// Verlet integration under gravity. Must only be attached to free
/// nodes; the rule itself does not test the pinned flag.
pub fn gravity_constraint(node: &Node<Verlet>, dt_micros: u32, gravity: i16) -> (r: Node<Verlet>)
    requires
        node.data.valid(),
    ensures
        r.data == apply_gravity(node.data, dt_micros as int, gravity as int),
        r.data.valid(),
{
    let s = node.data;
    let a: i128 = scaled_sq(gravity as i64, dt_micros, 2_000_000);
    proof {
        assert(2 * (SCALE as int) == 2_000_000);
    }
    let vx: i128 = s.position.x as i128 - s.delta_position.x as i128;
    let vy: i128 = s.position.y as i128 - s.delta_position.y as i128 + a;
    Node::new(
        Verlet {
            position: Point2 { x: add_clamp(s.position.x, vx), y: add_clamp(s.position.y, vy) },
            delta_position: s.position,
            pinned: s.pinned,
        },
    )
}

/// A one-shot impulse: a constant acceleration applied for one step.
pub fn force_constraint(node: &Node<Verlet>, dt_micros: u32, horz: i64, vert: i64) -> (r: Node<
    Verlet,
>)
    requires
        node.data.valid(),
    ensures
        r.data == apply_impulse(node.data, dt_micros as int, horz as int, vert as int),
        r.data.valid(),
{
    let s = node.data;
    let ix: i128 = scaled_sq(horz, dt_micros, 1_000_000);
    let iy: i128 = scaled_sq(vert, dt_micros, 1_000_000);
    proof {
        assert(SCALE as int == 1_000_000);
    }
    Node::new(
        Verlet {
            position: Point2 { x: add_clamp(s.position.x, ix), y: add_clamp(s.position.y, iy) },
            delta_position: s.position,
            pinned: s.pinned,
        },
    )
}

/// The wind perturbation applied to two given uniform samples.
pub fn wind_step(node: &Node<Verlet>, horz: i64, vert: i64, ux: u64, uy: u64) -> (r: Node<Verlet>)
    requires
        node.data.valid(),
        ux < UNIT_DENOM,
        uy < UNIT_DENOM,
    ensures
        r.data == apply_wind(node.data, horz as int, vert as int, ux as int, uy as int),
        r.data.valid(),
{
    let s = node.data;
    let cx: i64 = wind_term_exec(horz, ux);
    let cy: i64 = wind_term_exec(vert, uy);
    Node::new(
        Verlet {
            position: Point2 {
                x: add_clamp(s.position.x, cx as i128),
                y: add_clamp(s.position.y, cy as i128),
            },
            delta_position: s.delta_position,
            pinned: s.pinned,
        },
    )
}

/// The wind perturbation with samples drawn from the given generator.
/// Whatever the generator returns, the result is the wind rule applied
/// to some pair of in-range samples.
pub fn wind_constraint(node: &Node<Verlet>, horz: i64, vert: i64, rng: &mut rand::rngs::StdRng) -> (r:
    Node<Verlet>)
    requires
        node.data.valid(),
    ensures
        exists|ux: int, uy: int|
            0 <= ux < UNIT_DENOM as int && 0 <= uy < UNIT_DENOM as int && r.data == apply_wind(
                node.data,
                horz as int,
                vert as int,
                ux,
                uy,
            ),
        r.data.valid(),
        r.data.pinned == node.data.pinned,
{
    let ux = crate::rng::draw_unit(rng);
    let uy = crate::rng::draw_unit(rng);
    let r = wind_step(node, horz, vert, ux, uy);
    proof {
        assert(0 <= (ux as int) && (ux as int) < (UNIT_DENOM as int) && 0 <= (uy as int) && (
        uy as int) < (UNIT_DENOM as int) && r.data == apply_wind(
            node.data,
            horz as int,
            vert as int,
            ux as int,
            uy as int,
        ));
    }
    r
}

/// The hard ground clamp.
pub fn ground_boundary_constraint(node: &Node<Verlet>, boundary: i64) -> (r: Node<Verlet>)
    requires
        node.data.valid(),
        -COORD_LIMIT <= boundary <= COORD_LIMIT,
    ensures
        r.data == apply_ground(node.data, boundary as int),
        r.data.valid(),
{
    let s = node.data;
    if s.position.y < boundary {
        Node::new(
            Verlet {
                position: Point2 { x: s.position.x, y: boundary },
                delta_position: s.delta_position,
                pinned: s.pinned,
            },
        )
    } else {
        Node::new(s)
    }
}

/// Ground clamp combined with gravity.
pub fn ground_bound_gravity_constraint(
    node: &Node<Verlet>,
    dt_micros: u32,
    gravity: i16,
    boundary: i64,
) -> (r: Node<Verlet>)
    requires
        node.data.valid(),
        -COORD_LIMIT <= boundary <= COORD_LIMIT,
    ensures
        r.data == apply_bound_gravity(node.data, dt_micros as int, gravity as int, boundary as int),
        r.data.valid(),
{
    if node.data.position.y < boundary {
        ground_boundary_constraint(node, boundary)
    } else {
        gravity_constraint(node, dt_micros, gravity)
    }
}

/// The spring-like distance constraint between two nodes.
pub fn internode_constraint(
    node1: &Node<Verlet>,
    node2: &Node<Verlet>,
    spacing: i64,
    spring_milli: u16,
) -> (pair: (Node<Verlet>, Node<Verlet>))
    requires
        node1.data.valid(),
        node2.data.valid(),
        spacing >= 0,
        0 < spring_milli <= 1000,
    ensures
        (pair.0.data, pair.1.data) == apply_distance(
            node1.data,
            node2.data,
            spacing as int,
            spring_milli as int,
        ),
        pair.0.data.valid(),
        pair.1.data.valid(),
{
    let a = node1.data;
    let b = node2.data;
    let dx: i64 = a.position.x - b.position.x;
    let dy: i64 = a.position.y - b.position.y;
    let dxa: u128 = abs_u64(dx) as u128;
    let dya: u128 = abs_u64(dy) as u128;
    proof {
        assert(dxa * dxa == (dx as int) * (dx as int) && dya * dya == (dy as int) * (dy as int))
            by (nonlinear_arith)
            requires
                dxa as int == abs(dx as int),
                dya as int == abs(dy as int),
        ;
        assert(dxa * dxa + dya * dya <= u128::MAX) by (nonlinear_arith)
            requires
                dxa <= 2 * (COORD_LIMIT as u128),
                dya <= 2 * (COORD_LIMIT as u128),
                COORD_LIMIT == 100_000_000_000_000i64,
        ;
    }
    let d2: u128 = dxa * dxa + dya * dya;
    let d: u64 = isqrt(d2);
    assert(d as int == separation(a.position, b.position));
    if d == 0 {
        (
            Node::new(moved_endpoint_exec(a, 0, 0)),
            Node::new(moved_endpoint_exec(b, 0, 0)),
        )
    } else {
        let px: i128 = half_correction_exec(dx, spacing, d, spring_milli);
        let py: i128 = half_correction_exec(dy, spacing, d, spring_milli);
        (
            Node::new(moved_endpoint_exec(a, px, py)),
            Node::new(moved_endpoint_exec(b, -px, -py)),
        )
    }
}


/// The unary rule kinds a `SelfConnector` can carry, each with its own
/// parameters.
#[derive(Clone, Copy, PartialEq, Eq, Structural, Debug)]
pub enum SelfRule {
    Gravity { dt_micros: u32, gravity: i16 },
    Wind { horz: i64, vert: i64 },
    Impulse { dt_micros: u32, horz: i64, vert: i64 },
    GroundClamp { boundary: i64 },
    BoundGravity { dt_micros: u32, gravity: i16, boundary: i64 },
}

/// The pairwise rule kinds an `InterConnector` can carry.
#[derive(Clone, Copy, PartialEq, Eq, Structural, Debug)]
pub enum InterRule {
    Distance { spacing: i64, spring_milli: u16 },
}

/// A ground boundary must itself be a representable coordinate.
pub open spec fn self_rule_wf(r: SelfRule) -> bool {
    match r {
        SelfRule::GroundClamp { boundary } => -(COORD_LIMIT as int) <= boundary
            <= COORD_LIMIT as int,
        SelfRule::BoundGravity { dt_micros, gravity, boundary } => -(COORD_LIMIT as int)
            <= boundary <= COORD_LIMIT as int,
        _ => true,
    }
}

/// A rest length is nonnegative and a stiffness lies in (0, 1000]
/// thousandths.
pub open spec fn inter_rule_wf(r: InterRule) -> bool {
    match r {
        InterRule::Distance { spacing, spring_milli } => spacing >= 0 && 0 < spring_milli <= 1000,
    }
}

/// What a unary rule does to one node state, given the two uniform
/// samples a wind rule would consume.
pub open spec fn apply_self_rule(r: SelfRule, s: Verlet, ux: int, uy: int) -> Verlet {
    match r {
        SelfRule::Gravity { dt_micros, gravity } => apply_gravity(
            s,
            dt_micros as int,
            gravity as int,
        ),
        SelfRule::Wind { horz, vert } => apply_wind(s, horz as int, vert as int, ux, uy),
        SelfRule::Impulse { dt_micros, horz, vert } => apply_impulse(
            s,
            dt_micros as int,
            horz as int,
            vert as int,
        ),
        SelfRule::GroundClamp { boundary } => apply_ground(s, boundary as int),
        SelfRule::BoundGravity { dt_micros, gravity, boundary } => apply_bound_gravity(
            s,
            dt_micros as int,
            gravity as int,
            boundary as int,
        ),
    }
}

/// What a pairwise rule does to a primary and a secondary node state.
pub open spec fn apply_inter_rule(r: InterRule, a: Verlet, b: Verlet) -> (Verlet, Verlet) {
    match r {
        InterRule::Distance { spacing, spring_milli } => apply_distance(
            a,
            b,
            spacing as int,
            spring_milli as int,
        ),
    }
}

/// Every unary rule keeps the node state representable and leaves the
/// pinned flag as it was.
pub proof fn lemma_self_rule_frame(r: SelfRule, s: Verlet, ux: int, uy: int)
    requires
        s.valid(),
        self_rule_wf(r),
    ensures
        apply_self_rule(r, s, ux, uy).valid(),
        apply_self_rule(r, s, ux, uy).pinned == s.pinned,
{
}

/// Every pairwise rule keeps both states representable, leaves the
/// pinned flags as they were, and leaves a pinned endpoint entirely
/// untouched.
pub proof fn lemma_inter_rule_frame(r: InterRule, a: Verlet, b: Verlet)
    requires
        a.valid(),
        b.valid(),
        inter_rule_wf(r),
    ensures
        apply_inter_rule(r, a, b).0.valid(),
        apply_inter_rule(r, a, b).1.valid(),
        apply_inter_rule(r, a, b).0.pinned == a.pinned,
        apply_inter_rule(r, a, b).1.pinned == b.pinned,
        a.pinned ==> apply_inter_rule(r, a, b).0 == a,
        b.pinned ==> apply_inter_rule(r, a, b).1 == b,
{
}

impl crate::nac::SelfResolve for SelfRule {
    open spec fn rule_wf(&self) -> bool {
        self_rule_wf(*self)
    }

    open spec fn spec_resolve(&self, s: Verlet, ux: int, uy: int) -> Verlet {
        apply_self_rule(*self, s, ux, uy)
    }

    fn resolve(&self, node: &Node<Verlet>, ux: u64, uy: u64) -> (r: Node<Verlet>) {
        match self {
            SelfRule::Gravity { dt_micros, gravity } => gravity_constraint(
                node,
                *dt_micros,
                *gravity,
            ),
            SelfRule::Wind { horz, vert } => wind_step(node, *horz, *vert, ux, uy),
            SelfRule::Impulse { dt_micros, horz, vert } => force_constraint(
                node,
                *dt_micros,
                *horz,
                *vert,
            ),
            SelfRule::GroundClamp { boundary } => ground_boundary_constraint(node, *boundary),
            SelfRule::BoundGravity { dt_micros, gravity, boundary } => {
                ground_bound_gravity_constraint(node, *dt_micros, *gravity, *boundary)
            },
        }
    }
}

impl crate::nac::InterResolve for InterRule {
    open spec fn rule_wf(&self) -> bool {
        inter_rule_wf(*self)
    }

    open spec fn spec_resolve(&self, a: Verlet, b: Verlet) -> (Verlet, Verlet) {
        apply_inter_rule(*self, a, b)
    }

    fn resolve(&self, primary: &Node<Verlet>, secondary: &Node<Verlet>) -> (pair: (
        Node<Verlet>,
        Node<Verlet>,
    )) {
        match self {
            InterRule::Distance { spacing, spring_milli } => internode_constraint(
                primary,
                secondary,
                *spacing,
                *spring_milli,
            ),
        }
    }
}

} // verus!
