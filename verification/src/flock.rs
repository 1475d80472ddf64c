//! Stateless per-agent flocking rules: neighbor band classification, the
//! accumulator arithmetic, the velocity update with its speed clamp, and the
//! two boundary policies.

use crate::geom::{dist2_spec, norm2_spec, Vec2i};
use crate::num::{div_trunc, lemma_div_trunc_mag, lemma_sqrt_floor_unique, sqrt_floor};
use vstd::prelude::*;

verus! {

/// Denominator of the fixed-point factors and time deltas: a factor of 50
/// means 0.05, a time delta of 16 means 16 thousandths of a second.
pub const MILLI: i64 = 1000;

/// Largest accepted radius, speed, turn factor or cell size.
pub const MAX_MAGNITUDE: i64 = 1_000_000_000;

/// Largest accepted steering factor, in thousandths (ten to one).
pub const MAX_FACTOR: i64 = 10_000;

/// Largest coordinate magnitude the per-tick arithmetic accepts.
pub const MAX_COORD: i64 = 1_000_000_000_000;

/// Largest accepted time delta, in thousandths of a second.
pub const MAX_DT: i64 = 1_000_000;

/// Most agents a world will hold at once.
pub const MAX_AGENTS: usize = 1_000_000;

/// Largest stored velocity component the phases accept between ticks.
pub const VEL_LIMIT: i64 = 4_000_000_000;

/// Largest velocity component the integration phase accepts; boundary
/// steering may push a stored velocity this far within a tick.
pub const VEL_PHASE_LIMIT: i64 = 5_000_000_000;

/// The fixed set of named numeric options a simulation runs under.
#[derive(Clone, Copy, PartialEq, Eq, Structural, Debug)]
pub struct Config {
    pub avoid_radius: i64,
    pub align_radius: i64,
    pub max_speed: i64,
    pub min_speed: i64,
    pub separation_factor: i64,
    pub alignment_factor: i64,
    pub cohesion_factor: i64,
    pub turn_factor: i64,
    pub cell_size: i64,
}

impl Config {
    /// Every option positive and within the machine caps, the avoid radius
    /// no larger than the align radius, and the speed floor no larger than
    /// the ceiling.
    pub open spec fn wf(self) -> bool {
        &&& 1 <= self.avoid_radius <= self.align_radius <= MAX_MAGNITUDE
        &&& 1 <= self.min_speed <= self.max_speed <= MAX_MAGNITUDE
        &&& 1 <= self.separation_factor <= MAX_FACTOR
        &&& 1 <= self.alignment_factor <= MAX_FACTOR
        &&& 1 <= self.cohesion_factor <= MAX_FACTOR
        &&& 1 <= self.turn_factor <= MAX_MAGNITUDE
        &&& 1 <= self.cell_size <= MAX_MAGNITUDE
    }

    /// Validate a configuration eagerly; a malformed one is rejected here
    /// rather than discovered mid-simulation.
    pub fn new(
        avoid_radius: i64,
        align_radius: i64,
        max_speed: i64,
        min_speed: i64,
        separation_factor: i64,
        alignment_factor: i64,
        cohesion_factor: i64,
        turn_factor: i64,
        cell_size: i64,
    ) -> (r: Option<Config>)
        ensures
            r matches Some(c) ==> c == (Config {
                avoid_radius,
                align_radius,
                max_speed,
                min_speed,
                separation_factor,
                alignment_factor,
                cohesion_factor,
                turn_factor,
                cell_size,
            }) && c.wf(),
            r is None ==> !(Config {
                avoid_radius,
                align_radius,
                max_speed,
                min_speed,
                separation_factor,
                alignment_factor,
                cohesion_factor,
                turn_factor,
                cell_size,
            }).wf(),
    {
        let c = Config {
            avoid_radius,
            align_radius,
            max_speed,
            min_speed,
            separation_factor,
            alignment_factor,
            cohesion_factor,
            turn_factor,
            cell_size,
        };
        let ok = 1 <= avoid_radius && avoid_radius <= align_radius && align_radius <= MAX_MAGNITUDE
            && 1 <= min_speed && min_speed <= max_speed && max_speed <= MAX_MAGNITUDE && 1
            <= separation_factor && separation_factor <= MAX_FACTOR && 1 <= alignment_factor
            && alignment_factor <= MAX_FACTOR && 1 <= cohesion_factor && cohesion_factor
            <= MAX_FACTOR && 1 <= turn_factor && turn_factor <= MAX_MAGNITUDE && 1 <= cell_size
            && cell_size <= MAX_MAGNITUDE;
        if ok {
            Some(c)
        } else {
            None
        }
    }
}

/// Which interaction band a neighbor falls into, by squared distance.
#[derive(Clone, Copy, PartialEq, Eq, Structural, Debug)]
pub enum Band {
    /// Too close: contributes to separation only.
    Avoid,
    /// Within the alignment radius: contributes to alignment and cohesion.
    Align,
    /// Too far: contributes to nothing.
    Ignore,
}

/// The neighbor is inside the avoidance band.
pub open spec fn in_avoid_band(d2: int, avoid_radius: int) -> bool {
    d2 < avoid_radius * avoid_radius
}

/// The neighbor is inside the alignment band: outside the avoidance band
/// but within the alignment radius.
pub open spec fn in_align_band(d2: int, avoid_radius: int, align_radius: int) -> bool {
    avoid_radius * avoid_radius <= d2 < align_radius * align_radius
}

/// The band a squared distance falls into.
pub open spec fn band_of(d2: int, avoid_radius: int, align_radius: int) -> Band {
    if in_avoid_band(d2, avoid_radius) {
        Band::Avoid
    } else if in_align_band(d2, avoid_radius, align_radius) {
        Band::Align
    } else {
        Band::Ignore
    }
}

/// Band exclusivity: no squared distance lies in the avoidance band and the
/// alignment band at once, so no neighbor pair ever contributes to both the
/// separation sum and the alignment or cohesion sums of one tick.
pub proof fn lemma_band_exclusive(d2: int, avoid_radius: int, align_radius: int)
    ensures
        !(in_avoid_band(d2, avoid_radius) && in_align_band(d2, avoid_radius, align_radius)),
{
}

/// Classify a neighbor at squared distance `d2`.
pub fn classify(d2: i128, avoid_radius: i64, align_radius: i64) -> (b: Band)
    requires
        0 <= avoid_radius,
        0 <= align_radius,
    ensures
        b == band_of(d2 as int, avoid_radius as int, align_radius as int),
{
    if d2 < crate::num::square_i64(avoid_radius) {
        Band::Avoid
    } else if d2 < crate::num::square_i64(align_radius) {
        Band::Align
    } else {
        Band::Ignore
    }
}

/// One component of a vector rescaled from length `len` to length `t`,
/// rounded toward zero.
pub open spec fn rescale_comp(c: int, t: int, len: int) -> int {
    div_trunc(c * t, len)
}

/// The clamped velocity: rescaled to `max_speed` when too fast, to
/// `min_speed` when too slow, the zero vector sent to `(min_speed, 0)`, and
/// anything already inside the band kept as it is.
pub open spec fn clamp_spec(vx: int, vy: int, min_speed: int, max_speed: int) -> (int, int) {
    let n2 = vx * vx + vy * vy;
    let len = sqrt_floor(n2);
    if n2 > max_speed * max_speed {
        (rescale_comp(vx, max_speed, len), rescale_comp(vy, max_speed, len))
    } else if n2 == 0 {
        (min_speed, 0)
    } else if n2 < min_speed * min_speed {
        (rescale_comp(vx, min_speed, len), rescale_comp(vy, min_speed, len))
    } else {
        (vx, vy)
    }
}

/// Rescale `v`, of exact squared length `n2 >= 1`, to length `t`.
fn rescale(v: Vec2i, t: i64, n2: i128) -> (r: Vec2i)
    requires
        v.x != i64::MIN,
        v.y != i64::MIN,
        n2 == norm2_spec(v),
        n2 >= 1,
        1 <= t <= MAX_MAGNITUDE,
    ensures
        r.x as int == rescale_comp(v.x as int, t as int, sqrt_floor(norm2_spec(v))),
        r.y as int == rescale_comp(v.y as int, t as int, sqrt_floor(norm2_spec(v))),
        -t <= r.x <= t,
        -t <= r.y <= t,
{
    let len: u64 = crate::num::isqrt(n2 as u128);
    proof {
        lemma_sqrt_floor_unique(n2 as int, len as int);
        assert(len >= 1) by (nonlinear_arith)
            requires
                (n2 as int) < (len as int + 1) * (len as int + 1),
                n2 >= 1,
                len >= 0,
        ;
        assert(-(len as int) <= v.x as int <= len as int && -(len as int) <= v.y as int
            <= len as int) by (nonlinear_arith)
            requires
                (v.x as int) * (v.x as int) + (v.y as int) * (v.y as int) < (len as int + 1) * (
                len as int + 1),
                len >= 0,
        ;
        assert(-((t as int) * (len as int)) <= (v.x as int) * (t as int) <= (t as int) * (
        len as int) && -((t as int) * (len as int)) <= (v.y as int) * (t as int) <= (t as int) * (
        len as int)) by (nonlinear_arith)
            requires
                -(len as int) <= v.x as int <= len as int,
                -(len as int) <= v.y as int <= len as int,
                t >= 1,
        ;
        lemma_div_trunc_mag((v.x as int) * (t as int), len as int, t as int);
        lemma_div_trunc_mag((v.y as int) * (t as int), len as int, t as int);
    }
    let x = crate::num::mul_div_trunc_wide(v.x, t, len);
    let y = crate::num::mul_div_trunc_wide(v.y, t, len);
    Vec2i { x, y }
}

/// Clamp a velocity into the configured speed band; a zero velocity takes
/// the fixed default direction `+x` at the speed floor.
pub fn clamp_speed(v: Vec2i, min_speed: i64, max_speed: i64) -> (r: Vec2i)
    requires
        v.x != i64::MIN,
        v.y != i64::MIN,
        1 <= min_speed <= max_speed <= MAX_MAGNITUDE,
    ensures
        (r.x as int, r.y as int) == clamp_spec(
            v.x as int,
            v.y as int,
            min_speed as int,
            max_speed as int,
        ),
        -max_speed <= r.x <= max_speed,
        -max_speed <= r.y <= max_speed,
{
    proof {
        assert(norm2_spec(v) == (v.x as int) * (v.x as int) + (v.y as int) * (v.y as int));
    }
    let n2: i128 = crate::geom::norm2(v);
    if n2 > crate::num::square_i64(max_speed) {
        rescale(v, max_speed, n2)
    } else if n2 == 0 {
        Vec2i { x: min_speed, y: 0 }
    } else if n2 < crate::num::square_i64(min_speed) {
        rescale(v, min_speed, n2)
    } else {
        proof {
            assert(-max_speed <= v.x <= max_speed && -max_speed <= v.y <= max_speed)
                by (nonlinear_arith)
                requires
                    (v.x as int) * (v.x as int) + (v.y as int) * (v.y as int) <= (max_speed as int)
                        * (max_speed as int),
                    max_speed >= 1,
            ;
        }
        v
    }
}

/// The magnitude of a truncated quotient of `a = vv * t` by `len`, as the
/// floor quotient of the magnitude.
proof fn lemma_rescale_comp_square(vv: int, t: int, len: int) -> (q: int)
    requires
        t >= 1,
        len >= 1,
    ensures
        q == (if vv >= 0 {
            vv
        } else {
            -vv
        }) * t / len,
        q >= 0,
        rescale_comp(vv, t, len) * rescale_comp(vv, t, len) == q * q,
        (if vv >= 0 {
            vv
        } else {
            -vv
        }) * t == len * q + ((if vv >= 0 {
            vv
        } else {
            -vv
        }) * t) % len,
        0 <= ((if vv >= 0 {
            vv
        } else {
            -vv
        }) * t) % len < len,
{
    let av = if vv >= 0 {
        vv
    } else {
        -vv
    };
    if vv >= 0 {
        assert(vv * t >= 0) by (nonlinear_arith)
            requires
                vv >= 0,
                t >= 1,
        ;
    } else {
        assert(vv * t < 0) by (nonlinear_arith)
            requires
                vv < 0,
                t >= 1,
        ;
        assert((-vv) * t == -(vv * t)) by (nonlinear_arith);
    }
    let q = av * t / len;
    crate::num::lemma_div_floor_bounds(av * t, len);
    assert((-q) * (-q) == q * q) by (nonlinear_arith);
    vstd::arithmetic::div_mod::lemma_fundamental_div_mod(av * t, len);
    vstd::arithmetic::div_mod::lemma_mod_division_less_than_divisor(av * t, len);
    q
}

/// The speed-bound law: after the clamp, the squared speed lies inside the
/// configured band up to integer-rounding tolerance. A velocity over the
/// ceiling lands within a few units of `max_speed`; the zero vector lands
/// exactly at `min_speed`; one under the floor lands near `min_speed`,
/// overshooting at most by the floor-square-root granularity of its tiny
/// length; one already inside the band is untouched.
pub proof fn lemma_clamp_speed_bounds(vx: int, vy: int, min_speed: int, max_speed: int)
    ensures
        ({
            let w = clamp_spec(vx, vy, min_speed, max_speed);
            let n2w = w.0 * w.0 + w.1 * w.1;
            let n2v = vx * vx + vy * vy;
            &&& (1 <= min_speed <= max_speed && n2v > max_speed * max_speed) ==> max_speed
                * max_speed - 4 * max_speed - 2 <= n2w <= max_speed * max_speed + 2 * max_speed
            &&& (1 <= min_speed <= max_speed && n2v == 0) ==> n2w == min_speed * min_speed
            &&& (1 <= min_speed <= max_speed && 0 < n2v < min_speed * min_speed) ==> min_speed
                * min_speed - 4 * min_speed - 2 <= n2w <= 3 * (min_speed * min_speed)
            &&& (1 <= min_speed <= max_speed && min_speed * min_speed <= n2v <= max_speed
                * max_speed) ==> n2w == n2v
        }),
{
    if 1 <= min_speed && min_speed <= max_speed {
        let n2v = vx * vx + vy * vy;
        let len = sqrt_floor(n2v);
        assert(n2v >= 0) by (nonlinear_arith)
            requires
                n2v == vx * vx + vy * vy,
        ;
        crate::num::lemma_sqrt_floor_bounds(n2v);
        let ax = if vx >= 0 {
            vx
        } else {
            -vx
        };
        let ay = if vy >= 0 {
            vy
        } else {
            -vy
        };
        assert((-vx) * (-vx) == vx * vx && (-vy) * (-vy) == vy * vy) by (nonlinear_arith);
        if n2v > max_speed * max_speed || (0 < n2v < min_speed * min_speed) {
            let t = if n2v > max_speed * max_speed {
                max_speed
            } else {
                min_speed
            };
            assert(len >= 1) by (nonlinear_arith)
                requires
                    n2v < (len + 1) * (len + 1),
                    n2v >= 1,
                    len >= 0,
            ;
            assert(ax <= len && ay <= len) by (nonlinear_arith)
                requires
                    ax * ax <= n2v,
                    ay * ay <= n2v,
                    n2v < (len + 1) * (len + 1),
                    ax >= 0,
                    ay >= 0,
                    len >= 0,
            ;
            let qx = lemma_rescale_comp_square(vx, t, len);
            let qy = lemma_rescale_comp_square(vy, t, len);
            let rx = (ax * t) % len;
            let ry = (ay * t) % len;
            let s = qx * qx + qy * qy;
            // Rescaled components never exceed the target length.
            assert(ax * t <= len * t && ay * t <= len * t) by (nonlinear_arith)
                requires
                    0 <= ax <= len,
                    0 <= ay <= len,
                    t >= 1,
            ;
            assert(qx <= t && qy <= t) by (nonlinear_arith)
                requires
                    len * qx <= len * t,
                    len * qy <= len * t,
                    len >= 1,
            ;
            // Lower bound: expanding the division equations.
            assert((len * qx + rx) * (len * qx + rx) + (len * qy + ry) * (len * qy + ry) == (t * t)
                * (ax * ax + ay * ay)) by (nonlinear_arith)
                requires
                    len * qx + rx == ax * t,
                    len * qy + ry == ay * t,
            ;
            assert((t * t) * (ax * ax + ay * ay) >= (t * t) * (len * len)) by (nonlinear_arith)
                requires
                    ax * ax + ay * ay >= len * len,
            ;
            assert((len * qx + rx) * (len * qx + rx) <= (len * len) * (qx * qx) + 2 * (len * len)
                * qx + (len * len)) by (nonlinear_arith)
                requires
                    0 <= rx < len,
                    qx >= 0,
            ;
            assert((len * qy + ry) * (len * qy + ry) <= (len * len) * (qy * qy) + 2 * (len * len)
                * qy + (len * len)) by (nonlinear_arith)
                requires
                    0 <= ry < len,
                    qy >= 0,
            ;
            assert(s >= t * t - 4 * t - 2) by (nonlinear_arith)
                requires
                    (len * len) * (qx * qx) + 2 * (len * len) * qx + (len * len) + (len * len) * (
                    qy * qy) + 2 * (len * len) * qy + (len * len) >= (t * t) * (len * len),
                    s == qx * qx + qy * qy,
                    qx <= t,
                    qy <= t,
                    len >= 1,
            ;
            // Upper bound: the squared division equations again, from above.
            assert((len * qx) * (len * qx) + (len * qy) * (len * qy) <= (t * t) * (ax * ax + ay
                * ay)) by (nonlinear_arith)
                requires
                    0 <= len * qx,
                    0 <= len * qy,
                    len * qx <= ax * t,
                    len * qy <= ay * t,
            ;
            assert((t * t) * (ax * ax + ay * ay) <= (t * t) * (len * len) + 2 * ((t * t) * len))
                by (nonlinear_arith)
                requires
                    ax * ax + ay * ay == n2v,
                    n2v < (len + 1) * (len + 1),
            ;
            assert((len * len) * s == (len * qx) * (len * qx) + (len * qy) * (len * qy))
                by (nonlinear_arith)
                requires
                    s == qx * qx + qy * qy,
            ;
            assert(min_speed * min_speed <= max_speed * max_speed) by (nonlinear_arith)
                requires
                    1 <= min_speed <= max_speed,
            ;
            if n2v > max_speed * max_speed {
                assert(len >= t) by (nonlinear_arith)
                    requires
                        n2v > t * t,
                        n2v < (len + 1) * (len + 1),
                        t >= 1,
                        len >= 0,
                ;
                assert(s <= t * t + 2 * t) by (nonlinear_arith)
                    requires
                        (len * len) * s == (len * qx) * (len * qx) + (len * qy) * (len * qy),
                        (len * qx) * (len * qx) + (len * qy) * (len * qy) <= (t * t) * (len * len)
                            + 2 * ((t * t) * len),
                        s == qx * qx + qy * qy,
                        1 <= t <= len,
                ;
            } else {
                assert(s <= 3 * (t * t)) by (nonlinear_arith)
                    requires
                        (len * len) * s == (len * qx) * (len * qx) + (len * qy) * (len * qy),
                        (len * qx) * (len * qx) + (len * qy) * (len * qy) <= (t * t) * (len * len)
                            + 2 * ((t * t) * len),
                        s == qx * qx + qy * qy,
                        t >= 1,
                        len >= 1,
                ;
            }
        }
    }
}

/// A read-only snapshot of one agent, taken before any agent of the same
/// tick has been integrated.
#[derive(Clone, Copy, PartialEq, Eq, Structural, Debug)]
pub struct AgentSnap {
    pub id: u64,
    pub pos: Vec2i,
    pub vel: Vec2i,
}

/// The transient per-tick accumulators of one agent: written during the
/// query phase, consumed and reset during the integration phase.
#[derive(Clone, Copy, PartialEq, Eq, Structural, Debug)]
pub struct Accum {
    pub separation: Vec2i,
    pub alignment: Vec2i,
    pub cohesion: Vec2i,
    pub neighbor_count: usize,
}

/// The accumulator values as unbounded integers.
pub struct AccumModel {
    pub sep_x: int,
    pub sep_y: int,
    pub ali_x: int,
    pub ali_y: int,
    pub coh_x: int,
    pub coh_y: int,
    pub count: int,
}

impl Accum {
    /// The exec accumulators match the model exactly.
    pub open spec fn matches_model(self, m: AccumModel) -> bool {
        &&& self.separation.x as int == m.sep_x
        &&& self.separation.y as int == m.sep_y
        &&& self.alignment.x as int == m.ali_x
        &&& self.alignment.y as int == m.ali_y
        &&& self.cohesion.x as int == m.coh_x
        &&& self.cohesion.y as int == m.coh_y
        &&& self.neighbor_count as int == m.count
    }
}

/// What one pass over the candidate snapshots accumulates for the agent
/// `me_id` at `me_pos`: each candidate other than the agent itself is
/// classified by exact squared distance; an avoidance neighbor adds the raw
/// position difference to the separation sum, an alignment neighbor adds
/// its velocity and position to the alignment and cohesion sums and is
/// counted, and a neighbor contributes to one band at most.
pub open spec fn accum_spec(
    me_id: u64,
    me_pos: Vec2i,
    avoid_radius: int,
    align_radius: int,
    ns: Seq<AgentSnap>,
) -> AccumModel
    decreases ns.len(),
{
    if ns.len() == 0 {
        AccumModel { sep_x: 0, sep_y: 0, ali_x: 0, ali_y: 0, coh_x: 0, coh_y: 0, count: 0 }
    } else {
        let p = accum_spec(me_id, me_pos, avoid_radius, align_radius, ns.drop_last());
        let b = ns.last();
        if b.id == me_id {
            p
        } else {
            let d2 = dist2_spec(me_pos, b.pos);
            if in_avoid_band(d2, avoid_radius) {
                AccumModel {
                    sep_x: p.sep_x + me_pos.x - b.pos.x,
                    sep_y: p.sep_y + me_pos.y - b.pos.y,
                    ..p
                }
            } else if in_align_band(d2, avoid_radius, align_radius) {
                AccumModel {
                    ali_x: p.ali_x + b.vel.x,
                    ali_y: p.ali_y + b.vel.y,
                    coh_x: p.coh_x + b.pos.x,
                    coh_y: p.coh_y + b.pos.y,
                    count: p.count + 1,
                    ..p
                }
            } else {
                p
            }
        }
    }
}

/// Every velocity component of the snapshots within `b`.
pub open spec fn snaps_vel_bounded(ns: Seq<AgentSnap>, b: int) -> bool {
    forall|j: int|
        0 <= j < ns.len() ==> -b <= (#[trigger] ns[j]).vel.x <= b && -b <= ns[j].vel.y <= b
}

/// Every position component of the snapshots within `b`.
pub open spec fn snaps_pos_bounded(ns: Seq<AgentSnap>, b: int) -> bool {
    forall|j: int|
        0 <= j < ns.len() ==> -b <= (#[trigger] ns[j]).pos.x <= b && -b <= ns[j].pos.y <= b
}

/// How large the accumulators can grow: the separation sum is within
/// `len * avoid_radius`, the alignment sum within `count` velocities, the
/// cohesion sum within `count` in-range positions, the count within `len`.
pub proof fn lemma_accum_bounds(
    me_id: u64,
    me_pos: Vec2i,
    avoid_radius: int,
    align_radius: int,
    ns: Seq<AgentSnap>,
)
    requires
        1 <= avoid_radius <= align_radius <= MAX_MAGNITUDE,
        -MAX_COORD <= me_pos.x <= MAX_COORD,
        -MAX_COORD <= me_pos.y <= MAX_COORD,
        snaps_vel_bounded(ns, VEL_LIMIT as int),
    ensures
        ({
            let m = accum_spec(me_id, me_pos, avoid_radius, align_radius, ns);
            &&& 0 <= m.count <= ns.len()
            &&& -(ns.len() * avoid_radius) <= m.sep_x <= ns.len() * avoid_radius
            &&& -(ns.len() * avoid_radius) <= m.sep_y <= ns.len() * avoid_radius
            &&& -(m.count * (VEL_LIMIT as int)) <= m.ali_x <= m.count * (VEL_LIMIT as int)
            &&& -(m.count * (VEL_LIMIT as int)) <= m.ali_y <= m.count * (VEL_LIMIT as int)
            &&& -(m.count * ((MAX_COORD + MAX_MAGNITUDE) as int)) <= m.coh_x <= m.count * ((
            MAX_COORD + MAX_MAGNITUDE) as int)
            &&& -(m.count * ((MAX_COORD + MAX_MAGNITUDE) as int)) <= m.coh_y <= m.count * ((
            MAX_COORD + MAX_MAGNITUDE) as int)
        }),
    decreases ns.len(),
{
    if ns.len() > 0 {
        lemma_accum_bounds(me_id, me_pos, avoid_radius, align_radius, ns.drop_last());
        let p = accum_spec(me_id, me_pos, avoid_radius, align_radius, ns.drop_last());
        let m = accum_spec(me_id, me_pos, avoid_radius, align_radius, ns);
        let b = ns.last();
        let n1 = ns.len() - 1;
        assert(snaps_vel_bounded(ns.drop_last(), VEL_LIMIT as int));
        assert((n1 + 1) * avoid_radius == n1 * avoid_radius + avoid_radius) by (nonlinear_arith);
        if b.id != me_id {
            let d2 = dist2_spec(me_pos, b.pos);
            if in_avoid_band(d2, avoid_radius) {
                crate::geom::lemma_dist2_component_bounds(me_pos, b.pos, avoid_radius);
            } else if in_align_band(d2, avoid_radius, align_radius) {
                crate::geom::lemma_dist2_component_bounds(me_pos, b.pos, align_radius);
                assert((p.count + 1) * (VEL_LIMIT as int) == p.count * (VEL_LIMIT as int) + (
                VEL_LIMIT as int)) by (nonlinear_arith);
                assert((p.count + 1) * ((MAX_COORD + MAX_MAGNITUDE) as int) == p.count * ((
                MAX_COORD + MAX_MAGNITUDE) as int) + ((MAX_COORD + MAX_MAGNITUDE) as int))
                    by (nonlinear_arith);
            }
        }
    }
}

/// Run the query phase for one agent over its candidate snapshots.
pub fn accumulate(
    me_id: u64,
    me_pos: Vec2i,
    avoid_radius: i64,
    align_radius: i64,
    ns: &Vec<AgentSnap>,
) -> (acc: Accum)
    requires
        1 <= avoid_radius <= align_radius <= MAX_MAGNITUDE,
        -MAX_COORD <= me_pos.x <= MAX_COORD,
        -MAX_COORD <= me_pos.y <= MAX_COORD,
        ns@.len() <= MAX_AGENTS,
        snaps_vel_bounded(ns@, VEL_LIMIT as int),
        snaps_pos_bounded(ns@, MAX_COORD as int),
    ensures
        acc.matches_model(accum_spec(me_id, me_pos, avoid_radius as int, align_radius as int, ns@)),
{
    let mut acc = Accum {
        separation: Vec2i { x: 0, y: 0 },
        alignment: Vec2i { x: 0, y: 0 },
        cohesion: Vec2i { x: 0, y: 0 },
        neighbor_count: 0,
    };
    let n = ns.len();
    let mut i: usize = 0;
    proof {
        assert(ns@.take(0) =~= Seq::<AgentSnap>::empty());
    }
    while i < n
        invariant
            1 <= avoid_radius <= align_radius <= MAX_MAGNITUDE,
            -MAX_COORD <= me_pos.x <= MAX_COORD,
            -MAX_COORD <= me_pos.y <= MAX_COORD,
            n == ns@.len(),
            n <= MAX_AGENTS,
            snaps_vel_bounded(ns@, VEL_LIMIT as int),
            snaps_pos_bounded(ns@, MAX_COORD as int),
            i <= n,
            acc.matches_model(
                accum_spec(me_id, me_pos, avoid_radius as int, align_radius as int, ns@.take(
                    i as int,
                )),
            ),
        decreases n - i,
    {
        let ghost prefix = ns@.take(i as int);
        let ghost longer = ns@.take(i + 1);
        proof {
            assert(longer.drop_last() =~= prefix);
            assert(longer.last() == ns@[i as int]);
            lemma_accum_bounds(me_id, me_pos, avoid_radius as int, align_radius as int, prefix);
            lemma_accum_bounds(me_id, me_pos, avoid_radius as int, align_radius as int, longer);
            assert(prefix.len() * (avoid_radius as int) <= MAX_AGENTS * (MAX_MAGNITUDE as int)
                && longer.len() * (avoid_radius as int) <= MAX_AGENTS * (MAX_MAGNITUDE as int))
                by (nonlinear_arith)
                requires
                    0 <= prefix.len() <= MAX_AGENTS,
                    0 <= longer.len() <= MAX_AGENTS,
                    0 <= avoid_radius <= MAX_MAGNITUDE,
            ;
            assert(longer.len() * (VEL_LIMIT as int) <= MAX_AGENTS * (VEL_LIMIT as int)
                && longer.len() * ((MAX_COORD + MAX_MAGNITUDE) as int) <= MAX_AGENTS * ((MAX_COORD
                + MAX_MAGNITUDE) as int)) by (nonlinear_arith)
                requires
                    0 <= longer.len() <= MAX_AGENTS,
            ;
            let mp = accum_spec(me_id, me_pos, avoid_radius as int, align_radius as int, prefix);
            let ml = accum_spec(me_id, me_pos, avoid_radius as int, align_radius as int, longer);
            assert(0 <= mp.count <= prefix.len() && 0 <= ml.count <= longer.len());
            assert(mp.count * (VEL_LIMIT as int) <= MAX_AGENTS * (VEL_LIMIT as int) && ml.count * (
            VEL_LIMIT as int) <= MAX_AGENTS * (VEL_LIMIT as int) && mp.count * ((MAX_COORD
                + MAX_MAGNITUDE) as int) <= MAX_AGENTS * ((MAX_COORD + MAX_MAGNITUDE) as int)
                && ml.count * ((MAX_COORD + MAX_MAGNITUDE) as int) <= MAX_AGENTS * ((MAX_COORD
                + MAX_MAGNITUDE) as int)) by (nonlinear_arith)
                requires
                    0 <= mp.count <= MAX_AGENTS,
                    0 <= ml.count <= MAX_AGENTS,
            ;
        }
        let b = ns[i];
        if b.id != me_id {
            let d2 = crate::geom::dist2(me_pos, b.pos);
            match classify(d2, avoid_radius, align_radius) {
                Band::Avoid => {
                    proof {
                        crate::geom::lemma_dist2_component_bounds(
                            me_pos,
                            b.pos,
                            avoid_radius as int,
                        );
                    }
                    acc.separation = Vec2i {
                        x: acc.separation.x + (me_pos.x - b.pos.x),
                        y: acc.separation.y + (me_pos.y - b.pos.y),
                    };
                },
                Band::Align => {
                    acc.alignment = Vec2i {
                        x: acc.alignment.x + b.vel.x,
                        y: acc.alignment.y + b.vel.y,
                    };
                    acc.cohesion = Vec2i { x: acc.cohesion.x + b.pos.x, y: acc.cohesion.y + b.pos.y };
                    acc.neighbor_count = acc.neighbor_count + 1;
                },
                Band::Ignore => {},
            }
        }
        i = i + 1;
    }
    proof {
        assert(ns@.take(n as int) =~= ns@);
    }
    acc
}

impl Accum {
    /// The accumulators, widened to unbounded integers.
    pub open spec fn model(self) -> AccumModel {
        AccumModel {
            sep_x: self.separation.x as int,
            sep_y: self.separation.y as int,
            ali_x: self.alignment.x as int,
            ali_y: self.alignment.y as int,
            coh_x: self.cohesion.x as int,
            coh_y: self.cohesion.y as int,
            count: self.neighbor_count as int,
        }
    }
}

/// The velocity update before the speed clamp: the separation sum scaled by
/// its factor, then alignment toward the neighborhood's average velocity,
/// then cohesion toward its average position, each factor in thousandths.
/// Averages and scalings round toward zero; without neighbors only the
/// separation term applies.
pub open spec fn update_velocity_spec(cfg: Config, vel: Vec2i, pos: Vec2i, m: AccumModel) -> (
    int,
    int,
) {
    let v1x = vel.x + div_trunc(m.sep_x * cfg.separation_factor, MILLI as int);
    let v1y = vel.y + div_trunc(m.sep_y * cfg.separation_factor, MILLI as int);
    if m.count > 0 {
        let ax = div_trunc(m.ali_x, m.count);
        let ay = div_trunc(m.ali_y, m.count);
        let v2x = v1x + div_trunc((ax - v1x) * cfg.alignment_factor, MILLI as int);
        let v2y = v1y + div_trunc((ay - v1y) * cfg.alignment_factor, MILLI as int);
        let cx = div_trunc(m.coh_x, m.count);
        let cy = div_trunc(m.coh_y, m.count);
        (
            v2x + div_trunc((cx - pos.x) * cfg.cohesion_factor, MILLI as int),
            v2y + div_trunc((cy - pos.y) * cfg.cohesion_factor, MILLI as int),
        )
    } else {
        (v1x, v1y)
    }
}

/// The velocity an agent leaves the integration phase with: the update
/// above, then the speed clamp.
pub open spec fn new_velocity_spec(cfg: Config, vel: Vec2i, pos: Vec2i, m: AccumModel) -> (
    int,
    int,
) {
    let u = update_velocity_spec(cfg, vel, pos, m);
    clamp_spec(u.0, u.1, cfg.min_speed as int, cfg.max_speed as int)
}

/// The accumulators are within what `lemma_accum_bounds` allows.
pub open spec fn accum_in_range(acc: Accum) -> bool {
    &&& acc.neighbor_count <= MAX_AGENTS
    &&& -((MAX_AGENTS * MAX_MAGNITUDE) as int) <= acc.separation.x as int <= (MAX_AGENTS
        * MAX_MAGNITUDE) as int
    &&& -((MAX_AGENTS * MAX_MAGNITUDE) as int) <= acc.separation.y as int <= (MAX_AGENTS
        * MAX_MAGNITUDE) as int
    &&& -(acc.neighbor_count * VEL_LIMIT) <= acc.alignment.x as int <= acc.neighbor_count
        * VEL_LIMIT
    &&& -(acc.neighbor_count * VEL_LIMIT) <= acc.alignment.y as int <= acc.neighbor_count
        * VEL_LIMIT
    &&& -(acc.neighbor_count * ((MAX_COORD + MAX_MAGNITUDE) as int)) <= acc.cohesion.x as int
        <= acc.neighbor_count * ((MAX_COORD + MAX_MAGNITUDE) as int)
    &&& -(acc.neighbor_count * ((MAX_COORD + MAX_MAGNITUDE) as int)) <= acc.cohesion.y as int
        <= acc.neighbor_count * ((MAX_COORD + MAX_MAGNITUDE) as int)
}

/// Apply one agent's accumulators to its velocity and clamp the speed.
pub fn step_velocity(cfg: Config, vel: Vec2i, pos: Vec2i, acc: Accum) -> (r: Vec2i)
    requires
        cfg.wf(),
        -VEL_PHASE_LIMIT <= vel.x <= VEL_PHASE_LIMIT,
        -VEL_PHASE_LIMIT <= vel.y <= VEL_PHASE_LIMIT,
        -MAX_COORD <= pos.x <= MAX_COORD,
        -MAX_COORD <= pos.y <= MAX_COORD,
        accum_in_range(acc),
    ensures
        (r.x as int, r.y as int) == new_velocity_spec(cfg, vel, pos, acc.model()),
        -cfg.max_speed <= r.x <= cfg.max_speed,
        -cfg.max_speed <= r.y <= cfg.max_speed,
{
    proof {
        crate::num::lemma_mul_div_trunc_mag(
            acc.separation.x as int,
            cfg.separation_factor as int,
            MILLI as int,
            (MAX_AGENTS * MAX_MAGNITUDE) as int,
            MAX_FACTOR as int,
        );
        crate::num::lemma_mul_div_trunc_mag(
            acc.separation.y as int,
            cfg.separation_factor as int,
            MILLI as int,
            (MAX_AGENTS * MAX_MAGNITUDE) as int,
            MAX_FACTOR as int,
        );
    }
    let v1x = vel.x + crate::num::mul_div_trunc(acc.separation.x, cfg.separation_factor, MILLI);
    let v1y = vel.y + crate::num::mul_div_trunc(acc.separation.y, cfg.separation_factor, MILLI);
    let v3 = if acc.neighbor_count > 0 {
        let cnt: i64 = acc.neighbor_count as i64;
        proof {
            crate::num::lemma_div_trunc_mag(acc.alignment.x as int, cnt as int, VEL_LIMIT as int);
            crate::num::lemma_div_trunc_mag(acc.alignment.y as int, cnt as int, VEL_LIMIT as int);
        }
        let ax = crate::num::div_trunc_i64(acc.alignment.x, cnt);
        let ay = crate::num::div_trunc_i64(acc.alignment.y, cnt);
        proof {
            crate::num::lemma_mul_div_trunc_mag(
                (ax - v1x) as int,
                cfg.alignment_factor as int,
                MILLI as int,
                20_000_000_000_000_000int,
                MAX_FACTOR as int,
            );
            crate::num::lemma_mul_div_trunc_mag(
                (ay - v1y) as int,
                cfg.alignment_factor as int,
                MILLI as int,
                20_000_000_000_000_000int,
                MAX_FACTOR as int,
            );
        }
        let v2x = v1x + crate::num::mul_div_trunc(ax - v1x, cfg.alignment_factor, MILLI);
        let v2y = v1y + crate::num::mul_div_trunc(ay - v1y, cfg.alignment_factor, MILLI);
        proof {
            crate::num::lemma_div_trunc_mag(
                acc.cohesion.x as int,
                cnt as int,
                (MAX_COORD + MAX_MAGNITUDE) as int,
            );
            crate::num::lemma_div_trunc_mag(
                acc.cohesion.y as int,
                cnt as int,
                (MAX_COORD + MAX_MAGNITUDE) as int,
            );
        }
        let cx = crate::num::div_trunc_i64(acc.cohesion.x, cnt);
        let cy = crate::num::div_trunc_i64(acc.cohesion.y, cnt);
        proof {
            crate::num::lemma_mul_div_trunc_mag(
                (cx - pos.x) as int,
                cfg.cohesion_factor as int,
                MILLI as int,
                3_000_000_000_000int,
                MAX_FACTOR as int,
            );
            crate::num::lemma_mul_div_trunc_mag(
                (cy - pos.y) as int,
                cfg.cohesion_factor as int,
                MILLI as int,
                3_000_000_000_000int,
                MAX_FACTOR as int,
            );
        }
        let v3x = v2x + crate::num::mul_div_trunc(cx - pos.x, cfg.cohesion_factor, MILLI);
        let v3y = v2y + crate::num::mul_div_trunc(cy - pos.y, cfg.cohesion_factor, MILLI);
        Vec2i { x: v3x, y: v3y }
    } else {
        Vec2i { x: v1x, y: v1y }
    };
    clamp_speed(v3, cfg.min_speed, cfg.max_speed)
}

/// The soft boundary nudge: past a wall, the matching velocity component is
/// pushed back by the turn factor; an agent may still overshoot while it
/// turns around.
pub open spec fn steer_spec(vel: Vec2i, pos: Vec2i, half_w: int, half_h: int, turn: int) -> (
    int,
    int,
) {
    let vx1 = if pos.x > half_w {
        vel.x - turn
    } else {
        vel.x as int
    };
    let vx2 = if pos.x < -half_w {
        vx1 + turn
    } else {
        vx1
    };
    let vy1 = if pos.y > half_h {
        vel.y - turn
    } else {
        vel.y as int
    };
    let vy2 = if pos.y < -half_h {
        vy1 + turn
    } else {
        vy1
    };
    (vx2, vy2)
}

/// Apply the boundary nudge to one agent's velocity.
pub fn steer_at_boundary(vel: Vec2i, pos: Vec2i, half_w: i64, half_h: i64, turn: i64) -> (r: Vec2i)
    requires
        -VEL_LIMIT <= vel.x <= VEL_LIMIT,
        -VEL_LIMIT <= vel.y <= VEL_LIMIT,
        0 <= half_w,
        0 <= half_h,
        1 <= turn <= MAX_MAGNITUDE,
    ensures
        (r.x as int, r.y as int) == steer_spec(vel, pos, half_w as int, half_h as int, turn as int),
        -VEL_PHASE_LIMIT <= r.x <= VEL_PHASE_LIMIT,
        -VEL_PHASE_LIMIT <= r.y <= VEL_PHASE_LIMIT,
{
    let mut vx = vel.x;
    let mut vy = vel.y;
    if pos.x > half_w {
        vx = vx - turn;
    }
    if pos.x < -half_w {
        vx = vx + turn;
    }
    if pos.y > half_h {
        vy = vy - turn;
    }
    if pos.y < -half_h {
        vy = vy + turn;
    }
    Vec2i { x: vx, y: vy }
}

/// The hard wraparound alternative: a position past a wall reappears at the
/// opposite wall.
pub open spec fn wrap_spec(pos: Vec2i, half_w: int, half_h: int) -> (int, int) {
    let x1 = if pos.x > half_w {
        -half_w
    } else {
        pos.x as int
    };
    let x2 = if x1 < -half_w {
        half_w
    } else {
        x1
    };
    let y1 = if pos.y > half_h {
        -half_h
    } else {
        pos.y as int
    };
    let y2 = if y1 < -half_h {
        half_h
    } else {
        y1
    };
    (x2, y2)
}

/// Wrap one agent's position across the boundary.
pub fn wrap_position(pos: Vec2i, half_w: i64, half_h: i64) -> (r: Vec2i)
    requires
        0 <= half_w,
        0 <= half_h,
    ensures
        (r.x as int, r.y as int) == wrap_spec(pos, half_w as int, half_h as int),
{
    let mut x = pos.x;
    let mut y = pos.y;
    if x > half_w {
        x = -half_w;
    }
    if x < -half_w {
        x = half_w;
    }
    if y > half_h {
        y = -half_h;
    }
    if y < -half_h {
        y = half_h;
    }
    Vec2i { x, y }
}

/// Where one integration step puts an agent: its position advanced by the
/// clamped velocity over the tick's time delta, in thousandths of a second.
pub open spec fn step_position_spec(pos: Vec2i, vx: int, vy: int, dt: int) -> (int, int) {
    (pos.x + div_trunc(vx * dt, MILLI as int), pos.y + div_trunc(vy * dt, MILLI as int))
}

/// Advance one agent's position by its velocity over `dt`.
pub fn step_position(pos: Vec2i, vel: Vec2i, dt: i64) -> (r: Vec2i)
    requires
        -MAX_COORD <= pos.x <= MAX_COORD,
        -MAX_COORD <= pos.y <= MAX_COORD,
        -MAX_MAGNITUDE <= vel.x <= MAX_MAGNITUDE,
        -MAX_MAGNITUDE <= vel.y <= MAX_MAGNITUDE,
        0 <= dt <= MAX_DT,
    ensures
        (r.x as int, r.y as int) == step_position_spec(pos, vel.x as int, vel.y as int, dt as int),
        -(2 * (MAX_COORD as int) + 1) <= r.x <= 2 * (MAX_COORD as int) + 1,
        -(2 * (MAX_COORD as int) + 1) <= r.y <= 2 * (MAX_COORD as int) + 1,
{
    proof {
        crate::num::lemma_mul_div_trunc_mag(
            vel.x as int,
            dt as int,
            MILLI as int,
            MAX_MAGNITUDE as int,
            MAX_DT as int,
        );
        crate::num::lemma_mul_div_trunc_mag(
            vel.y as int,
            dt as int,
            MILLI as int,
            MAX_MAGNITUDE as int,
            MAX_DT as int,
        );
    }
    let sx = crate::num::mul_div_trunc(vel.x, dt, MILLI);
    let sy = crate::num::mul_div_trunc(vel.y, dt, MILLI);
    Vec2i { x: pos.x + sx, y: pos.y + sy }
}

} // verus!
