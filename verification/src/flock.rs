//! The flocking rule engine: agents steered by separation, alignment and
//! cohesion over neighbors found with the spatial index, integrated and
//! wrapped at the world borders.
//!
//! All quantities are integers; a caller that thinks in fractional units
//! scales them up. Rule strengths are fixed-point with `STRENGTH_UNIT` as
//! one.

use vstd::prelude::*;

use crate::geom::{in_box, limit_to, scale_to, Vec2};
use crate::num::tdiv;
use crate::quadtree::Position;

verus! {

/// Largest magnitude of a world-box corner coordinate.
pub const WORLD_LIMIT: i64 = 1_000_000_000_000;

/// Largest magnitude of an agent position coordinate.
pub const POS_LIMIT: i64 = 4_000_000_000_000;

/// Largest magnitude of an agent velocity coordinate.
pub const VEL_LIMIT: i64 = 2_000_000_000;

/// Largest magnitude of an agent acceleration coordinate between ticks.
pub const ACC_LIMIT: i64 = 100_000_000_000_000;

/// Largest magnitude of one weighted rule contribution's coordinate.
pub const STEER_LIMIT: i64 = 1_000_000_000_000;

/// Largest value of a radius, speed or force tunable.
pub const CFG_LIMIT: i64 = 1_000_000_000;

/// Fixed-point one for the rule strength multipliers.
pub const STRENGTH_UNIT: i64 = 1000;

/// Largest rule strength (a thousand times `STRENGTH_UNIT`).
pub const STRENGTH_LIMIT: i64 = 1_000_000;

/// Numerator of the inverse-radius weight of separation terms.
pub const SEP_SCALE: i64 = 1_000_000;

/// Most agents one tick handles.
pub const AGENTS_LIMIT: usize = 1_000_000;

/// Display radius a freshly spawned agent gets, used only for border
/// wrapping.
pub const BOID_RADIUS: i64 = 2;

/// An autonomous agent: position, velocity, an acceleration accumulator
/// reset every tick, a radius used only at the world borders, and a debug
/// marker.
#[derive(Clone, Copy, PartialEq, Eq, Structural, Debug)]
pub struct Boid {
    pub id: usize,
    pub position: Vec2,
    pub velocity: Vec2,
    pub acceleration: Vec2,
    pub r: i64,
    pub highlight: bool,
}

impl Position for Boid {
    open spec fn pos_spec(&self) -> Vec2 {
        self.position
    }

    fn pos(&self) -> (p: Vec2) {
        self.position
    }
}

/// The per-tick tunables: one radius and one strength per rule, and the
/// speed and force caps.
#[derive(Clone, Copy, PartialEq, Eq, Structural, Debug)]
pub struct FlockConfig {
    pub sep_radius: i64,
    pub ali_radius: i64,
    pub coh_radius: i64,
    pub sep_strength: i64,
    pub ali_strength: i64,
    pub coh_strength: i64,
    pub max_speed: i64,
    pub max_force: i64,
}

impl FlockConfig {
    /// The tunables the engine accepts: radii may be negative (such a
    /// rule just sees no neighbors), strengths and caps are nonnegative
    /// and bounded.
    pub open spec fn valid(self) -> bool {
        &&& -CFG_LIMIT <= self.sep_radius <= CFG_LIMIT
        &&& -CFG_LIMIT <= self.ali_radius <= CFG_LIMIT
        &&& -CFG_LIMIT <= self.coh_radius <= CFG_LIMIT
        &&& 0 <= self.sep_strength <= STRENGTH_LIMIT
        &&& 0 <= self.ali_strength <= STRENGTH_LIMIT
        &&& 0 <= self.coh_strength <= STRENGTH_LIMIT
        &&& 0 <= self.max_speed <= CFG_LIMIT
        &&& 0 <= self.max_force <= CFG_LIMIT
    }
}

/// An agent's fields are within the engine's coordinate budget.
pub open spec fn boid_ok(b: Boid) -> bool {
    &&& -POS_LIMIT <= b.position.x <= POS_LIMIT
    &&& -POS_LIMIT <= b.position.y <= POS_LIMIT
    &&& -VEL_LIMIT <= b.velocity.x <= VEL_LIMIT
    &&& -VEL_LIMIT <= b.velocity.y <= VEL_LIMIT
    &&& -ACC_LIMIT <= b.acceleration.x <= ACC_LIMIT
    &&& -ACC_LIMIT <= b.acceleration.y <= ACC_LIMIT
    &&& 0 <= b.r <= CFG_LIMIT
}

/// A world box with bounded corners in bottom-left/top-right order.
pub open spec fn world_ok(bl: Vec2, tr: Vec2) -> bool {
    &&& -WORLD_LIMIT <= bl.x && tr.x <= WORLD_LIMIT
    &&& -WORLD_LIMIT <= bl.y && tr.y <= WORLD_LIMIT
    &&& bl.x <= tr.x
    &&& bl.y <= tr.y
}

/// Componentwise sum of two integer pairs.
pub open spec fn add2(a: (int, int), b: (int, int)) -> (int, int) {
    (a.0 + b.0, a.1 + b.1)
}

/// One summation step over agents: the accumulator plus the term of the
/// next agent.
pub open spec fn sum_step(f: spec_fn(Boid) -> (int, int)) -> spec_fn((int, int), Boid) -> (
    int,
    int,
) {
    |acc: (int, int), b: Boid| (acc.0 + f(b).0, acc.1 + f(b).1)
}

/// The sum of a term over a sequence of agents.
pub open spec fn pair_sum(s: Seq<Boid>, f: spec_fn(Boid) -> (int, int)) -> (int, int) {
    s.fold_left((0int, 0int), sum_step(f))
}

/// Selects agents other than the one with the given identity.
pub open spec fn others_pred(id: usize) -> spec_fn(Boid) -> bool {
    |b: Boid| b.id != id
}

/// How many agents in the sequence are not the one with the given
/// identity.
pub open spec fn count_others(s: Seq<Boid>, id: usize) -> int {
    s.filter(others_pred(id)).len() as int
}

/// The inverse-radius weight of a separation term; nonpositive radii
/// weigh nothing.
pub open spec fn inv_weight(dist: int) -> int {
    if dist > 0 {
        SEP_SCALE as int / dist
    } else {
        0
    }
}

/// One separation term: the offset away from a neighbor, re-targeted to
/// the inverse-radius weight; the agent itself contributes nothing.
pub open spec fn sep_term(me: Boid, inv: int) -> spec_fn(Boid) -> (int, int) {
    |b: Boid| if b.id == me.id {
        (0int, 0int)
    } else {
        scale_to(
            me.position.x - b.position.x,
            me.position.y - b.position.y,
            inv,
        )
    }
}

/// One alignment term: a neighbor's velocity; the agent itself
/// contributes nothing.
pub open spec fn vel_term(me: Boid) -> spec_fn(Boid) -> (int, int) {
    |b: Boid| if b.id == me.id {
        (0int, 0int)
    } else {
        (b.velocity.x as int, b.velocity.y as int)
    }
}

/// One cohesion term: a neighbor's position; the agent itself
/// contributes nothing.
pub open spec fn pos_term(me: Boid) -> spec_fn(Boid) -> (int, int) {
    |b: Boid| if b.id == me.id {
        (0int, 0int)
    } else {
        (b.position.x as int, b.position.y as int)
    }
}

/// Steering toward a desired heading: the desired vector re-targeted to
/// the maximum speed, minus the current velocity, clamped to the maximum
/// force.
pub open spec fn steer_spec(me: Boid, desired: (int, int), max_speed: int, max_force: int) -> (
    int,
    int,
) {
    let d = scale_to(desired.0, desired.1, max_speed);
    limit_to(d.0 - me.velocity.x, d.1 - me.velocity.y, max_force)
}

/// Steering toward a target point.
pub open spec fn seek_spec(me: Boid, target: (int, int), max_speed: int, max_force: int) -> (
    int,
    int,
) {
    steer_spec(me, (target.0 - me.position.x, target.1 - me.position.y), max_speed, max_force)
}

/// The separation rule: the weighted sum of offsets away from every
/// neighbor, steered toward when any neighbor exists and the sum is not
/// zero.
pub open spec fn separate_spec(
    me: Boid,
    neigh: Seq<Boid>,
    dist: int,
    max_speed: int,
    max_force: int,
) -> (int, int) {
    let n = count_others(neigh, me.id);
    let s = pair_sum(neigh, sep_term(me, inv_weight(dist)));
    if n > 0 && !(s.0 == 0 && s.1 == 0) {
        steer_spec(me, s, max_speed, max_force)
    } else {
        (0, 0)
    }
}

/// The alignment rule: the average neighbor velocity, steered toward
/// when any neighbor exists.
pub open spec fn align_spec(me: Boid, neigh: Seq<Boid>, max_speed: int, max_force: int) -> (
    int,
    int,
) {
    let n = count_others(neigh, me.id);
    let s = pair_sum(neigh, vel_term(me));
    if n > 0 {
        steer_spec(me, (tdiv(s.0, n), tdiv(s.1, n)), max_speed, max_force)
    } else {
        (0, 0)
    }
}

/// The cohesion rule: the average neighbor position, sought as a target
/// when any neighbor exists.
pub open spec fn cohesion_spec(me: Boid, neigh: Seq<Boid>, max_speed: int, max_force: int) -> (
    int,
    int,
) {
    let n = count_others(neigh, me.id);
    let s = pair_sum(neigh, pos_term(me));
    if n > 0 {
        seek_spec(me, (tdiv(s.0, n), tdiv(s.1, n)), max_speed, max_force)
    } else {
        (0, 0)
    }
}

/// A rule vector scaled by a fixed-point strength.
pub open spec fn weight(v: (int, int), s: int) -> (int, int) {
    (tdiv(v.0 * s, STRENGTH_UNIT as int), tdiv(v.1 * s, STRENGTH_UNIT as int))
}

/// Border wrapping: the first crossed edge, tested in the order left,
/// bottom, right, top, teleports the agent (inflated by its radius) to
/// the opposite edge; at most one axis wraps per tick.
pub open spec fn wrap_spec(p: Vec2, rd: int, bl: Vec2, tr: Vec2) -> (int, int) {
    if p.x < bl.x - rd {
        (tr.x + rd, p.y as int)
    } else if p.y < bl.y - rd {
        (p.x as int, tr.y + rd)
    } else if p.x > tr.x + rd {
        (bl.x - rd, p.y as int)
    } else if p.y > tr.y + rd {
        (p.x as int, bl.y - rd)
    } else {
        (p.x as int, p.y as int)
    }
}

/// The agents within the given radius of a point: a range query's exact
/// semantics over the whole flock.
pub open spec fn neighbors(bs: Seq<Boid>, c: Vec2, r: int) -> Seq<Boid> {
    bs.filter(crate::quadtree::sel_circle(c, r))
}

/// The combined weighted steering the agent at index `i` receives from
/// its three rules, each over the neighbors within that rule's radius.
pub open spec fn steering_spec(bs: Seq<Boid>, i: int, cfg: FlockConfig) -> (int, int) {
    let me = bs[i];
    let sep = separate_spec(
        me,
        neighbors(bs, me.position, cfg.sep_radius as int),
        cfg.sep_radius as int,
        cfg.max_speed as int,
        cfg.max_force as int,
    );
    let ali = align_spec(
        me,
        neighbors(bs, me.position, cfg.ali_radius as int),
        cfg.max_speed as int,
        cfg.max_force as int,
    );
    let coh = cohesion_spec(
        me,
        neighbors(bs, me.position, cfg.coh_radius as int),
        cfg.max_speed as int,
        cfg.max_force as int,
    );
    add2(
        add2(weight(sep, cfg.sep_strength as int), weight(ali, cfg.ali_strength as int)),
        weight(coh, cfg.coh_strength as int),
    )
}

/// One simulation tick for the agent at index `i`, reading the frozen
/// pre-tick flock: the steering joins the accumulator, the border wrap
/// moves the position, then motion integrates and the accumulator resets.
pub open spec fn boid_tick(bs: Seq<Boid>, i: int, bl: Vec2, tr: Vec2, cfg: FlockConfig) -> Boid {
    let me = bs[i];
    let st = steering_spec(bs, i, cfg);
    let acc = (me.acceleration.x + st.0, me.acceleration.y + st.1);
    let wp = wrap_spec(me.position, me.r as int, bl, tr);
    let v2 = limit_to(me.velocity.x + acc.0, me.velocity.y + acc.1, cfg.max_speed as int);
    Boid {
        id: me.id,
        position: Vec2 { x: (wp.0 + v2.0) as i64, y: (wp.1 + v2.1) as i64 },
        velocity: Vec2 { x: v2.0 as i64, y: v2.1 as i64 },
        acceleration: Vec2 { x: 0, y: 0 },
        r: me.r,
        highlight: me.highlight,
    }
}

/// Summing one more agent of a prefix adds exactly its term.
pub proof fn lemma_pair_sum_take_step(s: Seq<Boid>, f: spec_fn(Boid) -> (int, int), i: int)
    requires
        0 <= i < s.len(),
    ensures
        pair_sum(s.take(i + 1), f) == add2(pair_sum(s.take(i), f), f(s[i])),
{
    let g = sum_step(f);
    assert(s.take(i + 1).drop_last() =~= s.take(i));
    assert(s.take(i + 1).last() == s[i]);
    assert(s.take(i + 1).fold_left((0int, 0int), g) == g(
        s.take(i + 1).drop_last().fold_left((0int, 0int), g),
        s.take(i + 1).last(),
    ));
}

/// A term sum does not depend on the order of the agents: sequences with
/// the same contents sum to the same pair.
pub proof fn lemma_pair_sum_permutation(s: Seq<Boid>, t: Seq<Boid>, f: spec_fn(Boid) -> (int, int))
    requires
        s.to_multiset() == t.to_multiset(),
    ensures
        pair_sum(s, f) == pair_sum(t, f),
{
    let g = sum_step(f);
    assert(vstd::seq_lib::commutative_foldl(g)) by {
        assert(forall|x: Boid, y: Boid, v: (int, int)| #[trigger] g(g(v, x), y) == g(g(v, y), x));
    }
    vstd::seq_lib::lemma_fold_left_permutation(s, t, g, (0int, 0int));
}

/// A neighbor count does not depend on the order of the agents.
pub proof fn lemma_count_others_permutation(s: Seq<Boid>, t: Seq<Boid>, id: usize)
    requires
        s.to_multiset() == t.to_multiset(),
    ensures
        count_others(s, id) == count_others(t, id),
{
    broadcast use vstd::seq_lib::group_to_multiset_ensures;

    crate::seqs::lemma_filter_permutation(s, t, others_pred(id));
    assert(s.filter(others_pred(id)).to_multiset().len() == s.filter(others_pred(id)).len());
    assert(t.filter(others_pred(id)).to_multiset().len() == t.filter(others_pred(id)).len());
}

/// No steering rule depends on the order in which neighbors arrive:
/// neighbor sequences with the same contents steer identically.
pub proof fn lemma_rules_permutation(
    me: Boid,
    s: Seq<Boid>,
    t: Seq<Boid>,
    dist: int,
    max_speed: int,
    max_force: int,
)
    requires
        s.to_multiset() == t.to_multiset(),
    ensures
        separate_spec(me, s, dist, max_speed, max_force) == separate_spec(
            me,
            t,
            dist,
            max_speed,
            max_force,
        ),
        align_spec(me, s, max_speed, max_force) == align_spec(me, t, max_speed, max_force),
        cohesion_spec(me, s, max_speed, max_force) == cohesion_spec(me, t, max_speed, max_force),
{
    lemma_count_others_permutation(s, t, me.id);
    lemma_pair_sum_permutation(s, t, sep_term(me, inv_weight(dist)));
    lemma_pair_sum_permutation(s, t, vel_term(me));
    lemma_pair_sum_permutation(s, t, pos_term(me));
}

impl Boid {
    /// A fresh agent at the given position: zero velocity and
    /// acceleration, the default radius, not highlighted.
    pub fn new(id: usize, x: i64, y: i64) -> (b: Boid)
        ensures
            b.id == id,
            b.position.x == x && b.position.y == y,
            b.velocity.x == 0 && b.velocity.y == 0,
            b.acceleration.x == 0 && b.acceleration.y == 0,
            b.r == BOID_RADIUS,
            !b.highlight,
    {
        let position = Vec2 { x, y };
        let velocity = Vec2 { x: 0, y: 0 };
        let acceleration = Vec2 { x: 0, y: 0 };
        let r = BOID_RADIUS;
        let highlight = false;
        Boid { id, position, velocity, acceleration, r, highlight }
    }

    /// Steering toward a desired heading, exactly `steer_spec`.
    fn steer_toward(&self, desired: Vec2, max_speed: i64, max_force: i64) -> (v: Vec2)
        requires
            -crate::geom::VEC_LIMIT <= desired.x <= crate::geom::VEC_LIMIT,
            -crate::geom::VEC_LIMIT <= desired.y <= crate::geom::VEC_LIMIT,
            -VEL_LIMIT <= self.velocity.x <= VEL_LIMIT,
            -VEL_LIMIT <= self.velocity.y <= VEL_LIMIT,
            0 <= max_speed <= CFG_LIMIT,
            0 <= max_force <= CFG_LIMIT,
        ensures
            (v.x as int, v.y as int) == steer_spec(
                *self,
                (desired.x as int, desired.y as int),
                max_speed as int,
                max_force as int,
            ),
            -max_force <= v.x <= max_force,
            -max_force <= v.y <= max_force,
    {
        let d = desired.with_magnitude(max_speed);
        let s = Vec2 { x: d.x - self.velocity.x, y: d.y - self.velocity.y };
        s.limit_magnitude(max_force)
    }

    /// Steering toward a target point: the desired offset re-targeted to
    /// the maximum speed, minus the current velocity, clamped to the
    /// maximum force.
    pub fn seek(&self, target: Vec2, max_speed: i64, max_force: i64) -> (v: Vec2)
        requires
            -POS_LIMIT <= self.position.x <= POS_LIMIT,
            -POS_LIMIT <= self.position.y <= POS_LIMIT,
            -POS_LIMIT <= target.x <= POS_LIMIT,
            -POS_LIMIT <= target.y <= POS_LIMIT,
            -VEL_LIMIT <= self.velocity.x <= VEL_LIMIT,
            -VEL_LIMIT <= self.velocity.y <= VEL_LIMIT,
            0 <= max_speed <= CFG_LIMIT,
            0 <= max_force <= CFG_LIMIT,
        ensures
            (v.x as int, v.y as int) == seek_spec(
                *self,
                (target.x as int, target.y as int),
                max_speed as int,
                max_force as int,
            ),
            -max_force <= v.x <= max_force,
            -max_force <= v.y <= max_force,
    {
        let desired = Vec2 { x: target.x - self.position.x, y: target.y - self.position.y };
        self.steer_toward(desired, max_speed, max_force)
    }

    /// The separation rule over the given neighbors: a weighted sum of
    /// offsets away from every other agent, scaled inversely by the
    /// separation radius; steered toward when it is nonzero, else zero.
    pub fn separate(&self, boids: &Vec<Boid>, dist: i64, max_speed: i64, max_force: i64) -> (v:
        Vec2)
        requires
            boid_ok(*self),
            boids@.len() <= AGENTS_LIMIT,
            forall|k: int| 0 <= k < boids@.len() ==> boid_ok(#[trigger] boids@[k]),
            -CFG_LIMIT <= dist <= CFG_LIMIT,
            0 <= max_speed <= CFG_LIMIT,
            0 <= max_force <= CFG_LIMIT,
        ensures
            (v.x as int, v.y as int) == separate_spec(
                *self,
                boids@,
                dist as int,
                max_speed as int,
                max_force as int,
            ),
            -max_force <= v.x <= max_force,
            -max_force <= v.y <= max_force,
    {
        let inv: i64 = if dist > 0 {
            (SEP_SCALE as u64 / dist as u64) as i64
        } else {
            0
        };
        proof {
            if dist > 0 {
                crate::num::lemma_tdiv_bound(SEP_SCALE as int, dist as int, SEP_SCALE as int);
            }
            assert(inv as int == inv_weight(dist as int));
            assert(0 <= inv <= SEP_SCALE);
        }
        let ghost f = sep_term(*self, inv as int);
        let mut sx: i64 = 0;
        let mut sy: i64 = 0;
        let mut count: usize = 0;
        let n = boids.len();
        let mut i: usize = 0;
        while i < n
            invariant
                i <= n,
                n == boids@.len(),
                n <= AGENTS_LIMIT,
                boid_ok(*self),
                forall|k: int| 0 <= k < boids@.len() ==> boid_ok(#[trigger] boids@[k]),
                0 <= inv <= SEP_SCALE,
                f == sep_term(*self, inv as int),
                (sx as int, sy as int) == pair_sum(boids@.take(i as int), f),
                count as int == count_others(boids@.take(i as int), self.id),
                count <= i,
                -(count as int) * (SEP_SCALE as int) <= sx as int <= (count as int) * (
                SEP_SCALE as int),
                -(count as int) * (SEP_SCALE as int) <= sy as int <= (count as int) * (
                SEP_SCALE as int),
            decreases n - i,
        {
            proof {
                lemma_pair_sum_take_step(boids@, f, i as int);
                crate::seqs::lemma_filter_take_step(boids@, others_pred(self.id), i as int);
            }
            let b = boids[i];
            if b.id != self.id {
                let d = Vec2 {
                    x: self.position.x - b.position.x,
                    y: self.position.y - b.position.y,
                };
                let t = d.with_magnitude(inv);
                sx = sx + t.x;
                sy = sy + t.y;
                count = count + 1;
            }
            i = i + 1;
        }
        proof {
            assert(boids@.take(n as int) =~= boids@);
        }
        if count > 0 && !(sx == 0 && sy == 0) {
            self.steer_toward(Vec2 { x: sx, y: sy }, max_speed, max_force)
        } else {
            Vec2 { x: 0, y: 0 }
        }
    }

    /// The alignment rule over the given neighbors: the average velocity
    /// of every other agent, steered toward; zero without neighbors.
    pub fn align(&self, boids: &Vec<Boid>, max_speed: i64, max_force: i64) -> (v: Vec2)
        requires
            boid_ok(*self),
            boids@.len() <= AGENTS_LIMIT,
            forall|k: int| 0 <= k < boids@.len() ==> boid_ok(#[trigger] boids@[k]),
            0 <= max_speed <= CFG_LIMIT,
            0 <= max_force <= CFG_LIMIT,
        ensures
            (v.x as int, v.y as int) == align_spec(
                *self,
                boids@,
                max_speed as int,
                max_force as int,
            ),
            -max_force <= v.x <= max_force,
            -max_force <= v.y <= max_force,
    {
        let ghost f = vel_term(*self);
        let mut sx: i64 = 0;
        let mut sy: i64 = 0;
        let mut count: usize = 0;
        let n = boids.len();
        let mut i: usize = 0;
        while i < n
            invariant
                i <= n,
                n == boids@.len(),
                n <= AGENTS_LIMIT,
                boid_ok(*self),
                forall|k: int| 0 <= k < boids@.len() ==> boid_ok(#[trigger] boids@[k]),
                f == vel_term(*self),
                (sx as int, sy as int) == pair_sum(boids@.take(i as int), f),
                count as int == count_others(boids@.take(i as int), self.id),
                count <= i,
                -(count as int) * (VEL_LIMIT as int) <= sx as int <= (count as int) * (
                VEL_LIMIT as int),
                -(count as int) * (VEL_LIMIT as int) <= sy as int <= (count as int) * (
                VEL_LIMIT as int),
            decreases n - i,
        {
            proof {
                lemma_pair_sum_take_step(boids@, f, i as int);
                crate::seqs::lemma_filter_take_step(boids@, others_pred(self.id), i as int);
            }
            let b = boids[i];
            if b.id != self.id {
                sx = sx + b.velocity.x;
                sy = sy + b.velocity.y;
                count = count + 1;
            }
            i = i + 1;
        }
        proof {
            assert(boids@.take(n as int) =~= boids@);
        }
        if count > 0 {
            proof {
                crate::num::lemma_tdiv_ratio_bound(sx as int, count as int, VEL_LIMIT as int);
                crate::num::lemma_tdiv_ratio_bound(sy as int, count as int, VEL_LIMIT as int);
            }
            let ax = crate::num::div_trunc(sx as i128, count as i128) as i64;
            let ay = crate::num::div_trunc(sy as i128, count as i128) as i64;
            self.steer_toward(Vec2 { x: ax, y: ay }, max_speed, max_force)
        } else {
            Vec2 { x: 0, y: 0 }
        }
    }

    /// The cohesion rule over the given neighbors: the average position
    /// of every other agent, sought as a target; zero without neighbors.
    pub fn cohesion(&self, boids: &Vec<Boid>, max_speed: i64, max_force: i64) -> (v: Vec2)
        requires
            boid_ok(*self),
            boids@.len() <= AGENTS_LIMIT,
            forall|k: int| 0 <= k < boids@.len() ==> boid_ok(#[trigger] boids@[k]),
            0 <= max_speed <= CFG_LIMIT,
            0 <= max_force <= CFG_LIMIT,
        ensures
            (v.x as int, v.y as int) == cohesion_spec(
                *self,
                boids@,
                max_speed as int,
                max_force as int,
            ),
            -max_force <= v.x <= max_force,
            -max_force <= v.y <= max_force,
    {
        let ghost f = pos_term(*self);
        let mut sx: i64 = 0;
        let mut sy: i64 = 0;
        let mut count: usize = 0;
        let n = boids.len();
        let mut i: usize = 0;
        while i < n
            invariant
                i <= n,
                n == boids@.len(),
                n <= AGENTS_LIMIT,
                boid_ok(*self),
                forall|k: int| 0 <= k < boids@.len() ==> boid_ok(#[trigger] boids@[k]),
                f == pos_term(*self),
                (sx as int, sy as int) == pair_sum(boids@.take(i as int), f),
                count as int == count_others(boids@.take(i as int), self.id),
                count <= i,
                -(count as int) * (POS_LIMIT as int) <= sx as int <= (count as int) * (
                POS_LIMIT as int),
                -(count as int) * (POS_LIMIT as int) <= sy as int <= (count as int) * (
                POS_LIMIT as int),
            decreases n - i,
        {
            proof {
                lemma_pair_sum_take_step(boids@, f, i as int);
                crate::seqs::lemma_filter_take_step(boids@, others_pred(self.id), i as int);
            }
            let b = boids[i];
            if b.id != self.id {
                sx = sx + b.position.x;
                sy = sy + b.position.y;
                count = count + 1;
            }
            i = i + 1;
        }
        proof {
            assert(boids@.take(n as int) =~= boids@);
        }
        if count > 0 {
            proof {
                crate::num::lemma_tdiv_ratio_bound(sx as int, count as int, POS_LIMIT as int);
                crate::num::lemma_tdiv_ratio_bound(sy as int, count as int, POS_LIMIT as int);
            }
            let tx = crate::num::div_trunc(sx as i128, count as i128) as i64;
            let ty = crate::num::div_trunc(sy as i128, count as i128) as i64;
            self.seek(Vec2 { x: tx, y: ty }, max_speed, max_force)
        } else {
            Vec2 { x: 0, y: 0 }
        }
    }

    /// One integration step: the accumulated acceleration joins the
    /// velocity, the velocity is clamped to the maximum speed and carries
    /// the position, and the accumulator resets to zero.
    pub fn update(&mut self, max_speed: i64)
        requires
            -POS_LIMIT <= old(self).position.x <= POS_LIMIT,
            -POS_LIMIT <= old(self).position.y <= POS_LIMIT,
            -VEL_LIMIT <= old(self).velocity.x <= VEL_LIMIT,
            -VEL_LIMIT <= old(self).velocity.y <= VEL_LIMIT,
            -ACC_LIMIT - 3 * STEER_LIMIT <= old(self).acceleration.x <= ACC_LIMIT + 3 * STEER_LIMIT,
            -ACC_LIMIT - 3 * STEER_LIMIT <= old(self).acceleration.y <= ACC_LIMIT + 3 * STEER_LIMIT,
            0 <= max_speed <= CFG_LIMIT,
        ensures
            (final(self).velocity.x as int, final(self).velocity.y as int) == limit_to(
                old(self).velocity.x + old(self).acceleration.x,
                old(self).velocity.y + old(self).acceleration.y,
                max_speed as int,
            ),
            -max_speed <= final(self).velocity.x <= max_speed,
            -max_speed <= final(self).velocity.y <= max_speed,
            final(self).position.x == old(self).position.x + final(self).velocity.x,
            final(self).position.y == old(self).position.y + final(self).velocity.y,
            final(self).acceleration.x == 0 && final(self).acceleration.y == 0,
            final(self).id == old(self).id,
            final(self).r == old(self).r,
            final(self).highlight == old(self).highlight,
    {
        let v = Vec2 {
            x: self.velocity.x + self.acceleration.x,
            y: self.velocity.y + self.acceleration.y,
        };
        let v = v.limit_magnitude(max_speed);
        self.velocity = v;
        self.position = Vec2 { x: self.position.x + v.x, y: self.position.y + v.y };
        self.acceleration = Vec2 { x: 0, y: 0 };
    }

    /// Wraps the agent at the world borders: the first crossed edge, in
    /// the order left, bottom, right, top, teleports it to the opposite
    /// edge; everything but the position is untouched.
    pub fn borders(&mut self, bl: Vec2, tr: Vec2)
        requires
            world_ok(bl, tr),
            -POS_LIMIT <= old(self).position.x <= POS_LIMIT,
            -POS_LIMIT <= old(self).position.y <= POS_LIMIT,
            0 <= old(self).r <= CFG_LIMIT,
        ensures
            (final(self).position.x as int, final(self).position.y as int) == wrap_spec(
                old(self).position,
                old(self).r as int,
                bl,
                tr,
            ),
            -POS_LIMIT <= final(self).position.x <= POS_LIMIT,
            -POS_LIMIT <= final(self).position.y <= POS_LIMIT,
            final(self).velocity == old(self).velocity,
            final(self).acceleration == old(self).acceleration,
            final(self).id == old(self).id,
            final(self).r == old(self).r,
            final(self).highlight == old(self).highlight,
    {
        let rd = self.r;
        if self.position.x < bl.x - rd {
            self.position = Vec2 { x: tr.x + rd, y: self.position.y };
        } else if self.position.y < bl.y - rd {
            self.position = Vec2 { x: self.position.x, y: tr.y + rd };
        } else if self.position.x > tr.x + rd {
            self.position = Vec2 { x: bl.x - rd, y: self.position.y };
        } else if self.position.y > tr.y + rd {
            self.position = Vec2 { x: self.position.x, y: bl.y - rd };
        }
    }
}

/// Every agent a well-stocked index returns comes from the flock it was
/// built from: a bound holding of every flock member holds of the query
/// result, whose contents are exactly the flock's neighbors.
proof fn lemma_query_boids_ok(elems: Seq<Boid>, bs: Seq<Boid>, res: Seq<Boid>, c: Vec2, r: int)
    requires
        elems.to_multiset() == bs.to_multiset(),
        res == elems.filter(crate::quadtree::sel_circle::<Boid>(c, r)),
        forall|k: int| 0 <= k < bs.len() ==> boid_ok(#[trigger] bs[k]),
    ensures
        forall|k: int| 0 <= k < res.len() ==> boid_ok(#[trigger] res[k]),
        res.to_multiset() == neighbors(bs, c, r).to_multiset(),
        res.len() <= bs.len(),
{
    broadcast use vstd::seq_lib::group_to_multiset_ensures;

    let pred = crate::quadtree::sel_circle::<Boid>(c, r);
    crate::seqs::lemma_filter_elems_from(elems, pred);
    bs.lemma_filter_len(pred);
    assert(res.to_multiset().len() == res.len());
    assert(bs.filter(pred).to_multiset().len() == bs.filter(pred).len());
    assert forall|k: int| 0 <= k < res.len() implies boid_ok(#[trigger] res[k]) by {
        assert(elems.contains(res[k]));
        assert(elems.to_multiset().count(res[k]) > 0);
        assert(bs.to_multiset().count(res[k]) > 0);
        assert(bs.contains(res[k]));
        let j = choose|j: int| 0 <= j < bs.len() && bs[j] == res[k];
        assert(boid_ok(bs[j]));
    }
    crate::seqs::lemma_filter_permutation(elems, bs, pred);
}

/// The world box stretched to cover every agent's position, so that the
/// rebuilt index can hold each insertion's containment precondition.
fn enclosing_box(boids: &Vec<Boid>, bl: Vec2, tr: Vec2) -> (r: (Vec2, Vec2))
    requires
        world_ok(bl, tr),
        forall|k: int| 0 <= k < boids@.len() ==> boid_ok(#[trigger] boids@[k]),
    ensures
        crate::geom::box_ok(r.0, r.1),
        forall|k: int| 0 <= k < boids@.len() ==> in_box((#[trigger] boids@[k]).position, r.0, r.1),
{
    let mut lx = bl.x;
    let mut ly = bl.y;
    let mut hx = tr.x;
    let mut hy = tr.y;
    let n = boids.len();
    let mut i: usize = 0;
    while i < n
        invariant
            i <= n,
            n == boids@.len(),
            forall|k: int| 0 <= k < boids@.len() ==> boid_ok(#[trigger] boids@[k]),
            -POS_LIMIT <= lx <= hx <= POS_LIMIT,
            -POS_LIMIT <= ly <= hy <= POS_LIMIT,
            forall|k: int|
                0 <= k < i as int ==> {
                    let p = (#[trigger] boids@[k]).position;
                    lx <= p.x <= hx && ly <= p.y <= hy
                },
        decreases n - i,
    {
        let p = boids[i].position;
        if p.x < lx {
            lx = p.x;
        }
        if p.y < ly {
            ly = p.y;
        }
        if p.x > hx {
            hx = p.x;
        }
        if p.y > hy {
            hy = p.y;
        }
        i = i + 1;
    }
    (Vec2 { x: lx, y: ly }, Vec2 { x: hx, y: hy })
}

/// Creates a flock: `count` agents at rest, placed uniformly at random
/// inside the world box, numbered by their index, the first one
/// highlighted for debug display.
pub fn spawn_flock(count: usize, bl: Vec2, tr: Vec2) -> (boids: Vec<Boid>)
    requires
        world_ok(bl, tr),
        count <= AGENTS_LIMIT,
    ensures
        boids@.len() == count as int,
        forall|k: int|
            0 <= k < count as int ==> {
                let b = #[trigger] boids@[k];
                &&& b.id == k
                &&& in_box(b.position, bl, tr)
                &&& b.velocity.x == 0 && b.velocity.y == 0
                &&& b.acceleration.x == 0 && b.acceleration.y == 0
                &&& b.r == BOID_RADIUS
                &&& b.highlight == (k == 0)
                &&& boid_ok(b)
            },
{
    let mut boids: Vec<Boid> = Vec::new();
    let mut i: usize = 0;
    while i < count
        invariant
            i <= count,
            count <= AGENTS_LIMIT,
            world_ok(bl, tr),
            boids@.len() == i as int,
            forall|k: int|
                0 <= k < i as int ==> {
                    let b = #[trigger] boids@[k];
                    &&& b.id == k
                    &&& in_box(b.position, bl, tr)
                    &&& b.velocity.x == 0 && b.velocity.y == 0
                    &&& b.acceleration.x == 0 && b.acceleration.y == 0
                    &&& b.r == BOID_RADIUS
                    &&& b.highlight == (k == 0)
                    &&& boid_ok(b)
                },
        decreases count - i,
    {
        let x = crate::rng::random_in_range(bl.x, tr.x);
        let y = crate::rng::random_in_range(bl.y, tr.y);
        let mut b = Boid::new(i, x, y);
        if i == 0 {
            b.highlight = true;
        }
        boids.push(b);
        i = i + 1;
    }
    boids
}

/// Builds a fresh spatial index over the agents' current positions, for
/// one tick's queries or for a renderer that draws the partition grid:
/// the index is well-formed for the given box and holds exactly the
/// flock.
pub fn build_index(boids: &Vec<Boid>, bl: Vec2, tr: Vec2) -> (t: crate::quadtree::QNode<Boid>)
    requires
        crate::geom::box_ok(bl, tr),
        forall|k: int| 0 <= k < boids@.len() ==> in_box((#[trigger] boids@[k]).position, bl, tr),
    ensures
        t.wf(bl, tr),
        t.elems().to_multiset() == boids@.to_multiset(),
        t.elems().len() == boids@.len(),
{
    let ghost bs0 = boids@;
    let mut tree: crate::quadtree::QNode<Boid> = crate::quadtree::QNode::Points(Vec::new());
    proof {
        assert(tree.elems() =~= bs0.take(0));
    }
    let n = boids.len();
    let mut i: usize = 0;
    while i < n
        invariant
            i <= n,
            n == boids@.len(),
            boids@ == bs0,
            crate::geom::box_ok(bl, tr),
            forall|k: int| 0 <= k < bs0.len() ==> in_box((#[trigger] bs0[k]).position, bl, tr),
            tree.wf(bl, tr),
            tree.elems().to_multiset() == bs0.take(i as int).to_multiset(),
        decreases n - i,
    {
        let b = boids[i];
        tree.insert(b, bl, tr);
        proof {
            assert(bs0.take(i as int + 1) =~= bs0.take(i as int).push(bs0[i as int]));
            vstd::seq_lib::to_multiset_build(bs0.take(i as int), bs0[i as int]);
        }
        i = i + 1;
    }
    proof {
        assert(bs0.take(n as int) =~= bs0);
        vstd::seq_lib::to_multiset_len(tree.elems());
        vstd::seq_lib::to_multiset_len(bs0);
    }
    tree
}

/// Advances the flock by one tick: a fresh spatial index is built from
/// every current position, all steering is computed from that frozen
/// snapshot into a buffer, and only then is every agent accumulated,
/// border-wrapped and integrated — so no agent sees a neighbor's
/// mid-tick state.
pub fn step(boids: &mut Vec<Boid>, bl: Vec2, tr: Vec2, cfg: &FlockConfig)
    requires
        world_ok(bl, tr),
        cfg.valid(),
        old(boids)@.len() <= AGENTS_LIMIT,
        forall|k: int| 0 <= k < old(boids)@.len() ==> boid_ok(#[trigger] old(boids)@[k]),
    ensures
        final(boids)@.len() == old(boids)@.len(),
        forall|k: int|
            0 <= k < old(boids)@.len() ==> #[trigger] final(boids)@[k] == boid_tick(
                old(boids)@,
                k,
                bl,
                tr,
                *cfg,
            ),
{
    broadcast use vstd::seq_lib::group_to_multiset_ensures;

    let ghost bs0 = boids@;
    let (ebl, etr) = enclosing_box(boids, bl, tr);
    let tree = build_index(boids, ebl, etr);
    let n = boids.len();

    let mut steers: Vec<Vec2> = Vec::new();
    let mut i: usize = 0;
    while i < n
        invariant
            i <= n,
            n == boids@.len(),
            boids@ == bs0,
            n <= AGENTS_LIMIT,
            cfg.valid(),
            forall|k: int| 0 <= k < bs0.len() ==> boid_ok(#[trigger] bs0[k]),
            crate::geom::box_ok(ebl, etr),
            tree.wf(ebl, etr),
            tree.elems().to_multiset() == bs0.to_multiset(),
            steers@.len() == i as int,
            forall|k: int|
                0 <= k < i as int ==> {
                    let s = #[trigger] steers@[k];
                    &&& (s.x as int, s.y as int) == steering_spec(bs0, k, *cfg)
                    &&& -3 * STEER_LIMIT <= s.x <= 3 * STEER_LIMIT
                    &&& -3 * STEER_LIMIT <= s.y <= 3 * STEER_LIMIT
                },
        decreases n - i,
    {
        let me = boids[i];
        let sep_fl = tree.points_in_circle(ebl, etr, me.position, cfg.sep_radius);
        let ali_fl = tree.points_in_circle(ebl, etr, me.position, cfg.ali_radius);
        let coh_fl = tree.points_in_circle(ebl, etr, me.position, cfg.coh_radius);
        proof {
            lemma_query_boids_ok(tree.elems(), bs0, sep_fl@, me.position, cfg.sep_radius as int);
            lemma_query_boids_ok(tree.elems(), bs0, ali_fl@, me.position, cfg.ali_radius as int);
            lemma_query_boids_ok(tree.elems(), bs0, coh_fl@, me.position, cfg.coh_radius as int);
            lemma_rules_permutation(
                me,
                sep_fl@,
                neighbors(bs0, me.position, cfg.sep_radius as int),
                cfg.sep_radius as int,
                cfg.max_speed as int,
                cfg.max_force as int,
            );
            lemma_rules_permutation(
                me,
                ali_fl@,
                neighbors(bs0, me.position, cfg.ali_radius as int),
                cfg.ali_radius as int,
                cfg.max_speed as int,
                cfg.max_force as int,
            );
            lemma_rules_permutation(
                me,
                coh_fl@,
                neighbors(bs0, me.position, cfg.coh_radius as int),
                cfg.coh_radius as int,
                cfg.max_speed as int,
                cfg.max_force as int,
            );
        }
        let s1 = me.separate(&sep_fl, cfg.sep_radius, cfg.max_speed, cfg.max_force);
        let s2 = me.align(&ali_fl, cfg.max_speed, cfg.max_force);
        let s3 = me.cohesion(&coh_fl, cfg.max_speed, cfg.max_force);
        proof {
            lemma_weight_in_range(s1.x as int, cfg.sep_strength as int);
            lemma_weight_in_range(s1.y as int, cfg.sep_strength as int);
            lemma_weight_in_range(s2.x as int, cfg.ali_strength as int);
            lemma_weight_in_range(s2.y as int, cfg.ali_strength as int);
            lemma_weight_in_range(s3.x as int, cfg.coh_strength as int);
            lemma_weight_in_range(s3.y as int, cfg.coh_strength as int);
        }
        let w1x = crate::num::div_trunc(
            s1.x as i128 * cfg.sep_strength as i128,
            STRENGTH_UNIT as i128,
        ) as i64;
        let w1y = crate::num::div_trunc(
            s1.y as i128 * cfg.sep_strength as i128,
            STRENGTH_UNIT as i128,
        ) as i64;
        let w2x = crate::num::div_trunc(
            s2.x as i128 * cfg.ali_strength as i128,
            STRENGTH_UNIT as i128,
        ) as i64;
        let w2y = crate::num::div_trunc(
            s2.y as i128 * cfg.ali_strength as i128,
            STRENGTH_UNIT as i128,
        ) as i64;
        let w3x = crate::num::div_trunc(
            s3.x as i128 * cfg.coh_strength as i128,
            STRENGTH_UNIT as i128,
        ) as i64;
        let w3y = crate::num::div_trunc(
            s3.y as i128 * cfg.coh_strength as i128,
            STRENGTH_UNIT as i128,
        ) as i64;
        steers.push(Vec2 { x: w1x + w2x + w3x, y: w1y + w2y + w3y });
        i = i + 1;
    }

    i = 0;
    while i < n
        invariant
            i <= n,
            n == boids@.len(),
            n <= AGENTS_LIMIT,
            world_ok(bl, tr),
            cfg.valid(),
            forall|k: int| 0 <= k < bs0.len() ==> boid_ok(#[trigger] bs0[k]),
            n == bs0.len(),
            steers@.len() == n as int,
            forall|k: int|
                0 <= k < n as int ==> {
                    let s = #[trigger] steers@[k];
                    &&& (s.x as int, s.y as int) == steering_spec(bs0, k, *cfg)
                    &&& -3 * STEER_LIMIT <= s.x <= 3 * STEER_LIMIT
                    &&& -3 * STEER_LIMIT <= s.y <= 3 * STEER_LIMIT
                },
            forall|k: int|
                0 <= k < i as int ==> #[trigger] boids@[k] == boid_tick(bs0, k, bl, tr, *cfg),
            forall|k: int| i as int <= k < n as int ==> #[trigger] boids@[k] == bs0[k],
        decreases n - i,
    {
        let mut b = boids[i];
        let st = steers[i];
        b.acceleration = Vec2 { x: b.acceleration.x + st.x, y: b.acceleration.y + st.y };
        b.borders(bl, tr);
        b.update(cfg.max_speed);
        boids.set(i, b);
        i = i + 1;
    }
}

/// Among the agents within radius `r` of the agent at index `i`, none is
/// another agent when no other agent lies within that radius.
proof fn lemma_no_other_neighbors(bs: Seq<Boid>, i: int, r: int)
    requires
        0 <= i < bs.len(),
        forall|j: int|
            0 <= j < bs.len() && (#[trigger] bs[j]).id != bs[i].id ==> !crate::geom::in_circle(
                bs[j].position,
                bs[i].position,
                r,
            ),
    ensures
        count_others(neighbors(bs, bs[i].position, r), bs[i].id) == 0,
{
    let nb = neighbors(bs, bs[i].position, r);
    let pred_circ = crate::quadtree::sel_circle::<Boid>(bs[i].position, r);
    let po = others_pred(bs[i].id);
    crate::seqs::lemma_filter_elems_from(bs, pred_circ);
    assert forall|k: int| 0 <= k < nb.len() implies !po(#[trigger] nb[k]) by {
        assert(bs.contains(nb[k]) && pred_circ(nb[k]));
        let j = choose|j: int| 0 <= j < bs.len() && bs[j] == nb[k];
        assert(crate::geom::in_circle(bs[j].position, bs[i].position, r));
    }
    crate::seqs::lemma_filter_all_false(nb, po);
}

/// An agent with no other agent within any of the three rule radii
/// receives zero steering that tick: each rule contributes the zero
/// vector, and the weighted sum of the three vanishes, so only the
/// agent's own momentum carries it.
pub proof fn lemma_zero_neighbors_zero_steering(bs: Seq<Boid>, i: int, cfg: FlockConfig)
    requires
        0 <= i < bs.len(),
        forall|j: int|
            0 <= j < bs.len() && (#[trigger] bs[j]).id != bs[i].id ==> {
                &&& !crate::geom::in_circle(bs[j].position, bs[i].position, cfg.sep_radius as int)
                &&& !crate::geom::in_circle(bs[j].position, bs[i].position, cfg.ali_radius as int)
                &&& !crate::geom::in_circle(bs[j].position, bs[i].position, cfg.coh_radius as int)
            },
    ensures
        steering_spec(bs, i, cfg) == (0int, 0int),
{
    let me = bs[i];
    lemma_no_other_neighbors(bs, i, cfg.sep_radius as int);
    lemma_no_other_neighbors(bs, i, cfg.ali_radius as int);
    lemma_no_other_neighbors(bs, i, cfg.coh_radius as int);
    assert(tdiv(0int, STRENGTH_UNIT as int) == 0) by {
        vstd::arithmetic::div_mod::lemma_div_pos_is_pos(0, STRENGTH_UNIT as int);
        vstd::arithmetic::div_mod::lemma_div_nonincreasing(0, STRENGTH_UNIT as int);
    }
    assert(0int * cfg.sep_strength as int == 0) by (nonlinear_arith);
    assert(0int * cfg.ali_strength as int == 0) by (nonlinear_arith);
    assert(0int * cfg.coh_strength as int == 0) by (nonlinear_arith);
    assert(weight((0int, 0int), cfg.sep_strength as int) == (0int, 0int));
    assert(weight((0int, 0int), cfg.ali_strength as int) == (0int, 0int));
    assert(weight((0int, 0int), cfg.coh_strength as int) == (0int, 0int));
}

/// The zero-neighbor tick moves an agent by its momentum alone: with no
/// other agent within any rule radius, an empty accumulator, a velocity
/// within the speed cap and a position clear of the borders, one tick
/// leaves the velocity unchanged and advances the position by exactly it.
pub proof fn lemma_zero_neighbors_tick_is_momentum(
    bs: Seq<Boid>,
    i: int,
    bl: Vec2,
    tr: Vec2,
    cfg: FlockConfig,
)
    requires
        0 <= i < bs.len(),
        boid_ok(bs[i]),
        forall|j: int|
            0 <= j < bs.len() && (#[trigger] bs[j]).id != bs[i].id ==> {
                &&& !crate::geom::in_circle(bs[j].position, bs[i].position, cfg.sep_radius as int)
                &&& !crate::geom::in_circle(bs[j].position, bs[i].position, cfg.ali_radius as int)
                &&& !crate::geom::in_circle(bs[j].position, bs[i].position, cfg.coh_radius as int)
            },
        bs[i].acceleration.x == 0 && bs[i].acceleration.y == 0,
        bs[i].velocity.x * bs[i].velocity.x + bs[i].velocity.y * bs[i].velocity.y
            <= cfg.max_speed * cfg.max_speed,
        bl.x - bs[i].r <= bs[i].position.x <= tr.x + bs[i].r,
        bl.y - bs[i].r <= bs[i].position.y <= tr.y + bs[i].r,
    ensures
        boid_tick(bs, i, bl, tr, cfg).velocity == bs[i].velocity,
        boid_tick(bs, i, bl, tr, cfg).position.x == bs[i].position.x + bs[i].velocity.x,
        boid_tick(bs, i, bl, tr, cfg).position.y == bs[i].position.y + bs[i].velocity.y,
        boid_tick(bs, i, bl, tr, cfg).acceleration.x == 0,
        boid_tick(bs, i, bl, tr, cfg).acceleration.y == 0,
{
    lemma_zero_neighbors_zero_steering(bs, i, cfg);
    let me = bs[i];
    assert(wrap_spec(me.position, me.r as int, bl, tr) == (
        me.position.x as int,
        me.position.y as int,
    ));
    assert(limit_to(
        me.velocity.x + 0,
        me.velocity.y + 0,
        cfg.max_speed as int,
    ) == (me.velocity.x as int, me.velocity.y as int));
}

/// A rule vector bounded by the force cap stays within one weighted
/// contribution's budget after scaling by a strength.
proof fn lemma_weight_in_range(v: int, s: int)
    requires
        -CFG_LIMIT <= v <= CFG_LIMIT,
        0 <= s <= STRENGTH_LIMIT,
    ensures
        -(STRENGTH_UNIT as int * STEER_LIMIT as int) <= v * s <= STRENGTH_UNIT as int
            * STEER_LIMIT as int,
        -STEER_LIMIT <= tdiv(v * s, STRENGTH_UNIT as int) <= STEER_LIMIT,
{
    assert(-(STRENGTH_UNIT as int * STEER_LIMIT as int) <= v * s <= STRENGTH_UNIT as int
        * STEER_LIMIT as int) by (nonlinear_arith)
        requires
            -CFG_LIMIT <= v <= CFG_LIMIT,
            0 <= s <= STRENGTH_LIMIT,
    ;
    crate::num::lemma_tdiv_ratio_bound(v * s, STRENGTH_UNIT as int, STEER_LIMIT as int);
}

} // verus!
