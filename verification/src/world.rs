//! The physics world: a growable, handle-indexed set of dynamic balls
//! bounded by three static half-planes (floor, left wall, right wall),
//! advanced by a fixed timestep under constant gravity.

use vstd::prelude::*;
use crate::SimError;

verus! {

/// Milli-units per world unit: all positions and velocities are stored
/// as integers scaled by this factor.
pub const UNIT: i64 = 1000;

/// Magnitude of the downward gravitational acceleration, in
/// milli-units per second per second (98.1 units/s^2).
pub const GRAVITY_MAG: i64 = 98_100;

/// Radius of every dynamic ball, in milli-units (20 units).
pub const BALL_RADIUS: i64 = 20_000;

/// Offset of the right wall from the left wall, in milli-units (600 units).
pub const WORLD_RIGHT: i64 = 600_000;

/// Restitution applied at a contact: the rebound keeps 3/10 of the
/// incoming normal speed.
pub const REST_NUM: i64 = 3;

/// Denominator of the restitution ratio.
pub const REST_DEN: i64 = 10;

/// Tangential speed is halved at a boundary contact (friction).
pub const FRICTION_DEN: i64 = 2;

/// Largest speed component a body may carry, in milli-units per second.
/// Keeps every per-step displacement, and so all arithmetic, in range.
pub const MAX_SPEED: i64 = 2_000_000;

/// Largest coordinate magnitude a body may be spawned at or drift to,
/// in milli-units. A numeric cap, far outside the play area.
pub const POS_LIMIT: i64 = 100_000_000;

/// One dynamic body: a ball of fixed radius with a 2D position and
/// velocity in milli-units.
#[derive(Clone, Copy, PartialEq, Eq, Structural, Debug)]
pub struct Body {
    pub x: i64,
    pub y: i64,
    pub vx: i64,
    pub vy: i64,
}

/// The body keeps coordinates and speeds inside the numeric caps.
pub open spec fn body_ok(b: Body) -> bool {
    &&& -POS_LIMIT <= b.x <= POS_LIMIT
    &&& -POS_LIMIT <= b.y <= POS_LIMIT
    &&& -MAX_SPEED <= b.vx <= MAX_SPEED
    &&& -MAX_SPEED <= b.vy <= MAX_SPEED
}

/// The body rests inside the walled region: on or above the floor and
/// between the two walls, measured at the ball's center.
pub open spec fn in_play(b: Body) -> bool {
    &&& BALL_RADIUS <= b.x <= WORLD_RIGHT - BALL_RADIUS
    &&& BALL_RADIUS <= b.y <= POS_LIMIT
}

/// Integer division that rounds toward zero, matching the `/` of the
/// executable code on signed operands.
pub open spec fn div_tz(a: int, b: int) -> int
    recommends
        b >= 1,
{
    if a >= 0 {
        a / b
    } else {
        -((-a) / b)
    }
}

/// Clamp `v` into `[lo, hi]`.
pub open spec fn clamp(v: int, lo: int, hi: int) -> int {
    if v < lo {
        lo
    } else if v > hi {
        hi
    } else {
        v
    }
}

/// The body a fresh spawn produces: at rest at the given position.
pub open spec fn spawned(x: i64, y: i64) -> Body {
    Body { x, y, vx: 0, vy: 0 }
}

/// Coordinates may leave `POS_LIMIT` by at most one step's travel before
/// the boundary pass pulls them back.
pub const POS_SLACK: i64 = 102_000_000;

/// The integrated body keeps coordinates within the slack band and
/// speeds within the cap.
pub open spec fn body_mid(b: Body) -> bool {
    &&& -POS_SLACK <= b.x <= POS_SLACK
    &&& -POS_SLACK <= b.y <= POS_SLACK
    &&& -MAX_SPEED <= b.vx <= MAX_SPEED
    &&& -MAX_SPEED <= b.vy <= MAX_SPEED
}

/// One body after one timestep of free motion: gravity accelerates it
/// downward, the speed cap is applied, and the position advances by the
/// per-step displacement `v / inv_dt`.
pub open spec fn integrate_body(b: Body, inv_dt: int) -> Body
    recommends
        inv_dt >= 1,
{
    let vy = clamp(b.vy - GRAVITY_MAG as int / inv_dt, -MAX_SPEED as int, MAX_SPEED as int);
    Body {
        x: (b.x + div_tz(b.vx as int, inv_dt)) as i64,
        y: (b.y + div_tz(vy, inv_dt)) as i64,
        vx: b.vx,
        vy: vy as i64,
    }
}

/// The two balls' centers are closer than one diameter.
pub open spec fn overlapping(a: Body, b: Body) -> bool {
    (b.x - a.x) * (b.x - a.x) + (b.y - a.y) * (b.y - a.y)
        < (2 * BALL_RADIUS) * (2 * BALL_RADIUS)
}

/// The relative velocity points the centers toward each other.
pub open spec fn approaching(a: Body, b: Body) -> bool {
    (b.vx - a.vx) * (b.x - a.x) + (b.vy - a.vy) * (b.y - a.y) < 0
}

/// A speed component after restitution: `3/10` of it, rounded toward zero.
pub open spec fn damped(v: int) -> int {
    div_tz(v * REST_NUM, REST_DEN as int)
}

/// Contact response for one pair of equal-mass balls: when they overlap
/// and approach, they trade velocities, damped by the restitution ratio;
/// otherwise both are left alone. Positions never change here.
pub open spec fn bounce(a: Body, b: Body) -> (Body, Body) {
    if overlapping(a, b) && approaching(a, b) {
        (
            Body { x: a.x, y: a.y, vx: damped(b.vx as int) as i64, vy: damped(b.vy as int) as i64 },
            Body { x: b.x, y: b.y, vx: damped(a.vx as int) as i64, vy: damped(a.vy as int) as i64 },
        )
    } else {
        (a, b)
    }
}

/// Resolve the pair `(i, j)`, then the pairs `(i, j+1) .. (i, n-1)`.
pub open spec fn collide_row(s: Seq<Body>, i: int, j: int, n: int) -> Seq<Body>
    recommends
        0 <= i < j,
        n == s.len(),
    decreases n - j,
{
    if j >= n {
        s
    } else {
        let (a, b) = bounce(s[i], s[j]);
        collide_row(s.update(i, a).update(j, b), i, j + 1, n)
    }
}

/// Resolve every pair `(i', j')` with `i <= i' < j' < n`, in index order.
pub open spec fn collide_from(s: Seq<Body>, i: int, n: int) -> Seq<Body>
    recommends
        0 <= i,
        n == s.len(),
    decreases n - i,
{
    if i >= n {
        s
    } else {
        collide_from(collide_row(s, i, i + 1, n), i + 1, n)
    }
}

/// Resolve every unordered pair of bodies once.
pub open spec fn collide_all(s: Seq<Body>) -> Seq<Body> {
    collide_from(s, 0, s.len() as int)
}

/// A low-side contact reflects an inward-bound speed with restitution.
pub open spec fn reflect_lo(v: int) -> int {
    if v < 0 {
        -damped(v)
    } else {
        v
    }
}

/// A high-side contact reflects an outward-bound speed with restitution.
pub open spec fn reflect_hi(v: int) -> int {
    if v > 0 {
        -damped(v)
    } else {
        v
    }
}

/// Contact with the floor half-plane: the center is held at one radius
/// above the floor, the normal speed rebounds, the tangential speed is
/// halved by friction.
pub open spec fn floor_clamp(b: Body) -> Body {
    if b.y < BALL_RADIUS {
        Body {
            x: b.x,
            y: BALL_RADIUS,
            vx: div_tz(b.vx as int, FRICTION_DEN as int) as i64,
            vy: reflect_lo(b.vy as int) as i64,
        }
    } else {
        b
    }
}

/// Contact with the left wall half-plane.
pub open spec fn left_clamp(b: Body) -> Body {
    if b.x < BALL_RADIUS {
        Body {
            x: BALL_RADIUS,
            y: b.y,
            vx: reflect_lo(b.vx as int) as i64,
            vy: div_tz(b.vy as int, FRICTION_DEN as int) as i64,
        }
    } else {
        b
    }
}

/// Contact with the right wall half-plane.
pub open spec fn right_clamp(b: Body) -> Body {
    if b.x > WORLD_RIGHT - BALL_RADIUS {
        Body {
            x: (WORLD_RIGHT - BALL_RADIUS) as i64,
            y: b.y,
            vx: reflect_hi(b.vx as int) as i64,
            vy: div_tz(b.vy as int, FRICTION_DEN as int) as i64,
        }
    } else {
        b
    }
}

/// The numeric ceiling: a body that drifted above the cap is held at it.
pub open spec fn cap_clamp(b: Body) -> Body {
    if b.y > POS_LIMIT {
        Body { x: b.x, y: POS_LIMIT, vx: b.vx, vy: b.vy }
    } else {
        b
    }
}

/// One body after the boundary pass: floor, left wall, right wall, cap.
pub open spec fn wall_clamp(b: Body) -> Body {
    cap_clamp(right_clamp(left_clamp(floor_clamp(b))))
}

/// Every body after one timestep of free motion.
pub open spec fn integrate_all(s: Seq<Body>, inv_dt: int) -> Seq<Body> {
    s.map_values(|b: Body| integrate_body(b, inv_dt))
}

/// Every body after the boundary pass.
pub open spec fn settle_all(s: Seq<Body>) -> Seq<Body> {
    s.map_values(|b: Body| wall_clamp(b))
}

/// One full timestep of the world's body set: free motion under gravity,
/// then pairwise contact among the balls, then contact with the three
/// static boundaries.
pub open spec fn step_seq(s: Seq<Body>, inv_dt: int) -> Seq<Body> {
    settle_all(collide_all(integrate_all(s, inv_dt)))
}

/// The body set after `k` timesteps.
pub open spec fn run_steps(s: Seq<Body>, inv_dt: int, k: nat) -> Seq<Body>
    decreases k,
{
    if k == 0 {
        s
    } else {
        step_seq(run_steps(s, inv_dt, (k - 1) as nat), inv_dt)
    }
}

/// The world: gravity and the three boundaries are fixed constants;
/// only the set of dynamic bodies grows.
pub struct World {
    bodies: Vec<Body>,
}

impl View for World {
    type V = Seq<Body>;

    closed spec fn view(&self) -> Seq<Body> {
        self.bodies@
    }
}

impl World {
    /// Every body of the world is inside the numeric caps.
    pub open spec fn wf(&self) -> bool {
        forall|i: int| 0 <= i < self@.len() ==> body_ok(#[trigger] self@[i])
    }

    /// A fresh world: boundaries in place, no dynamic bodies yet.
    pub fn new() -> (w: World)
        ensures
            w@ =~= Seq::<Body>::empty(),
            w.wf(),
    {
        World { bodies: Vec::new() }
    }

    /// Number of live bodies; handles are exactly `0 .. count()`.
    pub fn count(&self) -> (n: usize)
        ensures
            n == self@.len(),
    {
        self.bodies.len()
    }

    /// Spawn a ball at rest at `(x, y)` and return its fresh handle.
    /// The handle equals the body count before the call, so no two
    /// spawns ever return the same handle.
    pub fn add_ball(&mut self, x: i64, y: i64) -> (h: usize)
        requires
            old(self).wf(),
            -POS_LIMIT <= x <= POS_LIMIT,
            -POS_LIMIT <= y <= POS_LIMIT,
        ensures
            h == old(self)@.len(),
            final(self)@ =~= old(self)@.push(spawned(x, y)),
            final(self).wf(),
    {
        let h = self.bodies.len();
        self.bodies.push(Body { x, y, vx: 0, vy: 0 });
        h
    }

    /// Position of the body behind `h`, or `InvalidHandle` exactly when
    /// `h` is not a live handle.
    pub fn position_of(&self, h: usize) -> (r: Result<(i64, i64), SimError>)
        ensures
            match r {
                Ok(p) => h < self@.len() && p.0 == self@[h as int].x && p.1 == self@[h as int].y,
                Err(e) => h >= self@.len() && e == SimError::InvalidHandle,
            },
    {
        if h < self.bodies.len() {
            let b = &self.bodies[h];
            Ok((b.x, b.y))
        } else {
            Err(SimError::InvalidHandle)
        }
    }

    /// The full state of the body behind `h`, or `InvalidHandle` exactly
    /// when `h` is not a live handle.
    pub fn body_of(&self, h: usize) -> (r: Result<Body, SimError>)
        ensures
            match r {
                Ok(b) => h < self@.len() && b == self@[h as int],
                Err(e) => h >= self@.len() && e == SimError::InvalidHandle,
            },
    {
        if h < self.bodies.len() {
            Ok(self.bodies[h])
        } else {
            Err(SimError::InvalidHandle)
        }
    }
    /// Advance every body by one fixed timestep of `1 / inv_dt` seconds:
    /// free motion under gravity, pairwise ball contact, then contact
    /// with the floor and the two walls. After the step every body sits
    /// inside the walled region.
    pub fn step(&mut self, inv_dt: u32)
        requires
            old(self).wf(),
            1 <= inv_dt,
        ensures
            final(self)@ == step_seq(old(self)@, inv_dt as int),
            final(self)@.len() == old(self)@.len(),
            final(self).wf(),
            forall|i: int|
                0 <= i < final(self)@.len() ==> in_play(#[trigger] final(self)@[i]),
    {
        let ghost s0 = self@;
        let n = self.bodies.len();

        // Free motion: gravity, speed cap, displacement.
        let g = ((GRAVITY_MAG as u64) / (inv_dt as u64)) as i64;
        let mut i: usize = 0;
        while i < n
            invariant
                1 <= inv_dt,
                n == s0.len(),
                g == GRAVITY_MAG as int / inv_dt as int,
                0 <= g <= GRAVITY_MAG,
                i <= n,
                self.bodies@.len() == n,
                forall|k: int| 0 <= k < n ==> body_ok(#[trigger] s0[k]),
                forall|k: int|
                    0 <= k < i ==> #[trigger] self.bodies@[k] == integrate_body(s0[k], inv_dt as int),
                forall|k: int| i <= k < n ==> #[trigger] self.bodies@[k] == s0[k],
            decreases n - i,
        {
            let b = self.bodies[i];
            let mut vy = b.vy - g;
            if vy < -MAX_SPEED {
                vy = -MAX_SPEED;
            }
            if vy > MAX_SPEED {
                vy = MAX_SPEED;
            }
            proof {
                lemma_div_tz_in(b.vx as int, inv_dt as int);
                lemma_div_tz_in(vy as int, inv_dt as int);
            }
            let nx = b.x + div_trunc(b.vx, inv_dt);
            let ny = b.y + div_trunc(vy, inv_dt);
            self.bodies.set(i, Body { x: nx, y: ny, vx: b.vx, vy });
            i += 1;
        }
        let ghost s1 = integrate_all(s0, inv_dt as int);
        proof {
            assert(self.bodies@ =~= s1);
            assert forall|k: int| 0 <= k < n implies body_mid(#[trigger] s1[k]) by {
                lemma_div_tz_in(s0[k].vx as int, inv_dt as int);
                lemma_div_tz_in(
                    clamp(
                        s0[k].vy - GRAVITY_MAG as int / inv_dt as int,
                        -MAX_SPEED as int,
                        MAX_SPEED as int,
                    ),
                    inv_dt as int,
                );
            }
        }

        // Pairwise contact among the balls.
        let mut i: usize = 0;
        while i < n
            invariant
                n == s1.len(),
                i <= n,
                self.bodies@.len() == n,
                collide_from(self.bodies@, i as int, n as int) == collide_from(s1, 0, n as int),
                forall|k: int| 0 <= k < n ==> body_mid(#[trigger] self.bodies@[k]),
                forall|k: int|
                    0 <= k < n ==> (#[trigger] self.bodies@[k]).x == s1[k].x
                        && self.bodies@[k].y == s1[k].y,
            decreases n - i,
        {
            let mut j = i + 1;
            while j < n
                invariant
                    n == s1.len(),
                    i < n,
                    i + 1 <= j <= n,
                    self.bodies@.len() == n,
                    collide_from(
                        collide_row(self.bodies@, i as int, j as int, n as int),
                        i as int + 1,
                        n as int,
                    ) == collide_from(s1, 0, n as int),
                    forall|k: int| 0 <= k < n ==> body_mid(#[trigger] self.bodies@[k]),
                    forall|k: int|
                        0 <= k < n ==> (#[trigger] self.bodies@[k]).x == s1[k].x
                            && self.bodies@[k].y == s1[k].y,
                decreases n - j,
            {
                let ghost pre = self.bodies@;
                let a = self.bodies[i];
                let b = self.bodies[j];
                let dx = b.x - a.x;
                let dy = b.y - a.y;
                proof {
                    lemma_mul_bound(dx as int, dx as int, 204_000_000, 204_000_000);
                    lemma_mul_bound(dy as int, dy as int, 204_000_000, 204_000_000);
                    lemma_mul_bound((b.vx - a.vx) as int, dx as int, 4_000_000, 204_000_000);
                    lemma_mul_bound((b.vy - a.vy) as int, dy as int, 4_000_000, 204_000_000);
                }
                let d2 = dx * dx + dy * dy;
                let dot = (b.vx - a.vx) * dx + (b.vy - a.vy) * dy;
                let (na, nb) = if d2 < (2 * BALL_RADIUS) * (2 * BALL_RADIUS) && dot < 0 {
                    proof {
                        lemma_damped_in(a.vx as int);
                        lemma_damped_in(a.vy as int);
                        lemma_damped_in(b.vx as int);
                        lemma_damped_in(b.vy as int);
                    }
                    (
                        Body { x: a.x, y: a.y, vx: damp(b.vx), vy: damp(b.vy) },
                        Body { x: b.x, y: b.y, vx: damp(a.vx), vy: damp(a.vy) },
                    )
                } else {
                    (a, b)
                };
                self.bodies.set(i, na);
                self.bodies.set(j, nb);
                proof {
                    assert((na, nb) == bounce(a, b));
                    assert(self.bodies@ =~= pre.update(i as int, na).update(j as int, nb));
                    assert(collide_row(pre, i as int, j as int, n as int) == collide_row(
                        self.bodies@,
                        i as int,
                        j as int + 1,
                        n as int,
                    ));
                }
                j += 1;
            }
            i += 1;
        }
        let ghost s2 = collide_all(s1);
        proof {
            assert(s2 == collide_from(self.bodies@, n as int, n as int));
            assert(self.bodies@ == s2);
        }

        // Boundary contact: floor, left wall, right wall, numeric cap.
        let mut i: usize = 0;
        while i < n
            invariant
                n == s2.len(),
                i <= n,
                self.bodies@.len() == n,
                forall|k: int| 0 <= k < n ==> body_mid(#[trigger] s2[k]),
                forall|k: int|
                    0 <= k < i ==> #[trigger] self.bodies@[k] == wall_clamp(s2[k]),
                forall|k: int| i <= k < n ==> #[trigger] self.bodies@[k] == s2[k],
            decreases n - i,
        {
            let mut b = self.bodies[i];
            if b.y < BALL_RADIUS {
                proof {
                    lemma_damped_in(b.vy as int);
                    lemma_div_tz_in(b.vx as int, FRICTION_DEN as int);
                }
                let rvy = if b.vy < 0 {
                    -damp(b.vy)
                } else {
                    b.vy
                };
                b = Body { x: b.x, y: BALL_RADIUS, vx: div_trunc(b.vx, 2), vy: rvy };
            }
            if b.x < BALL_RADIUS {
                proof {
                    lemma_damped_in(b.vx as int);
                    lemma_div_tz_in(b.vy as int, FRICTION_DEN as int);
                }
                let rvx = if b.vx < 0 {
                    -damp(b.vx)
                } else {
                    b.vx
                };
                b = Body { x: BALL_RADIUS, y: b.y, vx: rvx, vy: div_trunc(b.vy, 2) };
            }
            if b.x > WORLD_RIGHT - BALL_RADIUS {
                proof {
                    lemma_damped_in(b.vx as int);
                    lemma_div_tz_in(b.vy as int, FRICTION_DEN as int);
                }
                let rvx = if b.vx > 0 {
                    -damp(b.vx)
                } else {
                    b.vx
                };
                b = Body { x: WORLD_RIGHT - BALL_RADIUS, y: b.y, vx: rvx, vy: div_trunc(b.vy, 2) };
            }
            if b.y > POS_LIMIT {
                b = Body { x: b.x, y: POS_LIMIT, vx: b.vx, vy: b.vy };
            }
            proof {
                assert(b == wall_clamp(s2[i as int]));
            }
            self.bodies.set(i, b);
            i += 1;
        }
        proof {
            assert(self.bodies@ =~= settle_all(s2));
            assert forall|k: int| 0 <= k < n implies in_play(#[trigger] self.bodies@[k])
                && body_ok(self.bodies@[k]) by {
                lemma_wall_clamp_in_play(s2[k]);
            }
        }
    }
}

/// Truncating division of a signed value by a positive divisor, the
/// semantics the integrator and the contact response use throughout.
fn div_trunc(a: i64, b: u32) -> (r: i64)
    requires
        1 <= b,
        i64::MIN < a,
    ensures
        r == div_tz(a as int, b as int),
{
    if a >= 0 {
        proof {
            vstd::arithmetic::div_mod::lemma_div_pos_is_pos(a as int, b as int);
            vstd::arithmetic::div_mod::lemma_div_nonincreasing(a as int, b as int);
        }
        (((a as u64) / (b as u64)) as i64)
    } else {
        let m = (-a) as u64;
        proof {
            vstd::arithmetic::div_mod::lemma_div_pos_is_pos(m as int, b as int);
            vstd::arithmetic::div_mod::lemma_div_nonincreasing(m as int, b as int);
        }
        -((m / (b as u64)) as i64)
    }
}

/// A speed component damped by the restitution ratio.
fn damp(v: i64) -> (r: i64)
    requires
        -MAX_SPEED <= v <= MAX_SPEED,
    ensures
        r == damped(v as int),
{
    div_trunc(v * REST_NUM, 10)
}

/// A product of bounded factors is bounded by the product of the bounds.
pub proof fn lemma_mul_bound(a: int, b: int, ma: int, mb: int)
    by (nonlinear_arith)
    requires
        -ma <= a <= ma,
        -mb <= b <= mb,
        0 <= ma,
        0 <= mb,
    ensures
        -(ma * mb) <= a * b <= ma * mb,
{
}

/// A square of a bounded value is nonnegative and bounded by the
/// squared bound.
pub proof fn lemma_sq_bound(a: int, m: int)
    by (nonlinear_arith)
    requires
        -m <= a <= m,
        0 <= m,
    ensures
        0 <= a * a <= m * m,
{
}

/// Division toward zero never enlarges a value's magnitude.
pub proof fn lemma_div_tz_in(a: int, b: int)
    requires
        b >= 1,
    ensures
        a >= 0 ==> 0 <= div_tz(a, b) <= a,
        a < 0 ==> a <= div_tz(a, b) <= 0,
{
    if a >= 0 {
        vstd::arithmetic::div_mod::lemma_div_pos_is_pos(a, b);
        vstd::arithmetic::div_mod::lemma_div_nonincreasing(a, b);
    } else {
        vstd::arithmetic::div_mod::lemma_div_pos_is_pos(-a, b);
        vstd::arithmetic::div_mod::lemma_div_nonincreasing(-a, b);
    }
}

/// The damped speed keeps the sign and never exceeds the original
/// magnitude.
pub proof fn lemma_damped_in(v: int)
    ensures
        v >= 0 ==> 0 <= damped(v) <= v,
        v < 0 ==> v <= damped(v) <= 0,
{
    if v >= 0 {
        vstd::arithmetic::div_mod::lemma_div_pos_is_pos(v * REST_NUM, REST_DEN as int);
        vstd::arithmetic::div_mod::lemma_div_is_ordered(
            v * REST_NUM,
            REST_DEN as int * v,
            REST_DEN as int,
        );
        vstd::arithmetic::div_mod::lemma_div_multiples_vanish(v, REST_DEN as int);
    } else {
        vstd::arithmetic::div_mod::lemma_div_pos_is_pos((-v) * REST_NUM, REST_DEN as int);
        vstd::arithmetic::div_mod::lemma_div_is_ordered(
            (-v) * REST_NUM,
            REST_DEN as int * (-v),
            REST_DEN as int,
        );
        vstd::arithmetic::div_mod::lemma_div_multiples_vanish(-v, REST_DEN as int);
    }
}

/// The boundary pass leaves any body inside the walled region, and a
/// body of capped speeds and slack-band coordinates inside the numeric
/// caps.
pub proof fn lemma_wall_clamp_in_play(b: Body)
    ensures
        in_play(wall_clamp(b)),
        body_mid(b) ==> body_ok(wall_clamp(b)),
{
    lemma_damped_in(b.vy as int);
    lemma_damped_in(b.vx as int);
    lemma_div_tz_in(b.vx as int, FRICTION_DEN as int);
    lemma_div_tz_in(b.vy as int, FRICTION_DEN as int);
    let f = floor_clamp(b);
    lemma_damped_in(f.vx as int);
    lemma_div_tz_in(f.vy as int, FRICTION_DEN as int);
    let l = left_clamp(f);
    lemma_damped_in(l.vx as int);
    lemma_div_tz_in(l.vy as int, FRICTION_DEN as int);
}

/// A row of pair resolutions keeps the body count and every position.
proof fn lemma_collide_row_shape(s: Seq<Body>, i: int, j: int, n: int)
    requires
        n == s.len(),
        0 <= i < n,
        i < j,
    ensures
        collide_row(s, i, j, n).len() == n,
        forall|k: int|
            0 <= k < n ==> (#[trigger] collide_row(s, i, j, n)[k]).x == s[k].x
                && collide_row(s, i, j, n)[k].y == s[k].y,
    decreases n - j,
{
    if j < n {
        let (a, b) = bounce(s[i], s[j]);
        lemma_collide_row_shape(s.update(i, a).update(j, b), i, j + 1, n);
    }
}

/// The full pairwise pass keeps the body count and every position.
proof fn lemma_collide_from_shape(s: Seq<Body>, i: int, n: int)
    requires
        n == s.len(),
        0 <= i,
    ensures
        collide_from(s, i, n).len() == n,
        forall|k: int|
            0 <= k < n ==> (#[trigger] collide_from(s, i, n)[k]).x == s[k].x
                && collide_from(s, i, n)[k].y == s[k].y,
    decreases n - i,
{
    if i < n {
        lemma_collide_row_shape(s, i, i + 1, n);
        lemma_collide_from_shape(collide_row(s, i, i + 1, n), i + 1, n);
    }
}

/// A timestep never creates or destroys a body.
pub proof fn lemma_step_seq_len(s: Seq<Body>, inv_dt: int)
    ensures
        step_seq(s, inv_dt).len() == s.len(),
{
    lemma_collide_from_shape(integrate_all(s, inv_dt), 0, s.len() as int);
}

/// Determinism: two runs from equal body sets, stepped the same number
/// of times at the same timestep, end in equal body sets.
pub proof fn lemma_run_deterministic(s1: Seq<Body>, s2: Seq<Body>, inv_dt: int, k: nat)
    requires
        s1 == s2,
    ensures
        run_steps(s1, inv_dt, k) == run_steps(s2, inv_dt, k),
{
}

/// Boundary conservation: after any positive number of timesteps, every
/// body sits inside the walled region — its center on or above the
/// floor and between the two walls.
pub proof fn lemma_run_in_play(s: Seq<Body>, inv_dt: int, k: nat)
    requires
        k >= 1,
    ensures
        forall|i: int|
            0 <= i < run_steps(s, inv_dt, k).len() ==> in_play(
                #[trigger] run_steps(s, inv_dt, k)[i],
            ),
{
    let prev = run_steps(s, inv_dt, (k - 1) as nat);
    let mid = collide_all(integrate_all(prev, inv_dt));
    assert(run_steps(s, inv_dt, k) == settle_all(mid));
    assert forall|i: int|
        0 <= i < run_steps(s, inv_dt, k).len() implies in_play(
        #[trigger] run_steps(s, inv_dt, k)[i],
    ) by {
        assert(run_steps(s, inv_dt, k)[i] == wall_clamp(mid[i]));
        lemma_wall_clamp_in_play(mid[i]);
    }
}

/// Handle stability: a handle live before a timestep or a later spawn
/// is live after it, and the fresh handle a spawn returns differs from
/// every handle live before it.
pub proof fn lemma_handle_stable(s: Seq<Body>, inv_dt: int, b: Body, h: int)
    requires
        0 <= h < s.len(),
    ensures
        h < step_seq(s, inv_dt).len(),
        h < s.push(b).len(),
        h != s.len(),
{
    lemma_step_seq_len(s, inv_dt);
}

} // verus!
