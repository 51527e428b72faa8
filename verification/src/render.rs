//! Render sync: for each live handle, the placement instruction for the
//! external display surface. Simulation "up" and display "down" differ,
//! so the vertical axis is flipped about a fixed display height, and the
//! ball's top-left corner is one radius off its center on both axes.

use vstd::prelude::*;
use crate::world::{Body, World, BALL_RADIUS, step_seq, in_play};

verus! {

/// Height of the display surface, in milli-units (600 units).
pub const SCREEN_TOP: i64 = 600_000;

/// One per-tick placement instruction: where the display element of one
/// handle goes, in milli-units of display coordinates.
#[derive(Clone, Copy, PartialEq, Eq, Structural, Debug)]
pub struct Placement {
    pub handle: usize,
    pub x: i64,
    pub y: i64,
}

/// The placement a body produces: its top-left display corner, with the
/// vertical axis flipped.
pub open spec fn placement_of(h: usize, b: Body) -> Placement {
    Placement {
        handle: h,
        x: (b.x - BALL_RADIUS) as i64,
        y: (SCREEN_TOP - b.y - BALL_RADIUS) as i64,
    }
}

/// One placement per live handle, in handle order, each computed from
/// the body's current position.
pub fn placements(w: &World) -> (r: Vec<Placement>)
    requires
        w.wf(),
    ensures
        r@.len() == w@.len(),
        forall|i: int| 0 <= i < r@.len() ==> r@[i] == placement_of(i as usize, w@[i]),
{
    let n = w.count();
    let mut out: Vec<Placement> = Vec::new();
    let mut h: usize = 0;
    while h < n
        invariant
            w.wf(),
            n == w@.len(),
            h <= n,
            out@.len() == h,
            forall|i: int| 0 <= i < h ==> out@[i] == placement_of(i as usize, w@[i]),
        decreases n - h,
    {
        let b = match w.body_of(h) {
            Ok(b) => b,
            Err(_) => {
                proof {
                    assert(false);
                }
                Body { x: 0, y: 0, vx: 0, vy: 0 }
            },
        };
        out.push(Placement { x: b.x - BALL_RADIUS, y: SCREEN_TOP - b.y - BALL_RADIUS, handle: h });
        h += 1;
    }
    out
}

/// One scheduler tick: exactly one timestep, then one render pass over
/// the stepped state, in that order.
pub fn tick(w: &mut World, inv_dt: u32) -> (r: Vec<Placement>)
    requires
        old(w).wf(),
        1 <= inv_dt,
    ensures
        final(w)@ == step_seq(old(w)@, inv_dt as int),
        final(w).wf(),
        forall|i: int| 0 <= i < final(w)@.len() ==> in_play(#[trigger] final(w)@[i]),
        r@.len() == final(w)@.len(),
        forall|i: int| 0 <= i < r@.len() ==> r@[i] == placement_of(i as usize, final(w)@[i]),
{
    w.step(inv_dt);
    placements(w)
}

} // verus!
