//! The voxelizer: rasterizes the body set into a dense 3D intensity
//! volume. Each ball stamps a sphere-shaped contribution — full
//! intensity at the center, falling off with the squared distance —
//! and overlapping stamps combine by taking the maximum, never the sum.

use vstd::prelude::*;
use crate::world::{
    Body, World, body_ok, lemma_mul_bound, lemma_sq_bound, BALL_RADIUS, UNIT,
};

verus! {

/// Largest extent of the volume along any one dimension.
pub const MAX_DIM: usize = 1024;

/// Intensity stamped at a ball's center.
pub const PEAK: u16 = 255;

/// Squared ball radius in squared milli-units.
pub const RADIUS_SQ: i64 = BALL_RADIUS * BALL_RADIUS;

/// A dense 3D grid of intensity cells, laid out row-major in dimension
/// order width, height, depth (the depth index varies fastest).
pub struct Volume {
    width: usize,
    height: usize,
    depth: usize,
    cells: Vec<u16>,
}

/// The greater of two intensities.
pub open spec fn max16(a: u16, b: u16) -> u16 {
    if b > a {
        b
    } else {
        a
    }
}

/// The intensity one body stamps at the voxel `(x, y, z)`: the peak at
/// the ball's center, shrinking linearly in the squared distance, zero
/// from one radius out. Bodies live in the `z = 0` plane and voxel
/// centers sit at whole world units.
pub open spec fn stamp(b: Body, x: int, y: int, z: int) -> u16 {
    let dx = b.x - x * UNIT;
    let dy = b.y - y * UNIT;
    let dz = 0 - z * UNIT;
    let d2 = dx * dx + dy * dy + dz * dz;
    if d2 <= RADIUS_SQ {
        (PEAK - (PEAK * d2) / (RADIUS_SQ + 1)) as u16
    } else {
        0u16
    }
}

/// The blended intensity of the first `k` bodies at one voxel: the
/// maximum of their stamps.
pub open spec fn vox_upto(s: Seq<Body>, k: int, x: int, y: int, z: int) -> u16
    recommends
        0 <= k <= s.len(),
    decreases k,
{
    if k <= 0 {
        0u16
    } else {
        max16(vox_upto(s, k - 1, x, y, z), stamp(s[k - 1], x, y, z))
    }
}

/// The blended intensity of the whole body set at one voxel.
pub open spec fn vox_value(s: Seq<Body>, x: int, y: int, z: int) -> u16 {
    vox_upto(s, s.len() as int, x, y, z)
}

/// The triple `(a, b, c)` comes before `(x, y, z)` in the order the
/// rasterizer walks the grid.
pub open spec fn lex_before(a: int, b: int, c: int, x: int, y: int, z: int) -> bool {
    ||| a < x
    ||| (a == x && b < y)
    ||| (a == x && b == y && c < z)
}

/// An earlier grid triple has a smaller linear index.
proof fn lemma_idx_lt(ht: int, dp: int, a: int, b: int, c: int, x: int, y: int, z: int)
    by (nonlinear_arith)
    requires
        0 <= a,
        0 <= b < ht,
        0 <= c < dp,
        0 <= y,
        0 <= z,
        lex_before(a, b, c, x, y, z),
    ensures
        0 <= (a * ht + b) * dp + c,
        (a * ht + b) * dp + c < (x * ht + y) * dp + z,
{
}

/// An in-range grid triple has a linear index inside the grid.
pub proof fn lemma_idx_in(wd: int, ht: int, dp: int, x: int, y: int, z: int)
    by (nonlinear_arith)
    requires
        0 <= x < wd,
        0 <= y < ht,
        0 <= z < dp,
    ensures
        0 <= (x * ht + y) * dp + z,
        (x * ht + y) * dp + z < wd * ht * dp,
{
}

impl Volume {
    /// The three dimensions, as width, height, depth.
    pub closed spec fn dims(&self) -> (int, int, int) {
        (self.width as int, self.height as int, self.depth as int)
    }

    /// The cells, in layout order.
    pub closed spec fn cells(&self) -> Seq<u16> {
        self.cells@
    }

    /// The linear index of the voxel `(x, y, z)`.
    pub open spec fn idx(&self, x: int, y: int, z: int) -> int {
        (x * self.dims().1 + y) * self.dims().2 + z
    }

    /// The intensity at the voxel `(x, y, z)`.
    pub open spec fn cell(&self, x: int, y: int, z: int) -> u16 {
        self.cells()[self.idx(x, y, z)]
    }

    /// The cell count matches the dimensions and no dimension exceeds
    /// the extent cap.
    pub open spec fn wf(&self) -> bool {
        &&& self.cells().len() == self.dims().0 * self.dims().1 * self.dims().2
        &&& 0 <= self.dims().0 <= MAX_DIM
        &&& 0 <= self.dims().1 <= MAX_DIM
        &&& 0 <= self.dims().2 <= MAX_DIM
    }

    /// A volume of the given dimensions with every cell at zero.
    pub fn new(width: usize, height: usize, depth: usize) -> (v: Volume)
        requires
            width <= MAX_DIM,
            height <= MAX_DIM,
            depth <= MAX_DIM,
        ensures
            v.wf(),
            v.dims() == (width as int, height as int, depth as int),
            forall|i: int| 0 <= i < v.cells().len() ==> v.cells()[i] == 0u16,
    {
        proof {
            lemma_mul_bound(width as int, height as int, MAX_DIM as int, MAX_DIM as int);
            lemma_mul_bound(
                (width * height) as int,
                depth as int,
                (MAX_DIM * MAX_DIM) as int,
                MAX_DIM as int,
            );
        }
        let total = width * height * depth;
        let mut cells: Vec<u16> = Vec::new();
        let mut i: usize = 0;
        while i < total
            invariant
                i <= total,
                cells@.len() == i,
                forall|k: int| 0 <= k < i ==> cells@[k] == 0u16,
            decreases total - i,
        {
            cells.push(0);
            i += 1;
        }
        Volume { width, height, depth, cells }
    }

    /// Width of the volume.
    pub fn width(&self) -> (r: usize)
        ensures
            r as int == self.dims().0,
    {
        self.width
    }

    /// Height of the volume.
    pub fn height(&self) -> (r: usize)
        ensures
            r as int == self.dims().1,
    {
        self.height
    }

    /// Depth of the volume.
    pub fn depth(&self) -> (r: usize)
        ensures
            r as int == self.dims().2,
    {
        self.depth
    }

    /// The intensity at the voxel `(x, y, z)`.
    pub fn get(&self, x: usize, y: usize, z: usize) -> (r: u16)
        requires
            self.wf(),
            x < self.dims().0,
            y < self.dims().1,
            z < self.dims().2,
        ensures
            r == self.cell(x as int, y as int, z as int),
    {
        proof {
            lemma_idx_in(
                self.dims().0,
                self.dims().1,
                self.dims().2,
                x as int,
                y as int,
                z as int,
            );
            lemma_mul_bound(x as int, self.dims().1, MAX_DIM as int, MAX_DIM as int);
            lemma_mul_bound(
                x as int * self.dims().1 + y as int,
                self.dims().2,
                MAX_DIM as int * MAX_DIM as int + MAX_DIM as int,
                MAX_DIM as int,
            );
        }
        self.cells[(x * self.height + y) * self.depth + z]
    }

    /// Write the intensity at the voxel `(x, y, z)`.
    pub fn set(&mut self, x: usize, y: usize, z: usize, v: u16)
        requires
            old(self).wf(),
            x < old(self).dims().0,
            y < old(self).dims().1,
            z < old(self).dims().2,
        ensures
            final(self).wf(),
            final(self).dims() == old(self).dims(),
            final(self).cells() == old(self).cells().update(
                old(self).idx(x as int, y as int, z as int),
                v,
            ),
    {
        proof {
            lemma_idx_in(
                self.dims().0,
                self.dims().1,
                self.dims().2,
                x as int,
                y as int,
                z as int,
            );
            lemma_mul_bound(x as int, self.dims().1, MAX_DIM as int, MAX_DIM as int);
            lemma_mul_bound(
                x as int * self.dims().1 + y as int,
                self.dims().2,
                MAX_DIM as int * MAX_DIM as int + MAX_DIM as int,
                MAX_DIM as int,
            );
        }
        let i = (x * self.height + y) * self.depth + z;
        self.cells.set(i, v);
    }

    /// The cell behind one linear index.
    pub fn get_linear(&self, i: usize) -> (r: u16)
        requires
            i < self.cells().len(),
        ensures
            r == self.cells()[i as int],
    {
        self.cells[i]
    }

    /// The total cell count.
    pub fn len(&self) -> (r: usize)
        ensures
            r == self.cells().len(),
    {
        self.cells.len()
    }

    /// Rebuild a volume from decoded parts.
    pub fn from_parts(width: usize, height: usize, depth: usize, cells: Vec<u16>) -> (v: Volume)
        requires
            width <= MAX_DIM,
            height <= MAX_DIM,
            depth <= MAX_DIM,
            cells@.len() == width as int * height as int * depth as int,
        ensures
            v.wf(),
            v.dims() == (width as int, height as int, depth as int),
            v.cells() == cells@,
    {
        Volume { width, height, depth, cells }
    }
}

/// The intensity one body stamps at one voxel.
fn stamp_at(b: &Body, x: usize, y: usize, z: usize) -> (r: u16)
    requires
        body_ok(*b),
        x <= MAX_DIM,
        y <= MAX_DIM,
        z <= MAX_DIM,
    ensures
        r == stamp(*b, x as int, y as int, z as int),
{
    let cx = (x as i64) * UNIT;
    let cy = (y as i64) * UNIT;
    let cz = (z as i64) * UNIT;
    let dx = b.x - cx;
    let dy = b.y - cy;
    let dz = 0i64 - cz;
    proof {
        lemma_sq_bound(dx as int, 101_024_000);
        lemma_sq_bound(dy as int, 101_024_000);
        lemma_sq_bound(dz as int, 101_024_000);
    }
    let d2 = dx * dx + dy * dy + dz * dz;
    if d2 <= RADIUS_SQ {
        proof {
            lemma_mul_bound(PEAK as int, d2 as int, PEAK as int, RADIUS_SQ as int);
            vstd::arithmetic::div_mod::lemma_div_pos_is_pos(
                PEAK as int * d2 as int,
                RADIUS_SQ as int + 1,
            );
            vstd::arithmetic::div_mod::lemma_multiply_divide_lt(
                PEAK as int * d2 as int,
                PEAK as int,
                RADIUS_SQ as int + 1,
            );
        }
        let t = (PEAK as i64) * d2;
        let q = ((t as u64) / ((RADIUS_SQ + 1) as u64)) as i64;
        (PEAK as i64 - q) as u16
    } else {
        0
    }
}

/// Rasterize the world's body set into a fresh volume of the given
/// dimensions: every voxel carries the maximum of the stamps that cover
/// it (stamps reaching outside the grid are clipped by the grid itself).
pub fn rasterize(w: &World, width: usize, height: usize, depth: usize) -> (v: Volume)
    requires
        w.wf(),
        width <= MAX_DIM,
        height <= MAX_DIM,
        depth <= MAX_DIM,
    ensures
        v.wf(),
        v.dims() == (width as int, height as int, depth as int),
        forall|x: int, y: int, z: int|
            0 <= x < width && 0 <= y < height && 0 <= z < depth ==> v.cell(x, y, z) == vox_value(
                w@,
                x,
                y,
                z,
            ),
{
    let n = w.count();
    let mut cells: Vec<u16> = Vec::new();
    let mut x: usize = 0;
    while x < width
        invariant
            w.wf(),
            n == w@.len(),
            width <= MAX_DIM,
            height <= MAX_DIM,
            depth <= MAX_DIM,
            x <= width,
            cells@.len() == (x as int * height as int) * depth as int,
            forall|a: int, b: int, c: int|
                0 <= a < width && 0 <= b < height && 0 <= c < depth && lex_before(
                    a,
                    b,
                    c,
                    x as int,
                    0,
                    0,
                ) ==> cells@[(a * height as int + b) * depth as int + c] == vox_value(w@, a, b, c),
        decreases width - x,
    {
        let mut y: usize = 0;
        while y < height
            invariant
                w.wf(),
                n == w@.len(),
                width <= MAX_DIM,
                height <= MAX_DIM,
                depth <= MAX_DIM,
                x < width,
                y <= height,
                cells@.len() == (x as int * height as int + y as int) * depth as int,
                forall|a: int, b: int, c: int|
                    0 <= a < width && 0 <= b < height && 0 <= c < depth && lex_before(
                        a,
                        b,
                        c,
                        x as int,
                        y as int,
                        0,
                    ) ==> cells@[(a * height as int + b) * depth as int + c] == vox_value(
                        w@,
                        a,
                        b,
                        c,
                    ),
            decreases height - y,
        {
            let mut z: usize = 0;
            while z < depth
                invariant
                    w.wf(),
                    n == w@.len(),
                    width <= MAX_DIM,
                    height <= MAX_DIM,
                    depth <= MAX_DIM,
                    x < width,
                    y < height,
                    z <= depth,
                    cells@.len() == (x as int * height as int + y as int) * depth as int
                        + z as int,
                    forall|a: int, b: int, c: int|
                        0 <= a < width && 0 <= b < height && 0 <= c < depth && lex_before(
                            a,
                            b,
                            c,
                            x as int,
                            y as int,
                            z as int,
                        ) ==> cells@[(a * height as int + b) * depth as int + c] == vox_value(
                            w@,
                            a,
                            b,
                            c,
                        ),
                decreases depth - z,
            {
                let mut acc: u16 = 0;
                let mut k: usize = 0;
                while k < n
                    invariant
                        w.wf(),
                        n == w@.len(),
                        x <= MAX_DIM,
                        y <= MAX_DIM,
                        z <= MAX_DIM,
                        k <= n,
                        acc == vox_upto(w@, k as int, x as int, y as int, z as int),
                    decreases n - k,
                {
                    let b = match w.body_of(k) {
                        Ok(b) => b,
                        Err(_) => {
                            proof {
                                assert(false);
                            }
                            Body { x: 0, y: 0, vx: 0, vy: 0 }
                        },
                    };
                    let c = stamp_at(&b, x, y, z);
                    if c > acc {
                        acc = c;
                    }
                    k += 1;
                }
                let ghost pre = cells@;
                cells.push(acc);
                proof {
                    assert forall|a: int, b: int, c: int|
                        0 <= a < width && 0 <= b < height && 0 <= c < depth && lex_before(
                            a,
                            b,
                            c,
                            x as int,
                            y as int,
                            z as int + 1,
                        ) implies cells@[(a * height as int + b) * depth as int + c] == vox_value(
                        w@,
                        a,
                        b,
                        c,
                    ) by {
                        if lex_before(a, b, c, x as int, y as int, z as int) {
                            lemma_idx_lt(
                                height as int,
                                depth as int,
                                a,
                                b,
                                c,
                                x as int,
                                y as int,
                                z as int,
                            );
                        } else {
                            assert(a == x as int && b == y as int && c == z as int);
                        }
                    }
                }
                z += 1;
            }
            proof {
                assert((x as int * height as int + y as int) * depth as int + depth as int == (
                x as int * height as int + (y as int + 1)) * depth as int) by (nonlinear_arith);
            }
            y += 1;
        }
        proof {
            assert((x as int * height as int + height as int) * depth as int == ((x as int + 1)
                * height as int) * depth as int) by (nonlinear_arith);
        }
        x += 1;
    }
    proof {
        assert((width as int * height as int) * depth as int == width as int * height as int
            * depth as int) by (nonlinear_arith);
    }
    Volume { width, height, depth, cells }
}

/// Voxelization idempotence: equal body sets blend to the same
/// intensity at every voxel, so rasterizing the same positions twice
/// produces identical volumes.
pub proof fn lemma_voxelization_idempotent(s1: Seq<Body>, s2: Seq<Body>, x: int, y: int, z: int)
    requires
        s1 == s2,
    ensures
        vox_value(s1, x, y, z) == vox_value(s2, x, y, z),
{
}

/// Blend correctness: two bodies stamped with the maximum rule leave,
/// at every voxel, the greater of their two stamps — and where both
/// stamps are positive, strictly less than their sum.
pub proof fn lemma_blend_max(a: Body, b: Body, x: int, y: int, z: int)
    ensures
        vox_value(seq![a, b], x, y, z) == max16(stamp(a, x, y, z), stamp(b, x, y, z)),
        stamp(a, x, y, z) > 0 && stamp(b, x, y, z) > 0 ==> (vox_value(seq![a, b], x, y, z) as int)
            < stamp(a, x, y, z) + stamp(b, x, y, z),
{
    let s = seq![a, b];
    reveal_with_fuel(vox_upto, 3);
    assert(s.len() == 2 && s[0] == a && s[1] == b);
    assert(vox_value(s, x, y, z) == max16(max16(0u16, stamp(a, x, y, z)), stamp(b, x, y, z)));
}

} // verus!
