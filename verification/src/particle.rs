use vstd::prelude::*;

use crate::rng::random_u32;

verus! {

/// Largest admissible coordinate value. Keeping every coordinate and every
/// threshold at or below this bound keeps squared distances within `u64`.
pub const MAX_COORD: u64 = 0x8000_0000;

/// One enclosure length unit in coordinate ticks. Positions are fixed-point
/// values at this scale, and one random step displaces each axis by at most
/// one unit (a displacement drawn from [-1, 1] in enclosure units).
pub const UNIT: u64 = 1000;

/// A coordinate clamped into the enclosure range [0, e].
pub open spec fn clamped(v: int, e: int) -> int {
    if v < 0 {
        0
    } else if v > e {
        e
    } else {
        v
    }
}

/// A point particle confined to the square enclosure [0, e] x [0, e].
#[derive(Clone, Copy, Debug, PartialEq, Eq, Structural)]
pub struct Particle {
    pub x: u64,
    pub y: u64,
}

/// Squared Euclidean distance between two particle positions.
pub open spec fn sq_dist(a: Particle, b: Particle) -> int {
    (a.x - b.x) * (a.x - b.x) + (a.y - b.y) * (a.y - b.y)
}

/// Proximity event: the Euclidean distance between the two positions is
/// strictly below the threshold `t`. Compared on squares, which is
/// equivalent for non-negative distances.
pub open spec fn colliding(a: Particle, b: Particle, t: u64) -> bool {
    sq_dist(a, b) < t * t
}

/// Where one coordinate lands after a displacement `d` clamped into [0, e].
pub open spec fn step_result(pre: int, d: int, e: int) -> int {
    clamped(pre + d, e)
}

/// What one random step may do to a particle: each axis is displaced by at
/// most one unit and the result is clamped into the enclosure.
pub open spec fn stepped(pre: Particle, post: Particle, e: u64) -> bool {
    exists|dx: int, dy: int|
        #![trigger step_result(pre.x as int, dx, e as int), step_result(pre.y as int, dy, e as int)]
        -(UNIT as int) <= dx <= UNIT as int && -(UNIT as int) <= dy <= UNIT as int && post.x
            == step_result(pre.x as int, dx, e as int) && post.y == step_result(
            pre.y as int,
            dy,
            e as int,
        )
}

/// The squared distance is symmetric in its two arguments.
pub proof fn lemma_sq_dist_symmetric(a: Particle, b: Particle)
    ensures
        sq_dist(a, b) == sq_dist(b, a),
{
    assert((a.x - b.x) * (a.x - b.x) == (b.x - a.x) * (b.x - a.x)) by (nonlinear_arith);
    assert((a.y - b.y) * (a.y - b.y) == (b.y - a.y) * (b.y - a.y)) by (nonlinear_arith);
}

impl Particle {
    /// The particle lies within the enclosure of side length `e`.
    pub open spec fn wf(self, e: u64) -> bool {
        self.x <= e && self.y <= e
    }

    /// A particle at a uniformly random position in [0, e) x [0, e)
    /// (at the origin when the enclosure is degenerate, e == 0).
    pub fn new(enclosure_size: u64) -> (r: Particle)
        requires
            enclosure_size <= MAX_COORD,
        ensures
            r.wf(enclosure_size),
            enclosure_size > 0 ==> r.x < enclosure_size && r.y < enclosure_size,
    {
        let x = random_coord(enclosure_size);
        let y = random_coord(enclosure_size);
        Particle { x, y }
    }

    /// Displace the particle by the given per-axis deltas, clamping both
    /// coordinates into the enclosure. The sole place positions change.
    pub fn advance_by(&mut self, dx: i32, dy: i32, enclosure_size: u64)
        requires
            old(self).wf(enclosure_size),
            enclosure_size <= MAX_COORD,
        ensures
            final(self).x == clamped(old(self).x + dx, enclosure_size as int),
            final(self).y == clamped(old(self).y + dy, enclosure_size as int),
            final(self).wf(enclosure_size),
    {
        let nx: i64 = self.x as i64 + dx as i64;
        let ny: i64 = self.y as i64 + dy as i64;
        self.x = if nx < 0 {
            0
        } else if nx > enclosure_size as i64 {
            enclosure_size
        } else {
            nx as u64
        };
        self.y = if ny < 0 {
            0
        } else if ny > enclosure_size as i64 {
            enclosure_size
        } else {
            ny as u64
        };
    }

    /// Displace the particle by one random step: two independent draws,
    /// each at most one unit in magnitude, then clamp into the enclosure.
    pub fn move_particle(&mut self, enclosure_size: u64)
        requires
            old(self).wf(enclosure_size),
            enclosure_size <= MAX_COORD,
        ensures
            final(self).wf(enclosure_size),
            stepped(*old(self), *final(self), enclosure_size),
    {
        let dx = random_step();
        let dy = random_step();
        self.advance_by(dx, dy, enclosure_size);
        proof {
            assert(self.x == step_result(old(self).x as int, dx as int, enclosure_size as int));
            assert(self.y == step_result(old(self).y as int, dy as int, enclosure_size as int));
        }
    }

    /// Whether this particle collides with `other` at the given threshold.
    pub fn collide(&self, other: &Particle, threshold: u64) -> (r: bool)
        requires
            self.x <= MAX_COORD,
            self.y <= MAX_COORD,
            other.x <= MAX_COORD,
            other.y <= MAX_COORD,
            threshold <= MAX_COORD,
        ensures
            r == colliding(*self, *other, threshold),
    {
        let dx: u64 = if self.x >= other.x {
            self.x - other.x
        } else {
            other.x - self.x
        };
        let dy: u64 = if self.y >= other.y {
            self.y - other.y
        } else {
            other.y - self.y
        };
        proof {
            lemma_abs_square(self.x as int, other.x as int, dx as int);
            lemma_abs_square(self.y as int, other.y as int, dy as int);
            lemma_square_bound(dx as int);
            lemma_square_bound(dy as int);
            lemma_square_bound(threshold as int);
        }
        dx * dx + dy * dy < threshold * threshold
    }

    /// The current position as a pair of coordinates.
    pub fn get_position(&self) -> (r: (u64, u64))
        ensures
            r.0 == self.x,
            r.1 == self.y,
    {
        (self.x, self.y)
    }
}

/// The square of the absolute difference equals the square of the difference.
proof fn lemma_abs_square(a: int, b: int, d: int)
    requires
        d == if a >= b {
            a - b
        } else {
            b - a
        },
    ensures
        d * d == (a - b) * (a - b),
{
    assert(d * d == (a - b) * (a - b)) by (nonlinear_arith)
        requires
            d == if a >= b {
                a - b
            } else {
                b - a
            },
    ;
}

/// A value at most `MAX_COORD` has a square at most a quarter of `u64` range.
proof fn lemma_square_bound(v: int)
    requires
        0 <= v <= MAX_COORD,
    ensures
        v * v <= 0x4000_0000_0000_0000,
{
    assert(v * v <= 0x4000_0000_0000_0000) by (nonlinear_arith)
        requires
            0 <= v <= 0x8000_0000,
    ;
}

/// A uniformly random coordinate in [0, e), or 0 for a degenerate enclosure.
fn random_coord(enclosure_size: u64) -> (r: u64)
    requires
        enclosure_size <= MAX_COORD,
    ensures
        r <= enclosure_size,
        enclosure_size > 0 ==> r < enclosure_size,
{
    if enclosure_size == 0 {
        0
    } else {
        (random_u32() as u64) % enclosure_size
    }
}

/// A uniformly random per-axis step in [-UNIT, UNIT] ticks.
pub(crate) fn random_step() -> (r: i32)
    ensures
        -(UNIT as int) <= r as int <= UNIT as int,
{
    let raw = random_u32();
    let m: u32 = raw % (2 * (UNIT as u32) + 1);
    (m as i32) - (UNIT as i32)
}

} // verus!
