use vstd::prelude::*;

use vstd::pervasive::VecAdditionalExecFns;

use crate::driver::{lemma_sum_of_take_step, sum_of, RunConfig, MAX_PARTICLES};
use crate::particle::{colliding, lemma_sq_dist_symmetric, stepped, Particle, MAX_COORD};

verus! {

/// How many members of `s` the particle `p` collides with at threshold `t`,
/// counted with multiplicity.
pub open spec fn with_count(p: Particle, s: Seq<Particle>, t: u64) -> nat
    decreases s.len(),
{
    if s.len() == 0 {
        0
    } else {
        (if colliding(p, s[0], t) {
            1nat
        } else {
            0nat
        }) + with_count(p, s.drop_first(), t)
    }
}

/// The number of unordered pairs of distinct members of `s` (by index) that
/// collide at threshold `t`: the result of one full pairwise scan.
pub open spec fn pair_count(s: Seq<Particle>, t: u64) -> nat
    decreases s.len(),
{
    if s.len() == 0 {
        0
    } else {
        with_count(s[0], s.drop_first(), t) + pair_count(s.drop_first(), t)
    }
}

/// Collision is symmetric in the two particles.
pub proof fn lemma_colliding_symmetric(a: Particle, b: Particle, t: u64)
    ensures
        colliding(a, b, t) == colliding(b, a, t),
{
    lemma_sq_dist_symmetric(a, b);
}

/// `with_count` never exceeds the length of the sequence scanned.
proof fn lemma_with_count_le(p: Particle, s: Seq<Particle>, t: u64)
    ensures
        with_count(p, s, t) <= s.len(),
    decreases s.len(),
{
    if s.len() > 0 {
        lemma_with_count_le(p, s.drop_first(), t);
    }
}

/// A full scan counts at most `len * len` pairs.
pub proof fn lemma_pair_count_le(s: Seq<Particle>, t: u64)
    ensures
        pair_count(s, t) <= s.len() * s.len(),
    decreases s.len(),
{
    if s.len() > 0 {
        let d = s.drop_first();
        lemma_with_count_le(s[0], d, t);
        lemma_pair_count_le(d, t);
        assert((s.len() - 1) + (s.len() - 1) * (s.len() - 1) <= s.len() * s.len())
            by (nonlinear_arith)
            requires
                s.len() >= 1,
        ;
    }
}

/// Removing member `i` from the scanned sequence removes exactly its own
/// contribution to `with_count`.
proof fn lemma_with_count_remove(p: Particle, s: Seq<Particle>, t: u64, i: int)
    requires
        0 <= i < s.len(),
    ensures
        with_count(p, s, t) == with_count(p, s.remove(i), t) + (if colliding(p, s[i], t) {
            1int
        } else {
            0int
        }),
    decreases s.len(),
{
    if i == 0 {
        assert(s.remove(0) =~= s.drop_first());
    } else {
        let d = s.drop_first();
        lemma_with_count_remove(p, d, t, i - 1);
        assert(s.remove(i)[0] == s[0]);
        assert(s.remove(i).drop_first() =~= d.remove(i - 1));
    }
}

/// `with_count` depends only on the multiset of particles scanned.
proof fn lemma_with_count_multiset(p: Particle, s1: Seq<Particle>, s2: Seq<Particle>, t: u64)
    requires
        s1.to_multiset() == s2.to_multiset(),
    ensures
        with_count(p, s1, t) == with_count(p, s2, t),
    decreases s1.len(),
{
    broadcast use vstd::seq_lib::group_to_multiset_ensures;

    if s1.len() == 0 {
        assert(s2.to_multiset().len() == 0);
    } else {
        let a = s1[0];
        assert(s1.contains(a));
        assert(s2.to_multiset().count(a) > 0);
        assert(s2.contains(a));
        let k = choose|k: int| 0 <= k < s2.len() && s2[k] == a;
        assert(s1.remove(0).to_multiset() == s1.to_multiset().remove(a));
        assert(s2.remove(k).to_multiset() == s2.to_multiset().remove(a));
        assert(s1.remove(0) =~= s1.drop_first());
        lemma_with_count_multiset(p, s1.drop_first(), s2.remove(k), t);
        lemma_with_count_remove(p, s2, t, k);
    }
}

/// Removing member `i` splits a full scan into the pairs that touch member
/// `i` and the pairs among the rest.
proof fn lemma_pair_count_remove(s: Seq<Particle>, t: u64, i: int)
    requires
        0 <= i < s.len(),
    ensures
        pair_count(s, t) == with_count(s[i], s.remove(i), t) + pair_count(s.remove(i), t),
    decreases s.len(),
{
    if i == 0 {
        assert(s.remove(0) =~= s.drop_first());
    } else {
        let d = s.drop_first();
        let dr = d.remove(i - 1);
        lemma_pair_count_remove(d, t, i - 1);
        lemma_with_count_remove(s[0], d, t, i - 1);
        lemma_colliding_symmetric(s[0], s[i], t);
        assert(s.remove(i)[0] == s[0]);
        assert(s.remove(i).drop_first() =~= dr);
        assert(d[i - 1] == s[i]);
        assert(pair_count(s.remove(i), t) == with_count(s[0], dr, t) + pair_count(dr, t));
        assert(with_count(s[i], s.remove(i), t) == (if colliding(s[i], s[0], t) {
            1nat
        } else {
            0nat
        }) + with_count(s[i], dr, t));
    }
}

/// Law: the pairwise collision count depends only on the multiset of
/// particles in the field. Permuting the particle sequence does not change
/// the count a scan returns.
pub proof fn lemma_pair_count_permutation(s1: Seq<Particle>, s2: Seq<Particle>, t: u64)
    requires
        s1.to_multiset() == s2.to_multiset(),
    ensures
        pair_count(s1, t) == pair_count(s2, t),
    decreases s1.len(),
{
    broadcast use vstd::seq_lib::group_to_multiset_ensures;

    if s1.len() == 0 {
        assert(s2.to_multiset().len() == 0);
    } else {
        let a = s1[0];
        assert(s1.contains(a));
        assert(s2.to_multiset().count(a) > 0);
        assert(s2.contains(a));
        let k = choose|k: int| 0 <= k < s2.len() && s2[k] == a;
        assert(s1.remove(0).to_multiset() == s1.to_multiset().remove(a));
        assert(s2.remove(k).to_multiset() == s2.to_multiset().remove(a));
        assert(s1.remove(0) =~= s1.drop_first());
        lemma_pair_count_permutation(s1.drop_first(), s2.remove(k), t);
        lemma_with_count_multiset(a, s1.drop_first(), s2.remove(k), t);
        lemma_pair_count_remove(s2, t, k);
    }
}

/// When `p` collides with every member of `s`, `with_count` is the length.
proof fn lemma_with_count_all(p: Particle, s: Seq<Particle>, t: u64)
    requires
        forall|i: int| 0 <= i < s.len() ==> colliding(p, #[trigger] s[i], t),
    ensures
        with_count(p, s, t) == s.len(),
    decreases s.len(),
{
    if s.len() > 0 {
        lemma_with_count_all(p, s.drop_first(), t);
    }
}

/// When `p` collides with no member of `s`, `with_count` is zero.
proof fn lemma_with_count_none(p: Particle, s: Seq<Particle>, t: u64)
    requires
        forall|i: int| 0 <= i < s.len() ==> !colliding(p, #[trigger] s[i], t),
    ensures
        with_count(p, s, t) == 0,
    decreases s.len(),
{
    if s.len() > 0 {
        lemma_with_count_none(p, s.drop_first(), t);
    }
}

/// Law: a field whose particles all sit at one position yields exactly
/// len * (len - 1) / 2 colliding pairs — every pair is within any positive
/// threshold.
pub proof fn lemma_pair_count_all_identical(s: Seq<Particle>, t: u64)
    requires
        t >= 1,
        forall|i: int| 0 <= i < s.len() ==> #[trigger] s[i] == s[0],
    ensures
        2 * pair_count(s, t) == s.len() * (s.len() - 1),
        pair_count(s, t) == s.len() * (s.len() - 1) / 2,
    decreases s.len(),
{
    if s.len() > 0 {
        let d = s.drop_first();
        assert(t * t >= 1) by (nonlinear_arith)
            requires
                t >= 1,
        ;
        assert(forall|i: int| 0 <= i < d.len() ==> #[trigger] d[i] == s[0]);
        assert(forall|i: int|
            0 <= i < d.len() ==> colliding(s[0], #[trigger] d[i], t));
        lemma_with_count_all(s[0], d, t);
        assert(forall|i: int| 0 <= i < d.len() ==> #[trigger] d[i] == d[0]);
        lemma_pair_count_all_identical(d, t);
        assert(2 * ((s.len() - 1) + (s.len() - 1) * (s.len() - 2) / 2) == s.len() * (s.len() - 1))
            by (nonlinear_arith)
            requires
                s.len() >= 1,
                2 * ((s.len() - 1) * (s.len() - 2) / 2) == (s.len() - 1) * (s.len() - 2),
        ;
        assert(pair_count(s, t) == s.len() * (s.len() - 1) / 2) by (nonlinear_arith)
            requires
                2 * pair_count(s, t) == s.len() * (s.len() - 1),
        ;
    }
}

/// Law: a field in which every two distinct particles are at least the
/// threshold apart yields zero colliding pairs.
pub proof fn lemma_pair_count_separated(s: Seq<Particle>, t: u64)
    requires
        forall|i: int, j: int|
            0 <= i < s.len() && 0 <= j < s.len() && i != j ==> !colliding(
                #[trigger] s[i],
                #[trigger] s[j],
                t,
            ),
    ensures
        pair_count(s, t) == 0,
    decreases s.len(),
{
    if s.len() > 0 {
        let d = s.drop_first();
        assert(forall|i: int|
            0 <= i < d.len() ==> !colliding(s[0], #[trigger] d[i], t)) by {
            assert(forall|i: int| 0 <= i < d.len() ==> d[i] == s[i + 1]);
        }
        lemma_with_count_none(s[0], d, t);
        assert(forall|i: int, j: int|
            0 <= i < d.len() && 0 <= j < d.len() && i != j ==> !colliding(
                #[trigger] d[i],
                #[trigger] d[j],
                t,
            )) by {
            assert(forall|i: int| 0 <= i < d.len() ==> d[i] == s[i + 1]);
        }
        lemma_pair_count_separated(d, t);
    }
}

/// An ordered, fixed-size population of particles together with the run's
/// spatial options and the collision tally. A plain value container: it has
/// no internal synchronization, and callers sharing it across tasks must
/// hold exclusive access around every operation.
pub struct ParticleSystem {
    pub particles: Vec<Particle>,
    pub enclosure_size: u64,
    pub collision_threshold: u64,
    pub collision_count: u64,
}

impl ParticleSystem {
    /// Machine bounds and the clamp invariant: every particle lies within
    /// the enclosure.
    pub open spec fn wf(self) -> bool {
        self.enclosure_size <= MAX_COORD && self.collision_threshold <= MAX_COORD
            && self.particles@.len() <= MAX_PARTICLES && forall|i: int|
            0 <= i < self.particles@.len() ==> (#[trigger] self.particles@[i]).wf(
                self.enclosure_size,
            )
    }

    /// A new system of `config.particle_count` particles, each placed
    /// uniformly at random within the enclosure, with an empty tally.
    pub fn new(config: &RunConfig) -> (r: ParticleSystem)
        requires
            config.wf(),
        ensures
            r.wf(),
            r.particles@.len() == config.particle_count,
            r.enclosure_size == config.enclosure_size,
            r.collision_threshold == config.collision_threshold,
            r.collision_count == 0,
            config.enclosure_size > 0 ==> forall|i: int|
                0 <= i < r.particles@.len() ==> (#[trigger] r.particles@[i]).x
                    < config.enclosure_size && r.particles@[i].y < config.enclosure_size,
    {
        let mut particles: Vec<Particle> = Vec::new();
        let mut i: usize = 0;
        while i < config.particle_count
            invariant
                i <= config.particle_count,
                particles@.len() == i,
                config.wf(),
                forall|k: int|
                    0 <= k < i ==> (#[trigger] particles@[k]).wf(config.enclosure_size),
                config.enclosure_size > 0 ==> forall|k: int|
                    0 <= k < i ==> (#[trigger] particles@[k]).x < config.enclosure_size
                        && particles@[k].y < config.enclosure_size,
            decreases config.particle_count - i,
        {
            particles.push(Particle::new(config.enclosure_size));
            i += 1;
        }
        ParticleSystem {
            particles,
            enclosure_size: config.enclosure_size,
            collision_threshold: config.collision_threshold,
            collision_count: 0,
        }
    }

    /// Advance every particle by one independent random step. Order over
    /// members is irrelevant: each update depends only on that particle's
    /// own prior state and the random source. Callers sharing the system
    /// must hold exclusive access for the whole call.
    pub fn move_particles(&mut self)
        requires
            old(self).wf(),
        ensures
            final(self).wf(),
            final(self).particles@.len() == old(self).particles@.len(),
            final(self).enclosure_size == old(self).enclosure_size,
            final(self).collision_threshold == old(self).collision_threshold,
            final(self).collision_count == old(self).collision_count,
            forall|i: int|
                0 <= i < old(self).particles@.len() ==> stepped(
                    old(self).particles@[i],
                    #[trigger] final(self).particles@[i],
                    old(self).enclosure_size,
                ),
    {
        let n = self.particles.len();
        let mut i: usize = 0;
        while i < n
            invariant
                i <= n,
                n == self.particles@.len(),
                self.enclosure_size == old(self).enclosure_size,
                self.collision_threshold == old(self).collision_threshold,
                self.collision_count == old(self).collision_count,
                old(self).wf(),
                n == old(self).particles@.len(),
                forall|k: int|
                    0 <= k < n ==> (#[trigger] self.particles@[k]).wf(self.enclosure_size),
                forall|k: int|
                    0 <= k < i ==> stepped(
                        old(self).particles@[k],
                        #[trigger] self.particles@[k],
                        old(self).enclosure_size,
                    ),
                forall|k: int| i <= k < n ==> self.particles@[k] == old(self).particles@[k],
            decreases n - i,
        {
            let mut p = self.particles[i];
            p.move_particle(self.enclosure_size);
            self.particles.set(i, p);
            i += 1;
        }
    }

    /// The number of particles in the field.
    pub fn get_particle_count(&self) -> (r: usize)
        ensures
            r == self.particles@.len(),
    {
        self.particles.len()
    }

    /// A copy of every current position, for reporting.
    pub fn get_particle_positions(&self) -> (r: Vec<(u64, u64)>)
        ensures
            r@.len() == self.particles@.len(),
            forall|i: int|
                0 <= i < r@.len() ==> (#[trigger] r@[i]).0 == self.particles@[i].x && r@[i].1
                    == self.particles@[i].y,
    {
        let mut out: Vec<(u64, u64)> = Vec::new();
        let n = self.particles.len();
        let mut i: usize = 0;
        while i < n
            invariant
                i <= n,
                n == self.particles@.len(),
                out@.len() == i,
                forall|k: int|
                    0 <= k < i ==> (#[trigger] out@[k]).0 == self.particles@[k].x && out@[k].1
                        == self.particles@[k].y,
            decreases n - i,
        {
            let p = &self.particles[i];
            out.push((p.x, p.y));
            i += 1;
        }
        out
    }

    /// One full pairwise scan: the number of unordered pairs of distinct
    /// particles currently within the collision threshold. A pure read;
    /// callers sharing the system must exclude concurrent mutation for the
    /// whole call, or the snapshot scanned is not a state the field was
    /// ever in.
    pub fn check_collisions(&self) -> (r: u64)
        requires
            self.wf(),
        ensures
            r == pair_count(self.particles@, self.collision_threshold),
    {
        let ghost s = self.particles@;
        let t = self.collision_threshold;
        let n = self.particles.len();
        proof {
            lemma_pair_count_le(s, t);
            assert(s.len() * s.len() <= 0x4000_0000_0000_0000) by (nonlinear_arith)
                requires
                    s.len() <= 0x8000_0000,
            ;
            assert(s.skip(0) =~= s);
        }
        let mut count: u64 = 0;
        let mut i: usize = 0;
        while i < n
            invariant
                i <= n,
                n == s.len(),
                s == self.particles@,
                t == self.collision_threshold,
                self.wf(),
                pair_count(s, t) <= 0x4000_0000_0000_0000,
                count + pair_count(s.skip(i as int), t) == pair_count(s, t),
            decreases n - i,
        {
            proof {
                assert(s.skip(i as int)[0] == s[i as int]);
                assert(s.skip(i as int).drop_first() =~= s.skip(i as int + 1));
            }
            let mut j: usize = i + 1;
            while j < n
                invariant
                    i < n,
                    i + 1 <= j <= n,
                    n == s.len(),
                    s == self.particles@,
                    t == self.collision_threshold,
                    self.wf(),
                    pair_count(s, t) <= 0x4000_0000_0000_0000,
                    count + with_count(s[i as int], s.skip(j as int), t) + pair_count(
                        s.skip(i as int + 1),
                        t,
                    ) == pair_count(s, t),
                decreases n - j,
            {
                proof {
                    assert(s.skip(j as int)[0] == s[j as int]);
                    assert(s.skip(j as int).drop_first() =~= s.skip(j as int + 1));
                }
                if self.particles[i].collide(&self.particles[j], t) {
                    count = count + 1;
                }
                j += 1;
            }
            proof {
                assert(s.skip(n as int) =~= Seq::<Particle>::empty());
            }
            i += 1;
        }
        proof {
            assert(s.skip(n as int) =~= Seq::<Particle>::empty());
        }
        count
    }

    /// Fold one scan's result into the tally. The count never decreases;
    /// it grows by exactly `n` unless the tally would exceed `u64`, where
    /// it saturates.
    pub fn record_collisions(&mut self, n: u64)
        ensures
            final(self).particles@ == old(self).particles@,
            final(self).enclosure_size == old(self).enclosure_size,
            final(self).collision_threshold == old(self).collision_threshold,
            old(self).collision_count + n <= u64::MAX ==> final(self).collision_count == old(
                self,
            ).collision_count + n,
            old(self).collision_count + n > u64::MAX ==> final(self).collision_count == u64::MAX,
            final(self).collision_count >= old(self).collision_count,
    {
        if n <= u64::MAX - self.collision_count {
            self.collision_count = self.collision_count + n;
        } else {
            self.collision_count = u64::MAX;
        }
    }

    /// Law: folding a whole sequence of scan counts into the tally, one
    /// `record_collisions` at a time, loses no update — the tally grows by
    /// exactly the total of the counts whenever that total fits in `u64`.
    /// With `lemma_tally_order_independent`, the total is also independent
    /// of the order the folds ran in.
    pub fn record_all(&mut self, scans: &Vec<u64>)
        ensures
            final(self).particles@ == old(self).particles@,
            final(self).enclosure_size == old(self).enclosure_size,
            final(self).collision_threshold == old(self).collision_threshold,
            final(self).collision_count >= old(self).collision_count,
            old(self).collision_count + sum_of(scans@) <= u64::MAX
                ==> final(self).collision_count == old(self).collision_count + sum_of(scans@),
    {
        let n = scans.len();
        let mut i: usize = 0;
        proof {
            assert(scans@.take(0) =~= Seq::<u64>::empty());
        }
        while i < n
            invariant
                i <= n,
                n == scans@.len(),
                self.particles@ == old(self).particles@,
                self.enclosure_size == old(self).enclosure_size,
                self.collision_threshold == old(self).collision_threshold,
                self.collision_count >= old(self).collision_count,
                old(self).collision_count + sum_of(scans@.take(i as int)) <= u64::MAX
                    ==> self.collision_count == old(self).collision_count + sum_of(
                    scans@.take(i as int),
                ),
            decreases n - i,
        {
            proof {
                lemma_sum_of_take_step(scans@, i as int);
            }
            let c = scans[i];
            self.record_collisions(c);
            i += 1;
        }
        proof {
            assert(scans@.take(n as int) =~= scans@);
        }
    }

    /// One observer unit of work under a single critical section: scan the
    /// field and fold the result into the tally. The particles themselves
    /// are untouched.
    pub fn scan_and_record(&mut self)
        requires
            old(self).wf(),
        ensures
            final(self).wf(),
            final(self).particles@ == old(self).particles@,
            final(self).enclosure_size == old(self).enclosure_size,
            final(self).collision_threshold == old(self).collision_threshold,
            old(self).collision_count + pair_count(
                old(self).particles@,
                old(self).collision_threshold,
            ) <= u64::MAX ==> final(self).collision_count == old(self).collision_count
                + pair_count(old(self).particles@, old(self).collision_threshold),
            old(self).collision_count + pair_count(
                old(self).particles@,
                old(self).collision_threshold,
            ) > u64::MAX ==> final(self).collision_count == u64::MAX,
            final(self).collision_count >= old(self).collision_count,
    {
        let c = self.check_collisions();
        self.record_collisions(c);
    }

    /// The total number of collisions recorded so far.
    pub fn get_collision_count(&self) -> (r: u64)
        ensures
            r == self.collision_count,
    {
        self.collision_count
    }

    /// Runtime check of the structural invariant, for unverified callers
    /// that must establish it before using the system.
    pub fn is_well_formed(&self) -> (r: bool)
        ensures
            r == self.wf(),
    {
        if self.enclosure_size > MAX_COORD {
            return false;
        }
        if self.collision_threshold > MAX_COORD {
            return false;
        }
        let n = self.particles.len();
        if n > MAX_PARTICLES {
            return false;
        }
        let mut i: usize = 0;
        while i < n
            invariant
                i <= n,
                n == self.particles@.len(),
                self.enclosure_size <= MAX_COORD,
                self.collision_threshold <= MAX_COORD,
                n <= MAX_PARTICLES,
                forall|k: int|
                    0 <= k < i ==> (#[trigger] self.particles@[k]).wf(self.enclosure_size),
            decreases n - i,
        {
            let p = &self.particles[i];
            if p.x > self.enclosure_size || p.y > self.enclosure_size {
                return false;
            }
            i += 1;
        }
        true
    }
}

} // verus!
