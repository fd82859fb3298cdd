use vstd::prelude::*;

use crate::particle::MAX_COORD;

verus! {

/// Largest admissible particle count. Together with `MAX_COORD` it keeps the
/// pairwise collision count within `u64`.
pub const MAX_PARTICLES: usize = 0x8000_0000;

/// Which mutual-exclusion discipline guards the collision tally.
#[derive(Clone, Copy, Debug, PartialEq, Eq, Structural)]
pub enum ConsistencyMode {
    /// The tally is updated under the same exclusive lock as the field, so
    /// every scan and its fold form one critical section.
    SharedLock,
    /// The tally is an independent atomically-updated counter; scans still
    /// hold the field lock, only the fold happens outside it.
    SplitTally,
}

/// Task lifecycle of one simulation run.
#[derive(Clone, Copy, Debug, PartialEq, Eq, Structural)]
pub enum Phase {
    /// Field constructed, no tasks started.
    Idle,
    /// Mover and observer tasks active concurrently.
    Running,
    /// The deadline has elapsed; each task finishes its current iteration.
    Draining,
    /// All tasks joined; tally and field are safe to read.
    Done,
}

/// Lifecycle events that move a run from one phase to the next.
#[derive(Clone, Copy, Debug, PartialEq, Eq, Structural)]
pub enum RunEvent {
    TasksSpawned,
    DeadlineElapsed,
    TasksJoined,
}

/// The options a run is configured with, fixed before any task starts.
#[derive(Clone, Copy, Debug)]
pub struct RunConfig {
    pub particle_count: usize,
    pub enclosure_size: u64,
    pub run_duration_ms: u64,
    pub collision_threshold: u64,
    pub mode: ConsistencyMode,
}

impl RunConfig {
    /// Machine bounds on the configuration.
    pub open spec fn wf(self) -> bool {
        self.particle_count <= MAX_PARTICLES && self.enclosure_size <= MAX_COORD
            && self.collision_threshold <= MAX_COORD
    }
}

/// Whether a task's poll loop may enter another iteration: it may exactly
/// when its own elapsed time is still below the configured duration.
pub open spec fn keeps_running(elapsed_ms: u64, duration_ms: u64) -> bool {
    elapsed_ms < duration_ms
}

/// The deadline check each task makes at the top of every loop iteration.
pub fn keep_running(elapsed_ms: u64, duration_ms: u64) -> (r: bool)
    ensures
        r == keeps_running(elapsed_ms, duration_ms),
{
    elapsed_ms < duration_ms
}

/// Law: a run configured with duration 0 never enters a loop body, whatever
/// elapsed time a task measures, so the run completes immediately.
pub proof fn lemma_zero_duration_halts(elapsed_ms: u64)
    ensures
        !keeps_running(elapsed_ms, 0),
{
}

/// The phase a run is in after an event. Spawning both tasks starts the run;
/// the elapsed deadline puts it into draining; joining every task ends it.
/// An event that does not apply to the current phase leaves it unchanged.
pub open spec fn phase_after(p: Phase, ev: RunEvent) -> Phase {
    match (p, ev) {
        (Phase::Idle, RunEvent::TasksSpawned) => Phase::Running,
        (Phase::Running, RunEvent::DeadlineElapsed) => Phase::Draining,
        (Phase::Draining, RunEvent::TasksJoined) => Phase::Done,
        _ => p,
    }
}

/// Advance the run lifecycle by one event.
pub fn next_phase(p: Phase, ev: RunEvent) -> (r: Phase)
    ensures
        r == phase_after(p, ev),
{
    match (p, ev) {
        (Phase::Idle, RunEvent::TasksSpawned) => Phase::Running,
        (Phase::Running, RunEvent::DeadlineElapsed) => Phase::Draining,
        (Phase::Draining, RunEvent::TasksJoined) => Phase::Done,
        _ => p,
    }
}

/// The sum of a sequence of per-scan collision counts.
pub open spec fn sum_of(s: Seq<u64>) -> int
    decreases s.len(),
{
    if s.len() == 0 {
        0
    } else {
        s[0] + sum_of(s.drop_first())
    }
}

/// Removing one scan from the sequence removes exactly its contribution.
pub proof fn lemma_sum_of_remove(s: Seq<u64>, i: int)
    requires
        0 <= i < s.len(),
    ensures
        sum_of(s) == s[i] + sum_of(s.remove(i)),
    decreases s.len(),
{
    if i == 0 {
        assert(s.remove(0) =~= s.drop_first());
    } else {
        let d = s.drop_first();
        lemma_sum_of_remove(d, i - 1);
        assert(s.remove(i).drop_first() =~= d.remove(i - 1));
        assert(s.remove(i)[0] == s[0]);
    }
}

/// Extending a prefix by one scan adds exactly that scan's count.
pub proof fn lemma_sum_of_take_step(s: Seq<u64>, i: int)
    requires
        0 <= i < s.len(),
    ensures
        sum_of(s.take(i + 1)) == sum_of(s.take(i)) + s[i],
    decreases i,
{
    if i == 0 {
        assert(s.take(0) =~= Seq::<u64>::empty());
        assert(s.take(1).drop_first() =~= Seq::<u64>::empty());
        assert(s.take(1)[0] == s[0]);
    } else {
        let d = s.drop_first();
        lemma_sum_of_take_step(d, i - 1);
        assert(s.take(i + 1)[0] == s[0]);
        assert(s.take(i)[0] == s[0]);
        assert(s.take(i + 1).drop_first() =~= d.take(i));
        assert(s.take(i).drop_first() =~= d.take(i - 1));
        assert(d[i - 1] == s[i]);
    }
}

/// Law: the tally a run reports is the sum of the collision counts of its
/// scans, whatever order the observer iterations folded them in. Two runs
/// whose scans are a permutation of each other report the same total.
pub proof fn lemma_tally_order_independent(s1: Seq<u64>, s2: Seq<u64>)
    requires
        s1.to_multiset() == s2.to_multiset(),
    ensures
        sum_of(s1) == sum_of(s2),
    decreases s1.len(),
{
    broadcast use vstd::seq_lib::group_to_multiset_ensures;

    if s1.len() == 0 {
        assert(s2.to_multiset().len() == 0);
    } else {
        let a = s1[0];
        assert(s1.to_multiset().count(a) > 0) by {
            assert(s1.contains(a));
        }
        assert(s2.contains(a));
        let k = choose|k: int| 0 <= k < s2.len() && s2[k] == a;
        assert(s1.remove(0).to_multiset() == s1.to_multiset().remove(a));
        assert(s2.remove(k).to_multiset() == s2.to_multiset().remove(a));
        assert(s1.remove(0) =~= s1.drop_first());
        lemma_tally_order_independent(s1.drop_first(), s2.remove(k));
        lemma_sum_of_remove(s2, k);
    }
}

} // verus!
