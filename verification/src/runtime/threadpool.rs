//! The decisions of a thread pool for short parallel loops: how many workers it
//! has, which task a worker takes next, and when a loop is over. The threads
//! themselves live outside of the library.

use vstd::prelude::*;

verus! {

/// The most workers that are started by default, to bound cache contention on
/// bigger machines.
pub const MAX_DEFAULT_WORKERS: usize = 8;

/// How many workers a pool has: as many as were asked for, if that is at least
/// one, or else the machine's parallelism, capped.
pub fn worker_count(requested: Option<usize>, available: usize) -> (n: usize)
    ensures
        n == (match requested {
            Some(r) if r >= 1 => r,
            _ => if available < 8 {
                available
            } else {
                8
            },
        }),
{
    if let Some(r) = requested {
        if r >= 1 {
            return r;
        }
    }
    if available < MAX_DEFAULT_WORKERS {
        available
    } else {
        MAX_DEFAULT_WORKERS
    }
}

/// A parallel loop over `n_tasks` tasks under way on `n_workers` workers.
///
/// Workers take tasks off a shared counter. Each worker that finds none left
/// reports once, and the last one to report ends the loop.
#[derive(Debug)]
pub struct ParallelLoop {
    n_tasks: usize,
    n_workers: usize,
    next_task: usize,
    finished: usize,
}

/// What a [`ParallelLoop`] has come to.
#[verifier::ext_equal]
pub struct LoopState {
    pub n_tasks: nat,
    pub n_workers: nat,
    /// The tasks that were handed out, in order.
    pub handed_out: nat,
    /// How many workers have reported.
    pub finished: nat,
}

impl View for ParallelLoop {
    type V = LoopState;

    closed spec fn view(&self) -> LoopState {
        LoopState {
            n_tasks: self.n_tasks as nat,
            n_workers: self.n_workers as nat,
            handed_out: self.next_task as nat,
            finished: self.finished as nat,
        }
    }
}

impl ParallelLoop {
    /// No more tasks are handed out than there are, nor do more workers
    /// report.
    pub open spec fn wf(&self) -> bool {
        self@.handed_out <= self@.n_tasks && self@.finished <= self@.n_workers
    }

    /// A loop that has not started.
    pub fn new(n_tasks: usize, n_workers: usize) -> (l: Self)
        ensures
            l.wf(),
            l@ == (LoopState {
                n_tasks: n_tasks as nat,
                n_workers: n_workers as nat,
                handed_out: 0,
                finished: 0,
            }),
    {
        ParallelLoop { n_tasks, n_workers, next_task: 0, finished: 0 }
    }

    /// The next task that no worker has taken, if there is one.
    pub fn claim(&mut self) -> (task: Option<usize>)
        requires
            old(self).wf(),
        ensures
            final(self).wf(),
            old(self)@.handed_out < old(self)@.n_tasks ==> {
                &&& task == Some(old(self)@.handed_out as usize)
                &&& final(self)@ == (LoopState {
                    handed_out: old(self)@.handed_out + 1,
                    ..old(self)@
                })
            },
            old(self)@.handed_out == old(self)@.n_tasks ==> task is None && final(self)@ == old(
                self,
            )@,
    {
        if self.next_task < self.n_tasks {
            let t: usize = self.next_task;
            self.next_task = t + 1;
            Some(t)
        } else {
            None
        }
    }

    /// A worker reports that it found no more tasks. True for the last one,
    /// which wakes the caller.
    pub fn report(&mut self) -> (last: bool)
        requires
            old(self).wf(),
            old(self)@.finished < old(self)@.n_workers,
        ensures
            final(self).wf(),
            final(self)@ == (LoopState { finished: old(self)@.finished + 1, ..old(self)@ }),
            last == (old(self)@.finished + 1 == old(self)@.n_workers),
    {
        self.finished = self.finished + 1;
        self.finished == self.n_workers
    }

    /// Whether every worker has reported.
    pub fn is_over(&self) -> (b: bool)
        ensures
            b == (self@.finished >= self@.n_workers),
    {
        self.finished >= self.n_workers
    }
}

/// The task that a claim in some state hands out.
pub open spec fn handed(s: LoopState) -> Option<nat> {
    if s.handed_out < s.n_tasks {
        Some(s.handed_out)
    } else {
        None
    }
}

/// The state after `n` claims, in whatever order the workers make them.
pub open spec fn after_claims(s: LoopState, n: nat) -> LoopState
    decreases n,
{
    if n == 0 {
        s
    } else {
        let t = after_claims(s, (n - 1) as nat);
        if t.handed_out < t.n_tasks {
            LoopState { handed_out: t.handed_out + 1, ..t }
        } else {
            t
        }
    }
}

/// Every task runs exactly once: the `i`-th claim hands out task `i`, for as
/// many claims as there are tasks, and every later claim hands out none.
pub proof fn lemma_every_task_once(n_tasks: nat, n_workers: nat, i: nat)
    ensures
        ({
            let start = LoopState { n_tasks, n_workers, handed_out: 0, finished: 0 };
            handed(after_claims(start, i)) == (if i < n_tasks {
                Some(i)
            } else {
                None::<nat>
            })
        }),
{
    lemma_claims(LoopState { n_tasks, n_workers, handed_out: 0, finished: 0 }, i);
}

proof fn lemma_claims(start: LoopState, i: nat)
    requires
        start.handed_out == 0,
    ensures
        after_claims(start, i).n_tasks == start.n_tasks,
        after_claims(start, i).handed_out == (if i < start.n_tasks {
            i
        } else {
            start.n_tasks
        }),
    decreases i,
{
    if i > 0 {
        lemma_claims(start, (i - 1) as nat);
    }
}

} // verus!
