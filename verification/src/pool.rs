//! The dispatch queue of the worker pool.
//!
//! A fixed set of workers drains one shared queue of connection-handling
//! tasks. The queue is the only structure the workers share, and what
//! correctness asks of it is exactly-once delivery: a submitted task is
//! never dropped and never handed out twice. The queue here carries that
//! property; the binary wraps it in a lock and a condition variable and
//! blocks workers on it.
//!
//! Alongside the live queue the type carries the history of what was
//! submitted and what was already delivered, so that delivery can be
//! stated over whole runs and not only single calls.

use vstd::prelude::*;
use vstd::seq_lib::lemma_multiset_commutative;

verus! {

/// A first-in-first-out queue of tasks with its delivery history.
pub struct TaskQueue<T> {
    /// The tasks submitted and not yet handed to a worker, oldest first.
    pending: Vec<T>,
    /// Every task ever submitted, in order.
    submitted: Ghost<Seq<T>>,
    /// Every task already handed to a worker, in order.
    delivered: Ghost<Seq<T>>,
}

impl<T> TaskQueue<T> {
    /// The tasks not yet handed out, oldest first.
    pub closed spec fn pending_tasks(self) -> Seq<T> {
        self.pending@
    }

    /// Every task ever submitted, in order.
    pub closed spec fn submitted_tasks(self) -> Seq<T> {
        self.submitted@
    }

    /// Every task already handed out, in order.
    pub closed spec fn delivered_tasks(self) -> Seq<T> {
        self.delivered@
    }

    /// The queue's invariant: the submissions are exactly the deliveries
    /// followed by what is still pending — no task lost, none duplicated.
    pub closed spec fn wf(self) -> bool {
        self.submitted@ == self.delivered@ + self.pending@
    }

    /// An empty queue with an empty history.
    pub fn new() -> (q: Self)
        ensures
            q.wf(),
            q.submitted_tasks() == Seq::<T>::empty(),
            q.delivered_tasks() == Seq::<T>::empty(),
            q.pending_tasks() == Seq::<T>::empty(),
    {
        let q = TaskQueue {
            pending: Vec::new(),
            submitted: Ghost(Seq::empty()),
            delivered: Ghost(Seq::empty()),
        };
        proof {
            assert(q.submitted@ =~= q.delivered@ + q.pending@);
        }
        q
    }

    /// Enqueues a task. A submitted task is never dropped: it joins the
    /// pending tasks and the submission history, and nothing else moves.
    pub fn submit(&mut self, t: T)
        requires
            old(self).wf(),
        ensures
            final(self).wf(),
            final(self).submitted_tasks() == old(self).submitted_tasks().push(t),
            final(self).delivered_tasks() == old(self).delivered_tasks(),
            final(self).pending_tasks() == old(self).pending_tasks().push(t),
    {
        let ghost t0 = t;
        self.pending.push(t);
        proof {
            self.submitted@ = self.submitted@.push(t0);
            assert(self.submitted@ =~= self.delivered@ + self.pending@);
        }
    }

    /// Hands out the oldest pending task, or nothing when the queue is
    /// empty. A handed-out task moves from pending to delivered, so no
    /// later call can hand it out again.
    pub fn take(&mut self) -> (r: Option<T>)
        requires
            old(self).wf(),
        ensures
            final(self).wf(),
            final(self).submitted_tasks() == old(self).submitted_tasks(),
            (match r {
                Option::None => {
                    &&& old(self).pending_tasks().len() == 0
                    &&& final(self).pending_tasks() == old(self).pending_tasks()
                    &&& final(self).delivered_tasks() == old(self).delivered_tasks()
                },
                Option::Some(t) => {
                    &&& old(self).pending_tasks().len() > 0
                    &&& t == old(self).pending_tasks()[0]
                    &&& final(self).pending_tasks() == old(self).pending_tasks().drop_first()
                    &&& final(self).delivered_tasks() == old(self).delivered_tasks().push(t)
                },
            }),
    {
        if self.pending.len() == 0 {
            None
        } else {
            let t = self.pending.remove(0);
            let ghost t0 = t;
            proof {
                self.delivered@ = self.delivered@.push(t0);
                assert(old(self).pending@.remove(0) =~= old(self).pending@.drop_first());
                assert(self.submitted@ =~= self.delivered@ + self.pending@);
            }
            Some(t)
        }
    }

    /// How many tasks are pending.
    pub fn pending_len(&self) -> (n: usize)
        ensures
            n == self.pending_tasks().len(),
    {
        self.pending.len()
    }
}

/// Exactly-once delivery over a whole run: however many tasks were
/// submitted and in whatever order workers took them, the tasks submitted
/// are — as a multiset — exactly those delivered plus those still pending;
/// and once the queue has drained, the deliveries are the submissions
/// themselves, each task exactly once, in submission order.
pub proof fn lemma_exactly_once<T>(q: TaskQueue<T>)
    requires
        q.wf(),
    ensures
        q.submitted_tasks().to_multiset() == q.delivered_tasks().to_multiset().add(
            q.pending_tasks().to_multiset(),
        ),
        q.pending_tasks().len() == 0 ==> q.delivered_tasks() == q.submitted_tasks(),
{
    lemma_multiset_commutative(q.delivered_tasks(), q.pending_tasks());
    if q.pending_tasks().len() == 0 {
        assert(q.delivered_tasks() + q.pending_tasks() =~= q.delivered_tasks());
    }
}

} // verus!
