//! The shared mutable state of an evaluation: atoms (cells with atomic
//! read-modify-write), channels (bounded FIFO queues with ordered wait
//! queues), and the cooperative task queue that `spawn` feeds.

use vstd::prelude::*;

use crate::expression::Environment;
use crate::expression::ExprV;
use crate::expression::Expression;
use crate::expression::view_exprs;

verus! {

broadcast use vstd::std_specs::vec::group_vec_axioms, vstd::seq::group_seq_axioms;

/// One channel: a bounded buffer and the two wait queues, each first in,
/// first out.  A capacity of zero means rendezvous only.
pub struct ChannelState {
    pub capacity: usize,
    pub buffer: Vec<Expression>,
    pub takers: Vec<u64>,
    pub putters: Vec<(u64, Expression)>,
}

impl ChannelState {
    /// The logical first-in-first-out content: buffered values first, then
    /// the values of waiting putters in arrival order.
    pub open spec fn queue(self) -> Seq<ExprV> {
        view_exprs(self.buffer@) + putter_values(self.putters@)
    }
}

/// The values waiting putters carry, in arrival order.
pub open spec fn putter_values(ps: Seq<(u64, Expression)>) -> Seq<ExprV>
    decreases ps,
{
    if ps.len() == 0 {
        Seq::empty()
    } else {
        putter_values(ps.drop_last()).push(ps.last().1@)
    }
}

/// The putter-value view acts pointwise.
pub proof fn lemma_putter_values(ps: Seq<(u64, Expression)>)
    ensures
        putter_values(ps).len() == ps.len(),
        forall|i: int| 0 <= i < ps.len() ==> putter_values(ps)[i] == ps[i].1@,
    decreases ps.len(),
{
    if ps.len() > 0 {
        lemma_putter_values(ps.drop_last());
    }
}

/// The value of the earliest finished entry carrying a task identity.
pub open spec fn finished_lookup(fin: Seq<(u64, Expression)>, id: u64) -> Option<ExprV>
    decreases fin.len(),
{
    if fin.len() == 0 {
        None
    } else if fin[0].0 == id {
        Some(fin[0].1@)
    } else {
        finished_lookup(fin.drop_first(), id)
    }
}

/// A spawned evaluation waiting to run: a snapshot of the environment and
/// the expression to evaluate.
pub struct Task {
    pub id: u64,
    pub env: Environment,
    pub body: Expression,
}

/// The shared mutable state of an evaluation, and the host's side of the
/// native-function boundary: `supplied` holds, in call order, the results
/// of the native calls the host has already performed, and `used` counts
/// how many of them this evaluation has consumed.  A native call whose
/// result is not yet supplied surfaces as a `"native"` effect; the host
/// performs it, supplies the result, and replays the evaluation against a
/// copy of the store it started from.
pub struct Store {
    pub atoms: Vec<Expression>,
    pub channels: Vec<ChannelState>,
    pub pending: Vec<Task>,
    pub finished: Vec<(u64, Expression)>,
    pub next_task: u64,
    pub supplied: Vec<Expression>,
    pub used: usize,
}

/// What became of an offered value.
pub enum PutOutcome {
    /// A waiting taker consumed it; the taker's task completes with it.
    Delivered(u64),
    /// The buffer had room.
    Buffered,
    /// Neither: the putter must wait.
    Blocked,
}

/// What a poll of the channel produced.
pub enum TakeOutcome {
    /// The front of the queue, and the putter task that advanced into the
    /// buffer or rendezvoused, if any.
    Value(Expression, Option<u64>),
    /// Nothing is available: the taker must wait.
    Blocked,
}

impl Store {
    /// A fresh store with no cells, channels or tasks.
    pub fn new() -> (r: Store)
        ensures
            r.atoms@.len() == 0,
            r.channels@.len() == 0,
            r.pending@.len() == 0,
            r.finished@.len() == 0,
            r.supplied@.len() == 0,
            r.used == 0,
    {
        Store {
            atoms: Vec::new(),
            channels: Vec::new(),
            pending: Vec::new(),
            finished: Vec::new(),
            next_task: 1,
            supplied: Vec::new(),
            used: 0,
        }
    }

    /// Hands the evaluator the result of the next native call the host has
    /// performed: it joins the back of the supplied queue.
    pub fn supply_native(&mut self, v: Expression)
        ensures
            final(self).supplied@.len() == old(self).supplied@.len() + 1,
            final(self).supplied@[old(self).supplied@.len() as int]@ == v@,
            forall|j: int| 0 <= j < old(self).supplied@.len() ==> final(self).supplied@[j]
                == old(self).supplied@[j],
            final(self).used == old(self).used,
            final(self).atoms@ == old(self).atoms@,
            final(self).channels@ == old(self).channels@,
            final(self).pending@ == old(self).pending@,
            final(self).finished@ == old(self).finished@,
            final(self).next_task == old(self).next_task,
    {
        self.supplied.push(v);
    }

    /// Allocates a cell holding `v` and returns its identity.
    pub fn atom_new(&mut self, v: Expression) -> (r: u64)
        requires
            old(self).atoms@.len() < 0xffff_ffff_ffff_ffff,
        ensures
            r as int == old(self).atoms@.len(),
            final(self).atoms@ == old(self).atoms@.push(v),
            final(self).channels@ == old(self).channels@,
            final(self).pending@ == old(self).pending@,
            final(self).finished@ == old(self).finished@,
            final(self).next_task == old(self).next_task,
    {
        let id = self.atoms.len() as u64;
        self.atoms.push(v);
        id
    }

    /// Reads the current value of a cell.
    pub fn atom_get(&self, id: u64) -> (r: Option<Expression>)
        ensures
            (id as int) < self.atoms@.len() ==> (r matches Some(v) && v@ == self.atoms@[
                id as int
            ]@),
            (id as int) >= self.atoms@.len() ==> r is None,
    {
        if id < self.atoms.len() as u64 {
            Some(self.atoms[id as usize].duplicate())
        } else {
            None
        }
    }

    /// Writes a cell; the read of the old value and this write stand in one
    /// uninterrupted step of the cooperative schedule.
    pub fn atom_set(&mut self, id: u64, v: Expression)
        requires
            (id as int) < old(self).atoms@.len(),
        ensures
            final(self).atoms@ == old(self).atoms@.update(id as int, v),
            final(self).channels@ == old(self).channels@,
            final(self).pending@ == old(self).pending@,
            final(self).finished@ == old(self).finished@,
            final(self).next_task == old(self).next_task,
    {
        let n = self.atoms.len();
        proof {
            assert(id < n);
        }
        let i: usize = id as usize;
        self.atoms[i] = v;
    }

    /// Allocates a channel with the given capacity; zero means rendezvous.
    pub fn chan_new(&mut self, capacity: usize) -> (r: u64)
        requires
            old(self).channels@.len() < 0xffff_ffff_ffff_ffff,
        ensures
            r as int == old(self).channels@.len(),
            final(self).channels@.len() == old(self).channels@.len() + 1,
            final(self).channels@[r as int].queue() =~= Seq::<ExprV>::empty(),
            final(self).channels@[r as int].capacity == capacity,
            forall|j: int| 0 <= j < old(self).channels@.len() ==> final(self).channels@[j]
                == old(self).channels@[j],
            final(self).atoms@ == old(self).atoms@,
            final(self).pending@ == old(self).pending@,
            final(self).finished@ == old(self).finished@,
            final(self).next_task == old(self).next_task,
    {
        let id = self.channels.len() as u64;
        let c = ChannelState {
            capacity,
            buffer: Vec::new(),
            takers: Vec::new(),
            putters: Vec::new(),
        };
        proof {
            assert(c.queue() =~= Seq::<ExprV>::empty());
        }
        self.channels.push(c);
        id
    }

    /// Schedules an expression for evaluation with a snapshot of the current
    /// environment; returns the opaque handle of the task.
    pub fn spawn_task(&mut self, env: Environment, body: Expression) -> (r: u64)
        ensures
            r == old(self).next_task,
            final(self).pending@.len() == old(self).pending@.len() + 1,
            final(self).pending@[old(self).pending@.len() as int].env@ == env@,
            final(self).pending@[old(self).pending@.len() as int].body@ == body@,
            final(self).atoms@ == old(self).atoms@,
            final(self).channels@ == old(self).channels@,
            final(self).finished@ == old(self).finished@,
    {
        let id = self.next_task;
        self.next_task = if self.next_task < 0xffff_ffff_ffff_ffff {
            self.next_task + 1
        } else {
            self.next_task
        };
        self.pending.push(Task { id, env, body });
        id
    }

    /// The result a finished task observed, if it has completed: the value
    /// of the earliest finished entry carrying the task's identity.
    pub fn task_result(&self, id: u64) -> (r: Option<Expression>)
        ensures
            match r {
                Some(v) => finished_lookup(self.finished@, id) == Some(v@),
                None => finished_lookup(self.finished@, id) is None,
            },
    {
        proof {
            assert(self.finished@.skip(0) =~= self.finished@);
        }
        let mut i: usize = 0;
        while i < self.finished.len()
            invariant
                i <= self.finished@.len(),
                finished_lookup(self.finished@, id) == finished_lookup(
                    self.finished@.skip(i as int),
                    id,
                ),
            decreases self.finished@.len() - i,
        {
            proof {
                assert(self.finished@.skip(i as int)[0] == self.finished@[i as int]);
                assert(self.finished@.skip(i as int).drop_first() =~= self.finished@.skip(
                    i as int + 1,
                ));
            }
            if self.finished[i].0 == id {
                return Some(self.finished[i].1.duplicate());
            }
            i = i + 1;
        }
        proof {
            assert(self.finished@.skip(self.finished@.len() as int) =~= Seq::<(
                u64,
                Expression,
            )>::empty());
        }
        None
    }
}

/// Copies a vector of wait-queue identities.
fn dup_ids(v: &Vec<u64>) -> (r: Vec<u64>)
    ensures
        r@ == v@,
{
    let mut out: Vec<u64> = Vec::new();
    let mut i: usize = 0;
    while i < v.len()
        invariant
            i <= v@.len(),
            out@.len() == i,
            forall|j: int| 0 <= j < i ==> out@[j] == v@[j],
        decreases v@.len() - i,
    {
        out.push(v[i]);
        i = i + 1;
    }
    proof {
        assert(out@ =~= v@);
    }
    out
}

/// Copies a vector of tagged values, preserving tags and viewed values.
fn dup_tagged(v: &Vec<(u64, Expression)>) -> (r: Vec<(u64, Expression)>)
    ensures
        r@.len() == v@.len(),
        forall|j: int| 0 <= j < v@.len() ==> (#[trigger] r@[j]).0 == v@[j].0 && r@[j].1@
            == v@[j].1@,
        putter_values(r@) == putter_values(v@),
{
    let mut out: Vec<(u64, Expression)> = Vec::new();
    let mut i: usize = 0;
    while i < v.len()
        invariant
            i <= v@.len(),
            out@.len() == i,
            forall|j: int| 0 <= j < i ==> (#[trigger] out@[j]).0 == v@[j].0 && out@[j].1@
                == v@[j].1@,
        decreases v@.len() - i,
    {
        out.push((v[i].0, v[i].1.duplicate()));
        i = i + 1;
    }
    proof {
        lemma_putter_values(out@);
        lemma_putter_values(v@);
        assert(putter_values(out@) =~= putter_values(v@));
    }
    out
}

/// Copies a vector of scheduled tasks, preserving identities and snapshots.
fn dup_tasks(v: &Vec<Task>) -> (r: Vec<Task>)
    ensures
        r@.len() == v@.len(),
        forall|j: int| 0 <= j < v@.len() ==> (#[trigger] r@[j]).id == v@[j].id && r@[j].env@
            == v@[j].env@ && r@[j].body@ == v@[j].body@,
{
    let mut out: Vec<Task> = Vec::new();
    let mut i: usize = 0;
    while i < v.len()
        invariant
            i <= v@.len(),
            out@.len() == i,
            forall|j: int| 0 <= j < i ==> (#[trigger] out@[j]).id == v@[j].id && out@[j].env@
                == v@[j].env@ && out@[j].body@ == v@[j].body@,
        decreases v@.len() - i,
    {
        out.push(
            Task { id: v[i].id, env: v[i].env.duplicate(), body: v[i].body.duplicate() },
        );
        i = i + 1;
    }
    out
}

impl ChannelState {
    /// Copies a channel, preserving its capacity, queue and wait queues.
    pub fn duplicate(&self) -> (r: ChannelState)
        ensures
            r.capacity == self.capacity,
            r.takers@ == self.takers@,
            r.queue() == self.queue(),
    {
        let r = ChannelState {
            capacity: self.capacity,
            buffer: crate::expression::dup_items(&self.buffer),
            takers: dup_ids(&self.takers),
            putters: dup_tagged(&self.putters),
        };
        proof {
            assert(r.queue() =~= self.queue());
        }
        r
    }
}

impl Store {
    /// Copies the whole store: the host snapshots it before an evaluation
    /// attempt, so a `"native"` suspension can be replayed against the
    /// state the attempt started from.
    pub fn duplicate(&self) -> (r: Store)
        ensures
            view_exprs(r.atoms@) == view_exprs(self.atoms@),
            r.channels@.len() == self.channels@.len(),
            forall|j: int| 0 <= j < self.channels@.len() ==> (#[trigger] r.channels@[j]).capacity
                == self.channels@[j].capacity && r.channels@[j].queue()
                == self.channels@[j].queue() && r.channels@[j].takers@
                == self.channels@[j].takers@,
            r.pending@.len() == self.pending@.len(),
            forall|j: int| 0 <= j < self.pending@.len() ==> (#[trigger] r.pending@[j]).id
                == self.pending@[j].id && r.pending@[j].env@ == self.pending@[j].env@
                && r.pending@[j].body@ == self.pending@[j].body@,
            r.finished@.len() == self.finished@.len(),
            forall|j: int| 0 <= j < self.finished@.len() ==> (#[trigger] r.finished@[j]).0
                == self.finished@[j].0 && r.finished@[j].1@ == self.finished@[j].1@,
            r.next_task == self.next_task,
            r.supplied@.len() == self.supplied@.len(),
            forall|j: int| 0 <= j < self.supplied@.len() ==> (#[trigger] r.supplied@[j])@
                == self.supplied@[j]@,
            r.used == self.used,
    {
        let mut channels: Vec<ChannelState> = Vec::new();
        let mut i: usize = 0;
        while i < self.channels.len()
            invariant
                i <= self.channels@.len(),
                channels@.len() == i,
                forall|j: int| 0 <= j < i ==> (#[trigger] channels@[j]).capacity
                    == self.channels@[j].capacity && channels@[j].queue()
                    == self.channels@[j].queue() && channels@[j].takers@
                    == self.channels@[j].takers@,
            decreases self.channels@.len() - i,
        {
            channels.push(self.channels[i].duplicate());
            i = i + 1;
        }
        let atoms = crate::expression::dup_items(&self.atoms);
        let supplied = crate::expression::dup_items(&self.supplied);
        proof {
            crate::expression::lemma_view_exprs(atoms@);
            crate::expression::lemma_view_exprs(self.atoms@);
            crate::expression::lemma_view_exprs(supplied@);
            crate::expression::lemma_view_exprs(self.supplied@);
            assert(supplied@.len() == self.supplied@.len());
            assert forall|j: int| 0 <= j < self.supplied@.len() implies (#[trigger] supplied@[j])@
                == self.supplied@[j]@ by {
                assert(view_exprs(supplied@)[j] == crate::expression::view_expr(supplied@[j]));
                assert(view_exprs(self.supplied@)[j] == crate::expression::view_expr(
                    self.supplied@[j],
                ));
            }
        }
        Store {
            atoms,
            channels,
            pending: dup_tasks(&self.pending),
            finished: dup_tagged(&self.finished),
            next_task: self.next_task,
            supplied,
            used: self.used,
        }
    }
}

impl ChannelState {
    /// Offers a value.  A waiting taker consumes it at once and the queue is
    /// unchanged; otherwise it joins the back of the queue, buffered when
    /// there is room, carried by a waiting putter entry when there is not.
    pub fn offer(&mut self, v: Expression, from_task: u64) -> (r: PutOutcome)
        ensures
            match r {
                PutOutcome::Delivered(taker) => {
                    &&& old(self).takers@.len() > 0
                    &&& taker == old(self).takers@[0]
                    &&& final(self).takers@ == old(self).takers@.drop_first()
                    &&& final(self).queue() == old(self).queue()
                    &&& old(self).queue().len() == 0
                },
                PutOutcome::Buffered => {
                    &&& final(self).takers@ == old(self).takers@
                    &&& final(self).queue() == old(self).queue().push(v@)
                },
                PutOutcome::Blocked => {
                    &&& final(self).takers@ == old(self).takers@
                    &&& final(self).queue() == old(self).queue().push(v@)
                },
            },
            final(self).capacity == old(self).capacity,
    {
        proof {
            crate::expression::lemma_view_exprs(self.buffer@);
            lemma_putter_values(self.putters@);
        }
        if self.takers.len() > 0 && self.buffer.len() == 0 && self.putters.len() == 0 {
            let taker = self.takers.remove(0);
            proof {
                assert(final(self).queue() =~= old(self).queue());
                assert(old(self).queue() =~= Seq::<ExprV>::empty());
            }
            PutOutcome::Delivered(taker)
        } else if self.buffer.len() < self.capacity && self.putters.len() == 0 {
            let ghost pre = *self;
            self.buffer.push(v);
            proof {
                crate::expression::lemma_view_exprs(self.buffer@);
                crate::expression::lemma_view_exprs(pre.buffer@);
                assert(final(self).queue() =~= pre.queue().push(v@));
            }
            PutOutcome::Buffered
        } else {
            let ghost pre = *self;
            self.putters.push((from_task, v));
            proof {
                lemma_putter_values(self.putters@);
                lemma_putter_values(pre.putters@);
                assert(final(self).queue() =~= pre.queue().push(v@));
            }
            PutOutcome::Blocked
        }
    }

    /// Polls for a value: the front of the logical queue when one is there,
    /// waking the earliest waiting putter into the freed room.
    pub fn poll(&mut self) -> (r: TakeOutcome)
        ensures
            match r {
                TakeOutcome::Value(v, woken) => {
                    &&& old(self).queue().len() > 0
                    &&& v@ == old(self).queue()[0]
                    &&& final(self).queue() == old(self).queue().drop_first()
                    &&& final(self).takers@ == old(self).takers@
                },
                TakeOutcome::Blocked => {
                    &&& old(self).queue().len() == 0
                    &&& final(self).queue() == old(self).queue()
                    &&& final(self).takers@ == old(self).takers@
                },
            },
            final(self).capacity == old(self).capacity,
    {
        proof {
            crate::expression::lemma_view_exprs(self.buffer@);
            lemma_putter_values(self.putters@);
        }
        if self.buffer.len() > 0 {
            let v = self.buffer.remove(0);
            let ghost mid = *self;
            proof {
                crate::expression::lemma_view_exprs(self.buffer@);
            }
            if self.putters.len() > 0 && self.buffer.len() < self.capacity {
                let (who, carried) = self.putters.remove(0);
                self.buffer.push(carried);
                proof {
                    crate::expression::lemma_view_exprs(self.buffer@);
                    crate::expression::lemma_view_exprs(mid.buffer@);
                    lemma_putter_values(self.putters@);
                    lemma_putter_values(mid.putters@);
                    assert(final(self).queue() =~= old(self).queue().drop_first());
                }
                TakeOutcome::Value(v, Some(who))
            } else {
                proof {
                    assert(final(self).queue() =~= old(self).queue().drop_first());
                }
                TakeOutcome::Value(v, None)
            }
        } else if self.putters.len() > 0 {
            let (who, carried) = self.putters.remove(0);
            proof {
                lemma_putter_values(self.putters@);
                lemma_putter_values(old(self).putters@);
                assert(final(self).queue() =~= old(self).queue().drop_first());
                assert(carried@ == old(self).queue()[0]);
            }
            TakeOutcome::Value(carried, Some(who))
        } else {
            proof {
                assert(old(self).queue().len() == 0);
            }
            TakeOutcome::Blocked
        }
    }

    /// Enqueues a waiting taker at the back of the taker queue.
    pub fn wait_take(&mut self, id: u64)
        ensures
            final(self).takers@ == old(self).takers@.push(id),
            final(self).queue() == old(self).queue(),
            final(self).capacity == old(self).capacity,
    {
        self.takers.push(id);
    }
}

/// Successive offers paired with successive polls hand the values out in
/// arrival order: after offering `v1` then `v2` to an idle channel, the
/// first poll yields `v1` and the second `v2`.
pub proof fn lemma_channel_fifo(q0: Seq<ExprV>, v1: ExprV, v2: ExprV)
    requires
        q0.len() == 0,
    ensures
        q0.push(v1).push(v2)[0] == v1,
        q0.push(v1).push(v2).drop_first()[0] == v2,
        q0.push(v1).push(v2).drop_first().drop_first() =~= q0,
{
}

/// A chain of atomic increments of one cell raises it by the number of
/// increments: each step reads the cell, adds one, and writes it back
/// without an intervening suspension.
pub proof fn lemma_atom_increments(states: Seq<Seq<Expression>>, a: int, v0: int)
    requires
        states.len() >= 1,
        0 <= a,
        forall|s: Seq<Expression>| #[trigger] states.contains(s) ==> a < s.len(),
        a < states[0].len(),
        states[0][a]@ == ExprV::Integer(v0 as i64),
        v0 + states.len() <= 0x7fff_ffff_ffff_ffff,
        -0x8000_0000_0000_0000 <= v0,
        forall|i: int| #![trigger states[i]] 0 <= i < states.len() - 1 ==> increment_step(
            states[i],
            states[i + 1],
            a,
        ),
    ensures
        a < states.last().len() && states.last()[a]@ == ExprV::Integer(
            (v0 + states.len() - 1) as i64,
        ),
    decreases states.len(),
{
    if states.len() == 1 {
    } else {
        let prefix = states.drop_last();
        assert(forall|s: Seq<Expression>| #[trigger] prefix.contains(s) ==> states.contains(s))
            by {
            assert(forall|i: int| 0 <= i < prefix.len() ==> prefix[i] == states[i]);
        }
        assert(forall|i: int| #![trigger prefix[i]] 0 <= i < prefix.len() - 1 ==> increment_step(
            prefix[i],
            prefix[i + 1],
            a,
        )) by {
            assert(forall|i: int| 0 <= i < prefix.len() ==> prefix[i] == states[i]);
        }
        lemma_atom_increments(prefix, a, v0);
        assert(states.contains(states.last())) by {
            assert(states[states.len() - 1] == states.last());
        }
        assert(increment_step(states[states.len() - 2], states[states.len() - 1], a));
        assert(prefix.last() == states[states.len() - 2]);
    }
}

/// One atomic read-modify-write that adds one to the cell `a` and leaves
/// every other cell alone.
pub open spec fn increment_step(pre: Seq<Expression>, post: Seq<Expression>, a: int) -> bool {
    &&& 0 <= a < pre.len()
    &&& post.len() == pre.len()
    &&& (pre[a]@ matches ExprV::Integer(v) && v < 0x7fff_ffff_ffff_ffff && post[a]@
        == ExprV::Integer((v + 1) as i64))
    &&& forall|j: int| 0 <= j < pre.len() && j != a ==> post[j] == pre[j]
}

} // verus!
