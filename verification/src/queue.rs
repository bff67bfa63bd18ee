//! The deferred task queue: an insertion-order-preserving mailbox between
//! the interceptor (producer) and the periodic drain callback (consumer).
//!
//! The queue itself is single-threaded data; the caller shares it behind an
//! exclusive lock and holds the lock exactly for the duration of one call
//! into it, never across the processing of a drained task.

use vstd::prelude::*;
use vstd::multiset::Multiset;
use crate::task::{Task, TaskView};

verus! {

/// The views of a sequence of tasks, in the same order.
pub open spec fn views_of(s: Seq<Task>) -> Seq<TaskView> {
    s.map_values(|t: Task| t@)
}

/// The tasks of `s` whose action identifier is `id`, in their order in `s`.
pub open spec fn matching(s: Seq<TaskView>, id: int) -> Seq<TaskView> {
    s.filter(|tv: TaskView| tv.act_id == id)
}

/// The tasks of `s` whose action identifier is not `id`, in their order in `s`.
pub open spec fn remaining(s: Seq<TaskView>, id: int) -> Seq<TaskView> {
    s.filter(|tv: TaskView| tv.act_id != id)
}

/// An ordered collection of pending tasks.  Every task it holds was fully
/// constructed before insertion; removal preserves the relative order of the
/// tasks that stay.
pub struct TaskQueue {
    tasks: Vec<Task>,
}

impl View for TaskQueue {
    type V = Seq<TaskView>;

    closed spec fn view(&self) -> Seq<TaskView> {
        views_of(self.tasks@)
    }
}

impl TaskQueue {
    /// An empty queue.
    pub fn new() -> (q: TaskQueue)
        ensures
            q@ == Seq::<TaskView>::empty(),
    {
        let q = TaskQueue { tasks: Vec::new() };
        proof {
            assert(q@ =~= Seq::<TaskView>::empty());
        }
        q
    }

    /// How many tasks are pending.
    pub fn len(&self) -> (n: usize)
        ensures
            n == self@.len(),
    {
        self.tasks.len()
    }

    /// Appends one task at the back of the queue; the tasks already queued
    /// keep their places.
    pub fn enqueue(&mut self, t: Task)
        ensures
            final(self)@ == old(self)@.push(t@),
    {
        self.tasks.push(t);
        proof {
            assert(self@ =~= old(self)@.push(t@));
        }
    }

    /// Removes and returns, in one pass, every task whose action identifier
    /// is `act_id`.  Both the drained tasks and the tasks left behind keep
    /// their relative order.
    pub fn drain_matching(&mut self, act_id: i32) -> (drained: Vec<Task>)
        ensures
            views_of(drained@) == matching(old(self)@, act_id as int),
            final(self)@ == remaining(old(self)@, act_id as int),
    {
        let ghost orig: Seq<TaskView> = self@;
        let mut drained: Vec<Task> = Vec::new();
        let mut kept: Vec<Task> = Vec::new();
        let ghost mut i: int = 0;
        proof {
            assert(views_of(self.tasks@) =~= orig.skip(0));
            assert(orig.take(0) =~= Seq::<TaskView>::empty());
            lemma_filter_empty(act_id as int);
        }
        while self.tasks.len() > 0
            invariant
                0 <= i <= orig.len(),
                views_of(self.tasks@) == orig.skip(i),
                views_of(drained@) == matching(orig.take(i), act_id as int),
                views_of(kept@) == remaining(orig.take(i), act_id as int),
            decreases self.tasks@.len(),
        {
            proof {
                assert(orig.skip(i).len() == orig.len() - i);
                assert(views_of(self.tasks@)[0] == self.tasks@[0]@);
                assert(orig.skip(i)[0] == orig[i]);
            }
            let ghost pre: Seq<Task> = self.tasks@;
            let t = self.tasks.remove(0);
            proof {
                assert(t@ == orig[i]);
                assert forall|k: int| 0 <= k < self.tasks@.len() implies views_of(
                    self.tasks@,
                )[k] == orig.skip(i + 1)[k] by {
                    assert(self.tasks@[k] == pre[k + 1]);
                    assert(views_of(pre)[k + 1] == pre[k + 1]@);
                    assert(views_of(pre)[k + 1] == orig.skip(i)[k + 1]);
                    assert(orig.skip(i)[k + 1] == orig[i + k + 1]);
                    assert(orig.skip(i + 1)[k] == orig[i + 1 + k]);
                }
                assert(views_of(self.tasks@) =~= orig.skip(i + 1));
                lemma_filter_take_step(orig, act_id as int, i);
            }
            if t.act_id == act_id {
                drained.push(t);
                proof {
                    assert(views_of(drained@) =~= matching(orig.take(i + 1), act_id as int));
                    assert(views_of(kept@) =~= remaining(orig.take(i + 1), act_id as int));
                }
            } else {
                kept.push(t);
                proof {
                    assert(views_of(drained@) =~= matching(orig.take(i + 1), act_id as int));
                    assert(views_of(kept@) =~= remaining(orig.take(i + 1), act_id as int));
                }
            }
            proof {
                i = i + 1;
            }
        }
        proof {
            assert(orig.skip(i).len() == orig.len() - i);
            assert(i == orig.len());
            assert(orig.take(i) =~= orig);
        }
        self.tasks = kept;
        drained
    }
}

/// Law: order preservation.  When every queued task carries the drained
/// identifier, a drain returns the whole enqueue sequence exactly and
/// leaves the queue empty.
pub proof fn lemma_drain_all_order(s: Seq<TaskView>, id: int)
    requires
        forall|i: int| 0 <= i < s.len() ==> (#[trigger] s[i]).act_id == id,
    ensures
        matching(s, id) == s,
        remaining(s, id) == Seq::<TaskView>::empty(),
    decreases s.len(),
{
    reveal(Seq::<_>::filter);
    if s.len() == 0 {
        assert(matching(s, id) =~= s);
        assert(remaining(s, id) =~= Seq::<TaskView>::empty());
    } else {
        assert(forall|i: int|
            0 <= i < s.drop_last().len() ==> (#[trigger] s.drop_last()[i]).act_id == id);
        lemma_drain_all_order(s.drop_last(), id);
        assert(s.last().act_id == id);
        assert(matching(s, id) == s.drop_last().push(s.last()));
        assert(matching(s, id) =~= s);
    }
}

/// Law: partial drain order.  When every queued task carries one of two
/// distinct identifiers, draining one identifier leaves exactly the other
/// identifier's tasks, in their original relative order.
pub proof fn lemma_partial_drain_split(s: Seq<TaskView>, a: int, b: int)
    requires
        a != b,
        forall|i: int| 0 <= i < s.len() ==> ((#[trigger] s[i]).act_id == a || s[i].act_id == b),
    ensures
        remaining(s, a) == matching(s, b),
        remaining(s, b) == matching(s, a),
    decreases s.len(),
{
    reveal(Seq::<_>::filter);
    if s.len() > 0 {
        assert(forall|i: int|
            0 <= i < s.drop_last().len() ==> ((#[trigger] s.drop_last()[i]).act_id == a
                || s.drop_last()[i].act_id == b));
        lemma_partial_drain_split(s.drop_last(), a, b);
    }
}

/// Law: a drain loses nothing and invents nothing.  The drained tasks and
/// the tasks left behind together are exactly the queued tasks: their counts
/// add up to the queue's length and their multisets add up to the queue's
/// multiset.
pub proof fn lemma_drain_no_loss(s: Seq<TaskView>, id: int)
    ensures
        matching(s, id).len() + remaining(s, id).len() == s.len(),
        matching(s, id).to_multiset().add(remaining(s, id).to_multiset()) == s.to_multiset(),
    decreases s.len(),
{
    broadcast use vstd::multiset::group_multiset_axioms;

    reveal(Seq::<_>::filter);
    if s.len() == 0 {
        s.to_multiset_ensures();
        assert(s.to_multiset() =~= Multiset::<TaskView>::empty());
        assert(matching(s, id).to_multiset().add(remaining(s, id).to_multiset())
            =~= s.to_multiset());
    } else {
        let d = s.drop_last();
        let x = s.last();
        lemma_drain_no_loss(d, id);
        d.to_multiset_ensures();
        matching(d, id).to_multiset_ensures();
        remaining(d, id).to_multiset_ensures();
        assert(s =~= d.push(x));
        assert(s.to_multiset() == d.to_multiset().insert(x));
        if x.act_id == id {
            assert(matching(s, id) == matching(d, id).push(x));
            assert(matching(s, id).to_multiset() == matching(d, id).to_multiset().insert(x));
            assert(matching(s, id).to_multiset().add(remaining(s, id).to_multiset())
                =~= s.to_multiset());
        } else {
            assert(remaining(s, id) == remaining(d, id).push(x));
            assert(remaining(s, id).to_multiset() == remaining(d, id).to_multiset().insert(x));
            assert(matching(s, id).to_multiset().add(remaining(s, id).to_multiset())
                =~= s.to_multiset());
        }
    }
}

/// The total number of tasks in a list of producers' enqueue orders.
pub open spec fn len_all(parts: Seq<Seq<TaskView>>) -> int
    decreases parts.len(),
{
    if parts.len() == 0 {
        0
    } else {
        parts[0].len() + len_all(parts.drop_first())
    }
}

/// The multiset of all tasks in a list of producers' enqueue orders.
pub open spec fn multiset_all(parts: Seq<Seq<TaskView>>) -> Multiset<TaskView>
    decreases parts.len(),
{
    if parts.len() == 0 {
        Multiset::<TaskView>::empty()
    } else {
        parts[0].to_multiset().add(multiset_all(parts.drop_first()))
    }
}

/// Whether `s` is one serialization of the producers' enqueue orders in
/// `parts`: each producer's tasks keep their relative order in `s`, and `s`
/// holds nothing else.  Any order the queue's lock can serialize concurrent
/// producers into satisfies this.
pub open spec fn is_serialization(s: Seq<TaskView>, parts: Seq<Seq<TaskView>>) -> bool
    decreases s.len(),
{
    if s.len() == 0 {
        forall|p: int| 0 <= p < parts.len() ==> (#[trigger] parts[p]).len() == 0
    } else {
        exists|p: int|
            0 <= p < parts.len() && (#[trigger] parts[p]).len() > 0 && s[0] == parts[p][0]
                && is_serialization(s.drop_first(), parts.update(p, parts[p].drop_first()))
    }
}

proof fn lemma_len_all_empty(parts: Seq<Seq<TaskView>>)
    requires
        forall|p: int| 0 <= p < parts.len() ==> (#[trigger] parts[p]).len() == 0,
    ensures
        len_all(parts) == 0,
        multiset_all(parts) == Multiset::<TaskView>::empty(),
    decreases parts.len(),
{
    broadcast use vstd::multiset::group_multiset_axioms;

    if parts.len() > 0 {
        assert(forall|p: int|
            0 <= p < parts.drop_first().len() ==> (#[trigger] parts.drop_first()[p]).len() == 0);
        lemma_len_all_empty(parts.drop_first());
        parts[0].to_multiset_ensures();
        assert(parts[0].to_multiset() =~= Multiset::<TaskView>::empty());
        assert(multiset_all(parts) =~= Multiset::<TaskView>::empty());
    }
}

proof fn lemma_take_first_of_part(parts: Seq<Seq<TaskView>>, p: int)
    requires
        0 <= p < parts.len(),
        parts[p].len() > 0,
    ensures
        len_all(parts.update(p, parts[p].drop_first())) == len_all(parts) - 1,
        multiset_all(parts) == multiset_all(parts.update(p, parts[p].drop_first())).insert(
            parts[p][0],
        ),
    decreases parts.len(),
{
    broadcast use vstd::multiset::group_multiset_axioms;

    let shorter = parts.update(p, parts[p].drop_first());
    if p == 0 {
        assert(shorter.drop_first() =~= parts.drop_first());
        vstd::seq_lib::to_multiset_insert(parts[0].drop_first(), 0, parts[0][0]);
        assert(parts[0].drop_first().insert(0, parts[0][0]) =~= parts[0]);
        assert(multiset_all(parts) =~= multiset_all(shorter).insert(parts[0][0]));
    } else {
        assert(shorter.drop_first() =~= parts.drop_first().update(p - 1, parts[p].drop_first()));
        assert(parts.drop_first()[p - 1] == parts[p]);
        lemma_take_first_of_part(parts.drop_first(), p - 1);
        assert(multiset_all(parts) =~= multiset_all(shorter).insert(parts[p][0]));
    }
}

/// Law: no lost updates under concurrent producers.  Whatever order the
/// lock serializes any number of producers' enqueues into, the queue holds
/// exactly the tasks they all produced: the counts add up and the multiset
/// of queued tasks is the sum of the producers' multisets — no duplicate,
/// no omission.
pub proof fn lemma_serialization_no_loss(s: Seq<TaskView>, parts: Seq<Seq<TaskView>>)
    requires
        is_serialization(s, parts),
    ensures
        s.len() == len_all(parts),
        s.to_multiset() == multiset_all(parts),
    decreases s.len(),
{
    broadcast use vstd::multiset::group_multiset_axioms;

    if s.len() == 0 {
        lemma_len_all_empty(parts);
        s.to_multiset_ensures();
        assert(s.to_multiset() =~= Multiset::<TaskView>::empty());
    } else {
        let p = choose|p: int|
            0 <= p < parts.len() && (#[trigger] parts[p]).len() > 0 && s[0] == parts[p][0]
                && is_serialization(s.drop_first(), parts.update(p, parts[p].drop_first()));
        let shorter = parts.update(p, parts[p].drop_first());
        lemma_serialization_no_loss(s.drop_first(), shorter);
        lemma_take_first_of_part(parts, p);
        vstd::seq_lib::to_multiset_insert(s.drop_first(), 0, s[0]);
        assert(s.drop_first().insert(0, s[0]) =~= s);
    }
}

/// Law: the exact count under concurrent producers.  When each of the
/// producers enqueues the same number of tasks, any serialization of their
/// enqueues holds exactly producers-times-that-many tasks.
pub proof fn lemma_uniform_producers_count(parts: Seq<Seq<TaskView>>, k: int)
    requires
        forall|p: int| 0 <= p < parts.len() ==> (#[trigger] parts[p]).len() == k,
    ensures
        len_all(parts) == parts.len() * k,
    decreases parts.len(),
{
    if parts.len() == 0 {
        assert(len_all(parts) == 0);
    } else {
        assert(forall|p: int|
            0 <= p < parts.drop_first().len() ==> (#[trigger] parts.drop_first()[p]).len() == k);
        lemma_uniform_producers_count(parts.drop_first(), k);
        assert(k + (parts.len() - 1) * k == parts.len() * k) by (nonlinear_arith);
    }
}

/// A drain hands back only tasks as they were queued: a property true of
/// every queued task is true of every drained task, and every drained task
/// carries the drained identifier.
pub proof fn lemma_matching_preserves(s: Seq<TaskView>, id: int, p: spec_fn(TaskView) -> bool)
    requires
        forall|i: int| 0 <= i < s.len() ==> p(#[trigger] s[i]),
    ensures
        forall|j: int| 0 <= j < matching(s, id).len() ==> p(#[trigger] matching(s, id)[j]),
        forall|j: int|
            0 <= j < matching(s, id).len() ==> (#[trigger] matching(s, id)[j]).act_id == id,
    decreases s.len(),
{
    reveal(Seq::<_>::filter);
    if s.len() > 0 {
        assert(forall|i: int| 0 <= i < s.drop_last().len() ==> p(#[trigger] s.drop_last()[i]));
        lemma_matching_preserves(s.drop_last(), id, p);
        let m = matching(s, id);
        let md = matching(s.drop_last(), id);
        if s.last().act_id == id {
            assert(m == md.push(s.last()));
            assert(p(s.last()));
            assert(forall|j: int| 0 <= j < md.len() ==> #[trigger] m[j] == md[j]);
        } else {
            assert(m == md);
        }
    }
}

/// Filtering the empty sequence yields the empty sequence.
proof fn lemma_filter_empty(id: int)
    ensures
        matching(Seq::<TaskView>::empty(), id) == Seq::<TaskView>::empty(),
        remaining(Seq::<TaskView>::empty(), id) == Seq::<TaskView>::empty(),
{
    reveal(Seq::<_>::filter);
}

/// How one more scanned task extends the drained and the remaining parts of
/// a prefix of the original queue.
proof fn lemma_filter_take_step(s: Seq<TaskView>, id: int, i: int)
    requires
        0 <= i < s.len(),
    ensures
        s[i].act_id == id ==> matching(s.take(i + 1), id) == matching(s.take(i), id).push(s[i]),
        s[i].act_id != id ==> matching(s.take(i + 1), id) == matching(s.take(i), id),
        s[i].act_id != id ==> remaining(s.take(i + 1), id) == remaining(s.take(i), id).push(s[i]),
        s[i].act_id == id ==> remaining(s.take(i + 1), id) == remaining(s.take(i), id),
{
    reveal(Seq::<_>::filter);
    assert(s.take(i + 1).len() == i + 1);
    assert(s.take(i + 1).last() == s[i]);
    assert(s.take(i + 1).drop_last() =~= s.take(i));
}

} // verus!
