//! The periodic drain: one tick of the consumer registered with the host's
//! recurring-task facility.
//!
//! Each tick removes every capture-text task from the queue under its lock
//! and hands the captured texts back to the caller; the caller emits them
//! to the line-oriented output sink after the lock is released, one record
//! per line, in enqueue order.

use vstd::prelude::*;
use crate::intercept::ACT_CAPTURE_TEXT;
use crate::queue::{matching, remaining, views_of, TaskQueue};
use crate::queue::lemma_matching_preserves;
use crate::task::TaskView;

verus! {

/// The lines one drain tick must emit for the drained tasks, in order: the
/// text payload of each task's first argument.
pub open spec fn capture_lines(s: Seq<TaskView>) -> Seq<Seq<char>> {
    s.map_values(|tv: TaskView| tv.args[0].arg_value)
}

/// The views of a sequence of owned lines, in the same order.
pub open spec fn lines_view(s: Seq<String>) -> Seq<Seq<char>> {
    s.map_values(|l: String| l@)
}

/// One tick of the periodic drain callback: removes every capture-text task
/// from the queue and returns the text each one captured, in enqueue order.
/// Every other task stays queued, in its original relative order.
///
/// Capture tasks always carry their captured text as their one argument;
/// the precondition records that shape.
pub fn drain_tick(q: &mut TaskQueue) -> (lines: Vec<String>)
    requires
        forall|i: int|
            0 <= i < old(q)@.len() && (#[trigger] old(q)@[i]).act_id == ACT_CAPTURE_TEXT as int
                ==> old(q)@[i].args.len() >= 1,
    ensures
        final(q)@ == remaining(old(q)@, ACT_CAPTURE_TEXT as int),
        lines_view(lines@) == capture_lines(matching(old(q)@, ACT_CAPTURE_TEXT as int)),
{
    let ghost orig: Seq<TaskView> = q@;
    let mut drained = q.drain_matching(ACT_CAPTURE_TEXT);
    let ghost dviews: Seq<TaskView> = views_of(drained@);
    proof {
        lemma_matching_preserves(
            orig,
            ACT_CAPTURE_TEXT as int,
            |tv: TaskView| tv.act_id == ACT_CAPTURE_TEXT as int ==> tv.args.len() >= 1,
        );
        assert(forall|k: int| 0 <= k < dviews.len() ==> (#[trigger] dviews[k]).args.len() >= 1);
    }
    let mut lines: Vec<String> = Vec::new();
    let ghost mut j: int = 0;
    while drained.len() > 0
        invariant
            0 <= j <= dviews.len(),
            j == lines@.len(),
            views_of(drained@) == dviews.skip(j),
            forall|k: int| 0 <= k < dviews.len() ==> (#[trigger] dviews[k]).args.len() >= 1,
            forall|k: int| 0 <= k < j ==> (#[trigger] lines@[k])@ == dviews[k].args[0].arg_value,
        decreases drained@.len(),
    {
        proof {
            assert(dviews.skip(j).len() == dviews.len() - j);
            assert(views_of(drained@)[0] == drained@[0]@);
            assert(dviews.skip(j)[0] == dviews[j]);
        }
        let ghost pre: Seq<crate::task::Task> = drained@;
        let mut t = drained.remove(0);
        proof {
            assert(t@ == dviews[j]);
            assert(t@.args.len() >= 1);
            assert(t.args@.map_values(|a: crate::task::Arg| a@) == t@.args);
            assert forall|k: int| 0 <= k < drained@.len() implies views_of(drained@)[k]
                == dviews.skip(j + 1)[k] by {
                assert(drained@[k] == pre[k + 1]);
                assert(views_of(pre)[k + 1] == pre[k + 1]@);
                assert(views_of(pre)[k + 1] == dviews.skip(j)[k + 1]);
                assert(dviews.skip(j)[k + 1] == dviews[j + k + 1]);
                assert(dviews.skip(j + 1)[k] == dviews[j + 1 + k]);
            }
            assert(views_of(drained@) =~= dviews.skip(j + 1));
        }
        let ghost tv: TaskView = t@;
        let a = t.args.remove(0);
        proof {
            assert(a@ == tv.args[0]);
        }
        lines.push(a.arg_value);
        proof {
            j = j + 1;
        }
    }
    proof {
        assert(dviews.skip(j).len() == dviews.len() - j);
        assert(j == dviews.len());
        assert(lines_view(lines@) =~= capture_lines(dviews));
    }
    lines
}

} // verus!
