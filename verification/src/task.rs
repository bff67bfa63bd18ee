//! Deferred task records: a captured unit of work and its typed arguments.
//!
//! A task is built in full by the interceptor before it becomes visible to
//! anyone else, and is never changed afterward — only moved out of the queue
//! and dropped once processed.

use vstd::prelude::*;

verus! {

/// One typed value extracted from the scripting runtime at capture time:
/// a kind discriminant plus the textual payload, both owned.
pub struct Arg {
    pub arg_type: String,
    pub arg_value: String,
}

/// Mathematical image of an [`Arg`]: both fields as character sequences.
pub ghost struct ArgView {
    pub arg_type: Seq<char>,
    pub arg_value: Seq<char>,
}

impl View for Arg {
    type V = ArgView;

    open spec fn view(&self) -> ArgView {
        ArgView { arg_type: self.arg_type@, arg_value: self.arg_value@ }
    }
}

/// One deferred unit of work: the action identifier under which it was
/// captured and the ordered arguments that were captured with it.
pub struct Task {
    pub act_id: i32,
    pub args: Vec<Arg>,
}

/// Mathematical image of a [`Task`]: the action identifier as an integer and
/// the arguments as a sequence of argument views.
pub ghost struct TaskView {
    pub act_id: int,
    pub args: Seq<ArgView>,
}

impl View for Task {
    type V = TaskView;

    open spec fn view(&self) -> TaskView {
        TaskView { act_id: self.act_id as int, args: self.args@.map_values(|a: Arg| a@) }
    }
}

} // verus!
