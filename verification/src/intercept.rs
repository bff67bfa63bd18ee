//! Decision rules of the call interceptor.
//!
//! The interceptor runs on whatever host thread invokes the intercepted
//! entry point.  Each invocation walks a fixed decision sequence: classify
//! the action, check the subject against the registry's main subject, gate
//! the invocation on the argument type tags, or capture a text argument as
//! a deferred task.  Whatever these decisions say, the caller always
//! delegates to the original function afterward and returns its result
//! unchanged; no failure on this path may suppress that delegation.

use vstd::prelude::*;
use crate::lua::LuaType;
use crate::task::{Arg, ArgView, Task};

verus! {

/// Action identifier on which the interceptor invokes a runtime global by
/// name, synchronously, inside the interception context.
pub const ACT_INVOKE_BY_NAME: i32 = 1000;

/// Action identifier on which the interceptor captures a text argument into
/// a deferred task.
pub const ACT_CAPTURE_TEXT: i32 = 1001;

/// 1-based index of the argument whose tag must be numeric before an
/// invocation by name is considered.
pub const INVOKE_GUARD_ARG_INDEX: i32 = 2;

/// 1-based index of the string argument naming the global to invoke.
pub const INVOKE_NAME_ARG_INDEX: i32 = 3;

/// 1-based index of the string argument captured on the capture path.
pub const CAPTURE_TEXT_ARG_INDEX: i32 = 2;

/// The kind discriminant recorded on a captured text argument.
pub open spec fn text_kind() -> Seq<char> {
    "String"@
}

/// What the interceptor needs from its environment next, given the action
/// identifier of one intercepted call.
#[derive(PartialEq, Eq, Structural, Clone, Copy, Debug)]
pub enum InterceptRequest {
    /// The action is invoke-by-name: look up the main subject's handle next.
    LookupMainSubject,
    /// The action is capture-text: read the text argument next.
    ReadCaptureText,
    /// Unrecognized action: no runtime-bridge call, no queue change —
    /// only the unconditional delegation to the original function.
    PassThrough,
}

/// First decision of an interception: pick the path from the action
/// identifier alone.  Law (delegation invariant): for any action identifier
/// other than the two recognized ones the answer is pass-through, so the
/// interceptor touches neither the queue nor the runtime bridge and the
/// original function's return value travels through unchanged.
pub fn classify_action(act_id: i32) -> (r: InterceptRequest)
    ensures
        r == InterceptRequest::LookupMainSubject <==> act_id == ACT_INVOKE_BY_NAME,
        r == InterceptRequest::ReadCaptureText <==> act_id == ACT_CAPTURE_TEXT,
        r == InterceptRequest::PassThrough <==> (act_id != ACT_INVOKE_BY_NAME && act_id
            != ACT_CAPTURE_TEXT),
{
    if act_id == ACT_INVOKE_BY_NAME {
        InterceptRequest::LookupMainSubject
    } else if act_id == ACT_CAPTURE_TEXT {
        InterceptRequest::ReadCaptureText
    } else {
        InterceptRequest::PassThrough
    }
}

/// Second decision on the invoke path: the intercepted subject must be the
/// registry's current main subject.  An absent main subject or a handle
/// mismatch means "not applicable" — never an error — and the interceptor
/// goes straight to delegation.
pub fn subject_matches(subject_handle: u64, main_subject: Option<u64>) -> (r: bool)
    ensures
        r <==> main_subject == Some(subject_handle),
{
    match main_subject {
        Some(h) => h == subject_handle,
        None => false,
    }
}

/// Third decision on the invoke path.  Law (type-gated invocation): the
/// runtime global is looked up and called exactly when the guard argument's
/// tag is numeric and the name argument's tag is string; under every other
/// tag combination no global lookup and no call occurs.
pub fn should_invoke(guard_tag: LuaType, name_tag: LuaType) -> (r: bool)
    ensures
        r <==> (guard_tag == LuaType::LUATNUMBER && name_tag == LuaType::LUATSTRING),
{
    guard_tag == LuaType::LUATNUMBER && name_tag == LuaType::LUATSTRING
}

/// Builds the deferred task for one captured text: the capture action
/// identifier and exactly one argument of the text kind holding the copied
/// text.  The task is complete before anyone else can see it.
pub fn make_capture_task(text: String) -> (t: Task)
    ensures
        t@.act_id == ACT_CAPTURE_TEXT as int,
        t@.args.len() == 1,
        t@.args[0] == (ArgView { arg_type: text_kind(), arg_value: text@ }),
{
    let kind: String = "String".to_owned();
    let mut args: Vec<Arg> = Vec::new();
    args.push(Arg { arg_type: kind, arg_value: text });
    let t = Task { act_id: ACT_CAPTURE_TEXT, args };
    proof {
        assert(t@.args =~= Seq::<ArgView>::empty().push(
            ArgView { arg_type: text_kind(), arg_value: text@ },
        ));
    }
    t
}

/// Outcome of the capture path once the raw text handle has been copied out
/// of host memory: a decoded text becomes a deferred task; a malformed text
/// (`None`) skips the capture — nothing is queued, and the call still
/// delegates to the original function.
pub fn capture_step(text: Option<String>) -> (t: Option<Task>)
    ensures
        text matches Some(s) ==> (t matches Some(task) && task@.act_id == ACT_CAPTURE_TEXT as int
            && task@.args.len() == 1 && task@.args[0] == (ArgView {
            arg_type: text_kind(),
            arg_value: s@,
        })),
        text is None ==> t is None,
{
    match text {
        Some(s) => Some(make_capture_task(s)),
        None => None,
    }
}

} // verus!
