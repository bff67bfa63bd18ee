use hks_intercept::drain::drain_tick;
use hks_intercept::intercept::{
    capture_step, classify_action, make_capture_task, should_invoke, subject_matches,
    InterceptRequest, ACT_CAPTURE_TEXT, ACT_INVOKE_BY_NAME,
};
use hks_intercept::lua::LuaType;
use hks_intercept::queue::TaskQueue;
use hks_intercept::task::{Arg, Task};

#[test]
fn classify_recognized_actions() {
    assert_eq!(classify_action(ACT_INVOKE_BY_NAME), InterceptRequest::LookupMainSubject);
    assert_eq!(classify_action(ACT_CAPTURE_TEXT), InterceptRequest::ReadCaptureText);
}

#[test]
fn delegation_invariant_for_unrecognized_actions() {
    // Any other action identifier asks for nothing: no bridge call, no queue
    // change, only the unconditional delegation.
    for act_id in [0, 1, 999, 1002, -1, i32::MIN, i32::MAX] {
        assert_eq!(classify_action(act_id), InterceptRequest::PassThrough);
    }
}

#[test]
fn type_gated_invocation_over_all_tag_pairs() {
    let mut invocations = 0;
    for guard_code in -1..=8 {
        for name_code in -1..=8 {
            let guard = LuaType::from_code(guard_code).unwrap();
            let name = LuaType::from_code(name_code).unwrap();
            let fire = should_invoke(guard, name);
            assert_eq!(fire, guard_code == 3 && name_code == 4);
            if fire {
                invocations += 1;
            }
        }
    }
    assert_eq!(invocations, 1);
}

#[test]
fn subject_handle_mismatch_blocks_invocation() {
    // Intercepted handle differs from the main subject's handle: the invoke
    // path stops before any bridge call and the call only delegates.
    assert!(!subject_matches(0x1234, Some(0x5678)));
    assert!(subject_matches(0x1234, Some(0x1234)));
}

#[test]
fn absent_main_subject_blocks_invocation() {
    assert!(!subject_matches(0x1234, None));
}

#[test]
fn capture_scenario_hello() {
    let mut q = TaskQueue::new();
    q.enqueue(make_capture_task("hello".to_string()));
    let drained = q.drain_matching(ACT_CAPTURE_TEXT);
    assert_eq!(drained.len(), 1);
    assert_eq!(drained[0].act_id, ACT_CAPTURE_TEXT);
    assert_eq!(drained[0].args.len(), 1);
    assert_eq!(drained[0].args[0].arg_type, "String");
    assert_eq!(drained[0].args[0].arg_value, "hello");
    assert_eq!(q.len(), 0);
}

#[test]
fn malformed_text_skips_capture() {
    let skipped = capture_step(None);
    assert!(skipped.is_none());
    let taken = capture_step(Some("ok".to_string()));
    let task = taken.unwrap();
    assert_eq!(task.act_id, ACT_CAPTURE_TEXT);
    assert_eq!(task.args[0].arg_value, "ok");
}

#[test]
fn drain_tick_emits_captured_lines_in_order() {
    let mut q = TaskQueue::new();
    q.enqueue(make_capture_task("one".to_string()));
    q.enqueue(Task {
        act_id: ACT_INVOKE_BY_NAME,
        args: vec![Arg { arg_type: "String".to_owned(), arg_value: "not-captured".to_owned() }],
    });
    q.enqueue(make_capture_task("two".to_string()));

    let lines = drain_tick(&mut q);
    assert_eq!(lines, ["one", "two"]);

    // The foreign task stayed queued, untouched.
    assert_eq!(q.len(), 1);
    let rest = q.drain_matching(ACT_INVOKE_BY_NAME);
    assert_eq!(rest.len(), 1);
    assert_eq!(rest[0].args[0].arg_value, "not-captured");
}

#[test]
fn drain_tick_on_empty_queue_emits_nothing() {
    let mut q = TaskQueue::new();
    let lines = drain_tick(&mut q);
    assert!(lines.is_empty());
    assert_eq!(q.len(), 0);
}

#[test]
fn lua_type_codes_round_trip() {
    for code in -1..=8 {
        let tag = LuaType::from_code(code).unwrap();
        assert_eq!(tag.type_code(), code);
    }
    assert!(LuaType::from_code(9).is_none());
    assert!(LuaType::from_code(-2).is_none());
    assert_eq!(LuaType::LUATNUMBER.type_code(), 3);
    assert_eq!(LuaType::LUATSTRING.type_code(), 4);
}
