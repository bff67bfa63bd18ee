use hks_intercept::intercept::{make_capture_task, ACT_CAPTURE_TEXT, ACT_INVOKE_BY_NAME};
use hks_intercept::queue::TaskQueue;
use hks_intercept::task::{Arg, Task};

fn plain_task(act_id: i32, value: &str) -> Task {
    Task {
        act_id,
        args: vec![Arg { arg_type: "String".to_owned(), arg_value: value.to_owned() }],
    }
}

#[test]
fn order_preservation_on_full_drain() {
    let values = ["first", "second", "third", "fourth", "fifth"];
    let mut q = TaskQueue::new();
    for v in values.iter() {
        q.enqueue(make_capture_task(v.to_string()));
    }
    let drained = q.drain_matching(ACT_CAPTURE_TEXT);
    assert_eq!(drained.len(), values.len());
    for (task, expected) in drained.iter().zip(values.iter()) {
        assert_eq!(task.act_id, ACT_CAPTURE_TEXT);
        assert_eq!(task.args.len(), 1);
        assert_eq!(task.args[0].arg_value, *expected);
    }
    assert_eq!(q.len(), 0);
}

#[test]
fn partial_drain_preserves_both_orders() {
    let mut q = TaskQueue::new();
    q.enqueue(plain_task(ACT_CAPTURE_TEXT, "c1"));
    q.enqueue(plain_task(ACT_INVOKE_BY_NAME, "i1"));
    q.enqueue(plain_task(ACT_CAPTURE_TEXT, "c2"));
    q.enqueue(plain_task(ACT_INVOKE_BY_NAME, "i2"));
    q.enqueue(plain_task(ACT_CAPTURE_TEXT, "c3"));

    let drained = q.drain_matching(ACT_CAPTURE_TEXT);
    let captured: Vec<&str> = drained.iter().map(|t| t.args[0].arg_value.as_str()).collect();
    assert_eq!(captured, ["c1", "c2", "c3"]);

    assert_eq!(q.len(), 2);
    let rest = q.drain_matching(ACT_INVOKE_BY_NAME);
    let kept: Vec<&str> = rest.iter().map(|t| t.args[0].arg_value.as_str()).collect();
    assert_eq!(kept, ["i1", "i2"]);
    assert_eq!(q.len(), 0);
}

#[test]
fn no_lost_updates_across_interleaved_producers() {
    // Three producers of four tasks each, serialized round-robin the way the
    // queue's lock would serialize them: every task arrives exactly once.
    let producers = 3;
    let per_producer = 4;
    let mut q = TaskQueue::new();
    for k in 0..per_producer {
        for m in 0..producers {
            q.enqueue(make_capture_task(format!("producer{}task{}", m, k)));
        }
    }
    let drained = q.drain_matching(ACT_CAPTURE_TEXT);
    assert_eq!(drained.len(), producers * per_producer);
    assert_eq!(q.len(), 0);

    let mut seen: Vec<String> = drained.iter().map(|t| t.args[0].arg_value.clone()).collect();
    seen.sort();
    let mut expected: Vec<String> = Vec::new();
    for m in 0..producers {
        for k in 0..per_producer {
            expected.push(format!("producer{}task{}", m, k));
        }
    }
    expected.sort();
    assert_eq!(seen, expected);
}

#[test]
fn drain_on_empty_queue_returns_nothing() {
    let mut q = TaskQueue::new();
    let drained = q.drain_matching(ACT_CAPTURE_TEXT);
    assert!(drained.is_empty());
    assert_eq!(q.len(), 0);
}

#[test]
fn drain_of_unmatched_id_keeps_everything() {
    let mut q = TaskQueue::new();
    q.enqueue(plain_task(ACT_CAPTURE_TEXT, "kept1"));
    q.enqueue(plain_task(ACT_CAPTURE_TEXT, "kept2"));
    let drained = q.drain_matching(ACT_INVOKE_BY_NAME);
    assert!(drained.is_empty());
    assert_eq!(q.len(), 2);
    let all = q.drain_matching(ACT_CAPTURE_TEXT);
    assert_eq!(all.len(), 2);
    assert_eq!(all[0].args[0].arg_value, "kept1");
    assert_eq!(all[1].args[0].arg_value, "kept2");
}
