use serde_json::Value;
use tgin::longpull::{GetUpdatesParams, LongPollRoute, PollStep};

fn val(s: &str) -> Value {
    Value::String(s.to_string())
}

fn params(timeout: Option<u64>, limit: Option<u64>) -> GetUpdatesParams {
    GetUpdatesParams { offset: None, timeout, limit }
}

fn expect_reply(step: PollStep) -> Vec<Value> {
    match step {
        PollStep::Reply(batch) => batch,
        PollStep::Wait => panic!("expected an immediate reply, got a wait"),
    }
}

#[test]
fn fifo_order() {
    let mut q = LongPollRoute::new("/q".to_string());
    q.process(val("a"));
    q.process(val("b"));
    q.process(val("c"));
    let batch = expect_reply(q.handle_request(&params(Some(0), Some(1000)), false));
    assert_eq!(batch, vec![val("a"), val("b"), val("c")]);
}

#[test]
fn batch_cap_chunks() {
    let mut q = LongPollRoute::new("/q".to_string());
    for i in 0..5 {
        q.process(Value::from(i));
    }
    let b1 = expect_reply(q.handle_request(&params(Some(0), Some(2)), false));
    assert_eq!(b1, vec![Value::from(0), Value::from(1)]);
    let b2 = expect_reply(q.handle_request(&params(Some(0), Some(2)), false));
    assert_eq!(b2, vec![Value::from(2), Value::from(3)]);
    let b3 = expect_reply(q.handle_request(&params(Some(0), Some(2)), false));
    assert_eq!(b3, vec![Value::from(4)]);
    let b4 = expect_reply(q.handle_request(&params(Some(0), Some(2)), false));
    assert!(b4.is_empty());
}

#[test]
fn immediate_return_on_empty() {
    let mut q = LongPollRoute::new("/q".to_string());
    let batch = expect_reply(q.handle_request(&params(Some(0), None), false));
    assert!(batch.is_empty());
    // absent timeout means 0: also an immediate empty reply
    let batch = expect_reply(q.handle_request(&params(None, None), false));
    assert!(batch.is_empty());
}

#[test]
fn wake_on_push() {
    let mut q = LongPollRoute::new("/q".to_string());
    // with time budget left and nothing buffered, the poll suspends
    match q.handle_request(&params(Some(5), None), false) {
        PollStep::Wait => {},
        PollStep::Reply(_) => panic!("expected a wait"),
    }
    // once an update is pushed, the re-check replies with it at once
    q.process(val("u"));
    let batch = expect_reply(q.handle_request(&params(Some(5), None), false));
    assert_eq!(batch, vec![val("u")]);
    // and when the deadline has passed with nothing buffered, the reply is
    // empty rather than a further wait
    let batch = expect_reply(q.handle_request(&params(Some(5), None), true));
    assert!(batch.is_empty());
}

#[test]
fn zero_limit_returns_nothing() {
    let mut q = LongPollRoute::new("/q".to_string());
    q.process(val("a"));
    let batch = expect_reply(q.handle_request(&params(Some(0), Some(0)), false));
    assert!(batch.is_empty());
    // the item is still buffered
    let batch = expect_reply(q.handle_request(&params(Some(0), Some(1)), false));
    assert_eq!(batch, vec![val("a")]);
}

#[test]
fn default_limit_is_1000() {
    let mut q = LongPollRoute::new("/q".to_string());
    for i in 0..1001 {
        q.process(Value::from(i));
    }
    let batch = expect_reply(q.handle_request(&params(Some(0), None), false));
    assert_eq!(batch.len(), 1000);
    let batch = expect_reply(q.handle_request(&params(Some(0), None), false));
    assert_eq!(batch, vec![Value::from(1000)]);
}

#[test]
fn path_is_kept() {
    let q = LongPollRoute::new("/updates".to_string());
    assert_eq!(q.path(), "/updates");
}
