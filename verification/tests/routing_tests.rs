use serde_json::Value;
use tgin::longpull::{GetUpdatesParams, LongPollRoute, PollStep};
use tgin::registry::LongpollRegistry;
use tgin::routing::{AddRouteType, AllLB, Route, RoundRobinLB};
use tgin::webhook::{RelayAction, WebhookRoute};

fn val(s: &str) -> Value {
    Value::String(s.to_string())
}

fn drain_all(q: &mut LongPollRoute) -> Vec<Value> {
    let params = GetUpdatesParams { offset: None, timeout: Some(0), limit: Some(1000) };
    match q.handle_request(&params, false) {
        PollStep::Reply(batch) => batch,
        PollStep::Wait => panic!("a zero-timeout poll never waits"),
    }
}

fn pool(paths: &[&str]) -> Vec<LongPollRoute> {
    paths.iter().map(|p| LongPollRoute::new(p.to_string())).collect()
}

#[test]
fn round_robin_cycles() {
    let mut queues = pool(&["/a", "/b", "/c"]);
    let children = vec![Route::Longpull(0), Route::Longpull(1), Route::Longpull(2)];
    let mut root = Route::RoundRobin(RoundRobinLB::new(children));
    let mut relays: Vec<RelayAction> = Vec::new();
    for i in 0..9 {
        root.process(&mut queues, Value::from(i), &mut relays);
    }
    // each child received exactly 3, in cyclic order matching child order
    assert_eq!(drain_all(&mut queues[0]), vec![Value::from(0), Value::from(3), Value::from(6)]);
    assert_eq!(drain_all(&mut queues[1]), vec![Value::from(1), Value::from(4), Value::from(7)]);
    assert_eq!(drain_all(&mut queues[2]), vec![Value::from(2), Value::from(5), Value::from(8)]);
    assert!(relays.is_empty());
}

#[test]
fn round_robin_empty_is_noop() {
    let mut queues = pool(&["/a"]);
    let mut root = Route::RoundRobin(RoundRobinLB::new(Vec::new()));
    let mut relays: Vec<RelayAction> = Vec::new();
    root.process(&mut queues, val("u"), &mut relays);
    assert!(drain_all(&mut queues[0]).is_empty());
    assert!(relays.is_empty());
}

#[test]
fn broadcast_reaches_every_child() {
    let mut queues = pool(&["/a", "/b", "/c"]);
    let children = vec![Route::Longpull(0), Route::Longpull(1), Route::Longpull(2)];
    let mut root = Route::All(AllLB::new(children));
    let mut relays: Vec<RelayAction> = Vec::new();
    root.process(&mut queues, val("news"), &mut relays);
    for q in queues.iter_mut() {
        // every child got a copy equal to the delivered update
        assert_eq!(drain_all(q), vec![val("news")]);
    }
    assert!(relays.is_empty());
}

#[test]
fn webhook_leaves_become_relay_legs() {
    let mut queues = pool(&[]);
    let children = vec![
        Route::Webhook(WebhookRoute::new("http://one".to_string())),
        Route::Webhook(WebhookRoute::new("http://two".to_string())),
    ];
    let mut root = Route::All(AllLB::new(children));
    let mut relays: Vec<RelayAction> = Vec::new();
    root.process(&mut queues, val("u"), &mut relays);
    assert_eq!(relays.len(), 2);
    assert_eq!(relays[0].url, "http://one");
    assert_eq!(relays[0].update, val("u"));
    assert_eq!(relays[1].url, "http://two");
    assert_eq!(relays[1].update, val("u"));
}

#[test]
fn round_robin_selects_webhook() {
    let mut queues = pool(&["/a"]);
    let children = vec![
        Route::Webhook(WebhookRoute::new("http://hook".to_string())),
        Route::Longpull(0),
    ];
    let mut root = Route::RoundRobin(RoundRobinLB::new(children));
    let mut relays: Vec<RelayAction> = Vec::new();
    root.process(&mut queues, val("first"), &mut relays);
    root.process(&mut queues, val("second"), &mut relays);
    assert_eq!(relays.len(), 1);
    assert_eq!(relays[0].url, "http://hook");
    assert_eq!(relays[0].update, val("first"));
    assert_eq!(drain_all(&mut queues[0]), vec![val("second")]);
}

#[test]
fn nested_composites_deliver() {
    let mut queues = pool(&["/a", "/b", "/c"]);
    let inner = Route::RoundRobin(RoundRobinLB::new(vec![
        Route::Longpull(0),
        Route::Longpull(1),
    ]));
    let mut root = Route::All(AllLB::new(vec![inner, Route::Longpull(2)]));
    let mut relays: Vec<RelayAction> = Vec::new();
    root.process(&mut queues, val("x"), &mut relays);
    root.process(&mut queues, val("y"), &mut relays);
    // the broadcast reaches the inner round-robin (which alternates) and the
    // direct leaf every time
    assert_eq!(drain_all(&mut queues[0]), vec![val("x")]);
    assert_eq!(drain_all(&mut queues[1]), vec![val("y")]);
    assert_eq!(drain_all(&mut queues[2]), vec![val("x"), val("y")]);
}

#[test]
fn add_route_registers_longpull() {
    let mut queues = pool(&[]);
    let mut registry = LongpollRegistry::new();
    let mut lb = RoundRobinLB::new(Vec::new());
    let fresh = LongPollRoute::new("/p".to_string());
    let added = lb.add_route(&mut queues, &mut registry, AddRouteType::Longpull(fresh));
    assert!(added.is_ok());
    // the path resolves to the pool slot the strategy now delivers to
    let id = registry.lookup(&"/p".to_string()).expect("path must resolve");
    assert_eq!(id, 0);
    let mut root = Route::RoundRobin(lb);
    let mut relays: Vec<RelayAction> = Vec::new();
    root.process(&mut queues, val("u"), &mut relays);
    assert_eq!(drain_all(&mut queues[id]), vec![val("u")]);
}

#[test]
fn add_route_webhook_skips_registry() {
    let mut queues = pool(&[]);
    let mut registry = LongpollRegistry::new();
    let mut lb = RoundRobinLB::new(Vec::new());
    let hook = WebhookRoute::new("http://hook".to_string());
    let added = lb.add_route(&mut queues, &mut registry, AddRouteType::Webhook(hook));
    assert!(added.is_ok());
    assert!(queues.is_empty());
    assert_eq!(registry.lookup(&"http://hook".to_string()), None);
    assert_eq!(lb.routes.len(), 1);
}

#[test]
fn add_route_keeps_cursor_position() {
    let mut queues = pool(&["/a"]);
    let mut registry = LongpollRegistry::new();
    let mut lb = RoundRobinLB::new(vec![Route::Longpull(0)]);
    let mut relays: Vec<RelayAction> = Vec::new();
    {
        let mut root = Route::RoundRobin(lb);
        root.process(&mut queues, val("one"), &mut relays);
        lb = match root {
            Route::RoundRobin(inner) => inner,
            _ => unreachable!(),
        };
    }
    let fresh = LongPollRoute::new("/b".to_string());
    lb.add_route(&mut queues, &mut registry, AddRouteType::Longpull(fresh)).unwrap();
    // the cursor went forward once and is not reset by the addition: the
    // next delivery goes to the new second child
    let mut root = Route::RoundRobin(lb);
    root.process(&mut queues, val("two"), &mut relays);
    assert_eq!(drain_all(&mut queues[0]), vec![val("one")]);
    assert_eq!(drain_all(&mut queues[1]), vec![val("two")]);
}

#[test]
fn print_describes_leaf() {
    let q = LongPollRoute::new("/q".to_string());
    assert_eq!(q.print(), "longpull: http://0.0.0.0/q");
}

#[test]
fn print_describes_tree() {
    let queues = pool(&["/a"]);
    let children = vec![
        Route::Longpull(0),
        Route::Webhook(WebhookRoute::new("http://hook".to_string())),
    ];
    let root = Route::RoundRobin(RoundRobinLB::new(children));
    assert_eq!(
        root.print(&queues),
        "LOAD BALANCER RoundRobin\n\nlongpull: http://0.0.0.0/a\n\nwebhook: http://hook\n\n"
    );
}
