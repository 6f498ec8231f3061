use serde_json::Value;
use tgin::describe::RouteDoc;
use tgin::longpull::{GetUpdatesParams, LongPollRoute, PollStep};
use tgin::routing::Route;
use tgin::setup::{
    build_route, build_updates, RouteConfig, RouteStrategyConfig, UpdateConfig, UpdaterInit,
};
use tgin::webhook::RelayAction;

fn drain_all(q: &mut LongPollRoute) -> Vec<Value> {
    let params = GetUpdatesParams { offset: None, timeout: Some(0), limit: Some(1000) };
    match q.handle_request(&params, false) {
        PollStep::Reply(batch) => batch,
        PollStep::Wait => panic!("a zero-timeout poll never waits"),
    }
}

#[test]
fn build_route_round_robin() {
    let cfg = RouteStrategyConfig::RoundRobinLB {
        routes: vec![
            RouteConfig::LongPollRoute { path: "/a".to_string() },
            RouteConfig::WebhookRoute { url: "http://hook".to_string() },
            RouteConfig::LongPollRoute { path: "/b".to_string() },
        ],
    };
    let mut queues: Vec<LongPollRoute> = Vec::new();
    let mut root = build_route(cfg, &mut queues);
    assert_eq!(queues.len(), 2);
    assert_eq!(queues[0].path(), "/a");
    assert_eq!(queues[1].path(), "/b");
    let mut relays: Vec<RelayAction> = Vec::new();
    for i in 0..3 {
        root.process(&mut queues, Value::from(i), &mut relays);
    }
    assert_eq!(drain_all(&mut queues[0]), vec![Value::from(0)]);
    assert_eq!(drain_all(&mut queues[1]), vec![Value::from(2)]);
    assert_eq!(relays.len(), 1);
    assert_eq!(relays[0].update, Value::from(1));
}

#[test]
fn build_route_broadcast() {
    let cfg = RouteStrategyConfig::AllLB {
        routes: vec![
            RouteConfig::LongPollRoute { path: "/a".to_string() },
            RouteConfig::LongPollRoute { path: "/b".to_string() },
        ],
    };
    let mut queues: Vec<LongPollRoute> = Vec::new();
    let mut root = build_route(cfg, &mut queues);
    let mut relays: Vec<RelayAction> = Vec::new();
    root.process(&mut queues, Value::from(9), &mut relays);
    assert_eq!(drain_all(&mut queues[0]), vec![Value::from(9)]);
    assert_eq!(drain_all(&mut queues[1]), vec![Value::from(9)]);
}

#[test]
fn build_route_keeps_existing_queues() {
    let mut queues = vec![LongPollRoute::new("/old".to_string())];
    let cfg = RouteStrategyConfig::AllLB {
        routes: vec![RouteConfig::LongPollRoute { path: "/new".to_string() }],
    };
    let root = build_route(cfg, &mut queues);
    assert_eq!(queues.len(), 2);
    assert_eq!(queues[0].path(), "/old");
    assert_eq!(queues[1].path(), "/new");
    match root {
        Route::All(lb) => assert_eq!(lb.routes.len(), 1),
        _ => panic!("expected a broadcast root"),
    }
}

#[test]
fn build_updates_maps_each_config() {
    let configs = vec![
        UpdateConfig::LongPollUpdate {
            token: "t1".to_string(),
            url: Some("http://src".to_string()),
            default_timeout_sleep: 25,
            error_timeout_sleep: 5,
        },
        UpdateConfig::WebhookUpdate { path: "/hook".to_string(), registration: None },
    ];
    let inits = build_updates(configs);
    assert_eq!(inits.len(), 2);
    match &inits[0] {
        UpdaterInit::LongPoll { token, url, default_timeout_sleep, error_timeout_sleep } => {
            assert_eq!(token, "t1");
            assert_eq!(url.as_deref(), Some("http://src"));
            assert_eq!(*default_timeout_sleep, 25);
            assert_eq!(*error_timeout_sleep, 5);
        },
        _ => panic!("expected a long-poll source"),
    }
    match &inits[1] {
        UpdaterInit::Webhook { path } => assert_eq!(path, "/hook"),
        _ => panic!("expected a webhook source"),
    }
}

#[test]
fn json_struct_describes_tree() {
    let cfg = RouteStrategyConfig::RoundRobinLB {
        routes: vec![
            RouteConfig::LongPollRoute { path: "/a".to_string() },
            RouteConfig::WebhookRoute { url: "http://hook".to_string() },
        ],
    };
    let mut queues: Vec<LongPollRoute> = Vec::new();
    let root = build_route(cfg, &mut queues);
    let doc = root.json_struct(&queues);
    match doc {
        RouteDoc::Balancer { name, routes } => {
            assert_eq!(name, "round-robin");
            assert_eq!(routes.len(), 2);
            match &routes[0] {
                RouteDoc::Longpoll { path } => assert_eq!(path, "/a"),
                _ => panic!("expected a longpoll leaf document"),
            }
            match &routes[1] {
                RouteDoc::Webhook { url } => assert_eq!(url, "http://hook"),
                _ => panic!("expected a webhook leaf document"),
            }
        },
        _ => panic!("expected a balancer document"),
    }
}
