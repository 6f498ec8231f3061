use tgin::handler::{dynamic_handler, FetchError};
use tgin::longpull::GetUpdatesParams;
use tgin::registry::LongpollRegistry;

fn some_params() -> Option<GetUpdatesParams> {
    Some(GetUpdatesParams { offset: None, timeout: Some(0), limit: None })
}

#[test]
fn unreadable_body_is_400() {
    let registry = LongpollRegistry::new();
    // the body is rejected before the method is looked at
    let r = dynamic_handler(&registry, false, false, &"/p".to_string(), None);
    let err = r.err().expect("must be rejected");
    assert!(matches!(err, FetchError::BadRequest));
    assert_eq!(err.error_code(), 400);
}

#[test]
fn wrong_method_is_405() {
    let registry = LongpollRegistry::new();
    let r = dynamic_handler(&registry, true, false, &"/p".to_string(), some_params());
    let err = r.err().expect("must be rejected");
    assert!(matches!(err, FetchError::MethodNotAllowed));
    assert_eq!(err.error_code(), 405);
}

#[test]
fn unparsable_json_is_400() {
    let mut registry = LongpollRegistry::new();
    registry.register("/p".to_string(), 0);
    let r = dynamic_handler(&registry, true, true, &"/p".to_string(), None);
    let err = r.err().expect("must be rejected");
    assert!(matches!(err, FetchError::BadRequest));
    assert_eq!(err.error_code(), 400);
}

#[test]
fn unknown_path_is_404() {
    let registry = LongpollRegistry::new();
    let r = dynamic_handler(&registry, true, true, &"/missing".to_string(), some_params());
    let err = r.err().expect("must be rejected");
    assert!(matches!(err, FetchError::NotFound));
    assert_eq!(err.error_code(), 404);
}

#[test]
fn registered_path_polls_its_queue() {
    let mut registry = LongpollRegistry::new();
    registry.register("/p".to_string(), 3);
    let r = dynamic_handler(&registry, true, true, &"/p".to_string(), some_params());
    assert_eq!(r.ok(), Some(3));
}
