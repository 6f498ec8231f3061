use tgin::registry::LongpollRegistry;

#[test]
fn lookup_on_empty_registry() {
    let registry = LongpollRegistry::new();
    assert_eq!(registry.lookup(&"/p".to_string()), None);
}

#[test]
fn register_then_lookup() {
    let mut registry = LongpollRegistry::new();
    registry.register("/a".to_string(), 0);
    registry.register("/b".to_string(), 1);
    assert_eq!(registry.lookup(&"/a".to_string()), Some(0));
    assert_eq!(registry.lookup(&"/b".to_string()), Some(1));
    assert_eq!(registry.lookup(&"/c".to_string()), None);
}

#[test]
fn register_overwrites_same_path() {
    let mut registry = LongpollRegistry::new();
    registry.register("/p".to_string(), 0);
    registry.register("/p".to_string(), 1);
    // last write wins, silently
    assert_eq!(registry.lookup(&"/p".to_string()), Some(1));
}

#[test]
fn overwrite_leaves_other_paths_alone() {
    let mut registry = LongpollRegistry::new();
    registry.register("/keep".to_string(), 7);
    registry.register("/p".to_string(), 0);
    registry.register("/p".to_string(), 1);
    assert_eq!(registry.lookup(&"/keep".to_string()), Some(7));
}
