use uterm::registry::SessionRegistry;

fn is_uuid_v4(s: &str) -> bool {
    let b = s.as_bytes();
    b.len() == 36
        && b.iter().enumerate().all(|(i, c)| {
            if i == 8 || i == 13 || i == 18 || i == 23 {
                *c == b'-'
            } else {
                c.is_ascii_digit() || (b'a'..=b'f').contains(c)
            }
        })
        && b[14] == b'4'
        && matches!(b[19], b'8' | b'9' | b'a' | b'b')
}

#[test]
fn new_registry_is_empty() {
    let reg: SessionRegistry<u32> = SessionRegistry::new();
    assert!(reg.is_empty());
    assert!(!reg.contains("anything"));
}

#[test]
fn test_write_to_nonexistent_session() {
    let registry: SessionRegistry<u32> = SessionRegistry::new();
    let result = registry.lookup("nonexistent-session-id");
    assert!(result.is_err());
    assert!(result.unwrap_err().contains("Session not found"));
}

#[test]
fn test_resize_nonexistent_session() {
    let registry: SessionRegistry<u32> = SessionRegistry::new();
    let result = registry.resize_target("nonexistent-session-id", 80, 24);
    assert!(result.is_err());
    assert!(result.unwrap_err().contains("Session not found"));
}

#[test]
fn test_close_nonexistent_session() {
    let mut registry: SessionRegistry<u32> = SessionRegistry::new();
    // Closing a non-existent session is a no-op
    let result = registry.remove("nonexistent-session-id");
    assert!(result.is_none());
}

#[test]
fn test_resize_with_invalid_dimensions() {
    let registry: SessionRegistry<u32> = SessionRegistry::new();
    // Even with a non-existent session, validation fails first
    let result = registry.resize_target("any-session", 0, 24);
    assert!(result.is_err());
    assert!(result.unwrap_err().contains("Invalid cols"));

    let result = registry.resize_target("any-session", 80, 0);
    assert!(result.is_err());
    assert!(result.unwrap_err().contains("Invalid rows"));
}

#[test]
fn accept_id_takes_only_unused_identifiers() {
    let mut reg: SessionRegistry<u32> = SessionRegistry::new();
    assert_eq!(reg.accept_id("fresh".to_string()), Ok("fresh".to_string()));
    reg.insert("live".to_string(), 1).unwrap();
    assert_eq!(reg.accept_id("live".to_string()).unwrap_err(), "Session already exists: live");
    reg.remove("live");
    assert_eq!(reg.accept_id("live".to_string()).unwrap_err(), "Session already exists: live");
}

#[test]
fn closed_identifier_is_never_registered_again() {
    let mut reg: SessionRegistry<u32> = SessionRegistry::new();
    let id = reg.reserve_id(80, 24).unwrap();
    reg.insert(id.clone(), 1).unwrap();
    assert_eq!(reg.remove(&id), Some(1));
    assert_eq!(reg.insert(id.clone(), 2).unwrap_err(), format!("Session already exists: {}", id));
    assert!(reg.lookup(&id).is_err());
    assert!(reg.is_empty());
}

#[test]
fn write_and_resize_on_missing_session_are_not_found() {
    let reg: SessionRegistry<u32> = SessionRegistry::new();
    let err = reg.lookup("no-such-id").unwrap_err();
    assert_eq!(err, "Session not found: no-such-id");
    let err = reg.resize_target("no-such-id", 80, 24).unwrap_err();
    assert!(err.contains("Session not found"));
}

#[test]
fn close_of_missing_session_is_a_no_op() {
    let mut reg: SessionRegistry<u32> = SessionRegistry::new();
    reg.insert("a".to_string(), 1).unwrap();
    assert_eq!(reg.remove("nonexistent-session-id"), None);
    assert!(reg.contains("a"));
}

#[test]
fn resize_checks_the_geometry_before_the_lookup() {
    let reg: SessionRegistry<u32> = SessionRegistry::new();
    let err = reg.resize_target("any-session", 0, 24).unwrap_err();
    assert!(err.contains("Invalid cols"));
    let err = reg.resize_target("any-session", 80, 0).unwrap_err();
    assert!(err.contains("Invalid rows"));
}

#[test]
fn create_then_close_makes_the_id_not_found() {
    let mut reg: SessionRegistry<u32> = SessionRegistry::new();
    let id = reg.reserve_id(80, 24).unwrap();
    assert!(is_uuid_v4(&id));
    reg.insert(id.clone(), 7).unwrap();
    assert_eq!(reg.lookup(&id), Ok(&7));
    assert_eq!(reg.remove(&id), Some(7));
    let err = reg.lookup(&id).unwrap_err();
    assert!(err.contains("Session not found"));
    assert_eq!(reg.remove(&id), None);
}

#[test]
fn reserve_id_refuses_a_bad_geometry() {
    let reg: SessionRegistry<u32> = SessionRegistry::new();
    assert_eq!(
        reg.reserve_id(10, 24).unwrap_err(),
        "Invalid cols: 10. Must be between 20 and 500"
    );
    assert_eq!(
        reg.reserve_id(80, 300).unwrap_err(),
        "Invalid rows: 300. Must be between 5 and 200"
    );
}

#[test]
fn two_sessions_are_independent() {
    let mut reg: SessionRegistry<&str> = SessionRegistry::new();
    let a = reg.reserve_id(80, 24).unwrap();
    reg.insert(a.clone(), "first").unwrap();
    let b = reg.reserve_id(80, 24).unwrap();
    assert_ne!(a, b);
    reg.insert(b.clone(), "second").unwrap();
    assert_eq!(reg.remove(&a), Some("first"));
    assert_eq!(reg.lookup(&b), Ok(&"second"));
    assert_eq!(reg.resize_target(&b, 100, 30), Ok(&"second"));
    assert!(reg.lookup(&a).is_err());
}

#[test]
fn duplicate_insert_is_refused_and_keeps_the_first() {
    let mut reg: SessionRegistry<u32> = SessionRegistry::new();
    reg.insert("x".to_string(), 1).unwrap();
    assert_eq!(
        reg.insert("x".to_string(), 2).unwrap_err(),
        "Session already exists: x"
    );
    assert_eq!(reg.get("x"), Some(&1));
}
