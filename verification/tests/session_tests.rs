use flow::session::SessionManager;

#[test]
fn test_new_session_manager_is_empty() {
    let mgr = SessionManager::new();
    assert!(mgr.get_session_id("architect").is_none());
}

#[test]
fn test_register_and_lookup_session() {
    let mut mgr = SessionManager::new();
    mgr.register("architect", "abc-123".to_string());
    assert_eq!(mgr.get_session_id("architect").map(|s| s.as_str()), Some("abc-123"));
}

#[test]
fn test_lookup_unknown_tag_returns_none() {
    let mgr = SessionManager::new();
    assert!(mgr.get_session_id("nonexistent").is_none());
}

#[test]
fn test_register_overwrites_existing_session() {
    let mut mgr = SessionManager::new();
    mgr.register("architect", "old-id".to_string());
    mgr.register("architect", "new-id".to_string());
    assert_eq!(mgr.get_session_id("architect").map(|s| s.as_str()), Some("new-id"));
}

#[test]
fn test_multiple_tags_are_independent() {
    let mut mgr = SessionManager::new();
    mgr.register("architect", "id-arch".to_string());
    mgr.register("coder", "id-coder".to_string());
    assert_eq!(mgr.get_session_id("architect").map(|s| s.as_str()), Some("id-arch"));
    assert_eq!(mgr.get_session_id("coder").map(|s| s.as_str()), Some("id-coder"));
}

#[test]
fn test_resume_args_no_tag() {
    let mgr = SessionManager::new();
    assert!(mgr.resume_args(None).is_empty());
}

#[test]
fn test_resume_args_unknown_tag() {
    let mgr = SessionManager::new();
    assert!(mgr.resume_args(Some("architect")).is_empty());
}

#[test]
fn test_resume_args_known_tag() {
    let mut mgr = SessionManager::new();
    mgr.register("architect", "abc-123".to_string());
    let args = mgr.resume_args(Some("architect"));
    assert_eq!(args, vec!["--resume", "abc-123"]);
}

#[test]
fn test_resume_args_correct_flag_name() {
    let mut mgr = SessionManager::new();
    mgr.register("coder", "xyz-789".to_string());
    let args = mgr.resume_args(Some("coder"));
    assert_eq!(args[0], "--resume");
    assert_eq!(args[1], "xyz-789");
}
