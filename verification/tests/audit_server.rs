use notes_rpc::JsonRpcServer;
use notes_rpc::LifecycleError;
use notes_rpc::Logger;

#[test]
fn test_server_init() {
    let server = JsonRpcServer::new();
    assert!(!server.is_running());
}

#[test]
fn audit_log_keeps_at_most_fifty_entries_in_order() {
    let mut logger = Logger::new();
    for i in 0..51 {
        logger.log_request(
            format!("POST{}", i),
            "/".to_string(),
            "content-type: json".to_string(),
            None,
        );
    }
    let logs = logger.get_logs();
    assert_eq!(logs.len(), 50);
    // the earliest entry was evicted; the latest 50 remain in arrival order
    assert_eq!(logs[0].method, "POST1");
    assert_eq!(logs[49].method, "POST50");
    for (k, entry) in logs.iter().enumerate() {
        assert_eq!(entry.method, format!("POST{}", k + 1));
        assert_eq!(entry.uri, "/");
        assert!(entry.body.is_none());
        assert!(entry.response.is_none());
    }
}

#[test]
fn audit_log_attaches_body_and_response_to_last_entry() {
    let mut logger = Logger::new();
    logger.log_request("POST".to_string(), "/a".to_string(), "".to_string(), None);
    logger.log_request("POST".to_string(), "/b".to_string(), "".to_string(), None);
    logger.log_body("{\"x\":1}".to_string());
    logger.log_response("\"done\"".to_string());
    let logs = logger.get_logs();
    assert_eq!(logs.len(), 2);
    assert!(logs[0].body.is_none());
    assert!(logs[0].response.is_none());
    assert_eq!(logs[1].body.as_deref(), Some("{\"x\":1}"));
    assert_eq!(logs[1].response.as_deref(), Some("\"done\""));
}

#[test]
fn audit_log_clear_empties() {
    let mut logger = Logger::new();
    logger.log_request("GET".to_string(), "/".to_string(), "".to_string(), None);
    logger.clear_logs();
    assert_eq!(logger.get_logs().len(), 0);
}

#[test]
fn lifecycle_stop_before_start_fails() {
    let mut server = JsonRpcServer::new();
    match server.stop() {
        Err(LifecycleError::NotRunning) => {}
        _ => panic!("stopping a stopped server must fail with NotRunning"),
    }
    assert!(!server.is_running());
}

#[test]
fn lifecycle_start_without_handle_fails() {
    let mut server = JsonRpcServer::new();
    match server.start() {
        Err(LifecycleError::HandleNotSet) => {}
        _ => panic!("starting without the host handle must fail"),
    }
    assert!(!server.is_running());
}

#[test]
fn lifecycle_double_start_fails_and_stays_running() {
    let mut server = JsonRpcServer::new();
    server.set_app_handle();
    assert!(server.start().is_ok());
    assert!(server.is_running());
    match server.start() {
        Err(LifecycleError::AlreadyRunning) => {}
        _ => panic!("second start must fail with AlreadyRunning"),
    }
    assert!(server.is_running());
    assert!(server.stop().is_ok());
    assert!(!server.is_running());
}

#[test]
fn lifecycle_error_messages() {
    assert_eq!(LifecycleError::AlreadyRunning.message(), "Server is already running");
    assert_eq!(LifecycleError::NotRunning.message(), "Server is not running");
    assert_eq!(LifecycleError::HandleNotSet.message(), "App handle is not set");
}

#[test]
fn server_owns_audit_log() {
    let mut server = JsonRpcServer::new();
    server
        .logger
        .log_request("GET".to_string(), "/logs".to_string(), "".to_string(), None);
    let logs = server.get_logs();
    assert_eq!(logs.len(), 1);
    assert_eq!(logs[0].uri, "/logs");
    server.clear_logs();
    assert!(server.get_logs().is_empty());
}
