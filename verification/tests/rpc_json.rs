use notes_rpc::Json;
use notes_rpc::Logger;
use notes_rpc::NoteStore;
use notes_rpc::RpcError;
use notes_rpc::SystemInfo;
use notes_rpc::json::render;
use notes_rpc::rpc::rpc_echo;
use notes_rpc::rpc::rpc_notes_create;
use notes_rpc::rpc::rpc_notes_delete;
use notes_rpc::rpc::rpc_notes_get;
use notes_rpc::rpc::rpc_notes_list;
use notes_rpc::rpc::rpc_notes_update;
use notes_rpc::rpc::rpc_system_info;

fn named(fields: Vec<(&str, Json)>) -> Json {
    Json::Obj(fields.into_iter().map(|(k, v)| (k.to_string(), v)).collect())
}

fn expect_invalid_params(r: Result<Json, RpcError>, msg: &str) {
    match r {
        Err(RpcError::InvalidParams(m)) => assert_eq!(m, msg),
        _ => panic!("expected InvalidParams({:?})", msg),
    }
}

#[test]
fn render_compact_json() {
    let j = named(vec![
        ("a", Json::UInt(0)),
        ("b", Json::Arr(vec![Json::Null, Json::Bool(true), Json::Bool(false)])),
        ("c", Json::Str("x".to_string())),
    ]);
    assert_eq!(render(&j), "{\"a\":0,\"b\":[null,true,false],\"c\":\"x\"}");
}

#[test]
fn render_escapes_strings() {
    let j = Json::Str("a\"b\\c\nd".to_string());
    assert_eq!(render(&j), "\"a\\\"b\\\\c\\u000ad\"");
}

#[test]
fn render_large_number() {
    assert_eq!(render(&Json::UInt(18446744073709551615)), "18446744073709551615");
    assert_eq!(render(&Json::UInt(0)), "0");
    assert_eq!(render(&Json::Num("-1.5".to_string())), "-1.5");
}

#[test]
fn echo_accepts_named_and_positional_params() {
    let mut logger = Logger::new();
    let r = rpc_echo(&named(vec![("message", Json::Str("hi".to_string()))]), &mut logger);
    match r {
        Ok(Json::Str(s)) => assert_eq!(s, "hi"),
        _ => panic!("named echo must return the message"),
    }
    let r = rpc_echo(&Json::Arr(vec![Json::Str("hi".to_string())]), &mut logger);
    match r {
        Ok(Json::Str(s)) => assert_eq!(s, "hi"),
        _ => panic!("positional echo must return the message"),
    }
}

#[test]
fn echo_rejects_numeric_message() {
    let mut logger = Logger::new();
    let r = rpc_echo(&named(vec![("message", Json::UInt(5))]), &mut logger);
    expect_invalid_params(r, "Missing or invalid 'message' parameter");
    let r = rpc_echo(&Json::Arr(vec![Json::UInt(5)]), &mut logger);
    expect_invalid_params(r, "Expected string parameter");
    let r = rpc_echo(&Json::Str("hi".to_string()), &mut logger);
    expect_invalid_params(r, "Expected object or array params");
}

#[test]
fn echo_logs_body_and_response() {
    let mut logger = Logger::new();
    logger.log_request("POST".to_string(), "/".to_string(), "".to_string(), None);
    let _ = rpc_echo(&named(vec![("message", Json::Str("hi".to_string()))]), &mut logger);
    let logs = logger.get_logs();
    assert_eq!(logs[0].body.as_deref(), Some("{\"message\":\"hi\"}"));
    assert_eq!(logs[0].response.as_deref(), Some("\"hi\""));
}

#[test]
fn system_info_reports_snapshot() {
    let mut logger = Logger::new();
    let info = SystemInfo {
        app_name: "app".to_string(),
        version: "0.1.0".to_string(),
        os: "linux".to_string(),
        arch: "x86_64".to_string(),
    };
    let r = rpc_system_info(&Json::Null, &info, &mut logger).unwrap();
    assert_eq!(
        render(&r),
        "{\"app_name\":\"app\",\"version\":\"0.1.0\",\"os\":\"linux\",\"arch\":\"x86_64\"}"
    );
}

#[test]
fn notes_methods_fail_without_store() {
    let mut logger = Logger::new();
    let mut missing: Option<NoteStore> = None;
    match rpc_notes_list(&Json::Null, &missing, &mut logger) {
        Err(RpcError::InternalError) => {}
        _ => panic!("list without a store must fail internally"),
    }
    let params = named(vec![("id", Json::Str("x".to_string()))]);
    match rpc_notes_get(&params, &missing, &mut logger) {
        Err(RpcError::InternalError) => {}
        _ => panic!("get without a store must fail internally"),
    }
    match rpc_notes_delete(&params, &mut missing, &mut logger) {
        Err(RpcError::InternalError) => {}
        _ => panic!("delete without a store must fail internally"),
    }
}

#[test]
fn notes_rpc_round_trip() {
    let mut logger = Logger::new();
    let mut store = Some(NoteStore::new(None));

    let created = rpc_notes_create(
        &named(vec![
            ("title", Json::Str("T".to_string())),
            ("content", Json::Str("C".to_string())),
        ]),
        &mut store,
        &mut logger,
    )
    .expect("create succeeds");
    let id = match &created {
        Json::Obj(fields) => match fields.iter().find(|(k, _)| k == "id") {
            Some((_, Json::Str(s))) => s.clone(),
            _ => panic!("created note must carry its id"),
        },
        _ => panic!("created note must be an object"),
    };

    let got = rpc_notes_get(
        &named(vec![("id", Json::Str(id.clone()))]),
        &store,
        &mut logger,
    )
    .unwrap();
    assert_eq!(render(&got), render(&created));

    let updated = rpc_notes_update(
        &named(vec![
            ("id", Json::Str(id.clone())),
            ("title", Json::Str("T2".to_string())),
            ("content", Json::Null),
        ]),
        &mut store,
        &mut logger,
    )
    .unwrap();
    let text = render(&updated);
    assert!(text.contains("\"title\":\"T2\""));
    assert!(text.contains("\"content\":\"C\""));

    let listed = rpc_notes_list(&Json::Null, &store, &mut logger).unwrap();
    match &listed {
        Json::Arr(items) => assert_eq!(items.len(), 1),
        _ => panic!("list must answer an array"),
    }

    let deleted = rpc_notes_delete(
        &named(vec![("id", Json::Str(id.clone()))]),
        &mut store,
        &mut logger,
    )
    .unwrap();
    assert!(matches!(deleted, Json::Bool(true)));
    let deleted_again = rpc_notes_delete(
        &named(vec![("id", Json::Str(id))]),
        &mut store,
        &mut logger,
    )
    .unwrap();
    assert!(matches!(deleted_again, Json::Bool(false)));
}

#[test]
fn notes_update_unknown_id_answers_null() {
    let mut logger = Logger::new();
    let mut store = Some(NoteStore::new(None));
    let r = rpc_notes_update(
        &named(vec![("id", Json::Str("absent".to_string()))]),
        &mut store,
        &mut logger,
    )
    .unwrap();
    assert!(matches!(r, Json::Null));
}

#[test]
fn decoder_error_messages() {
    let mut logger = Logger::new();
    let mut store = Some(NoteStore::new(None));

    let r = rpc_notes_get(&named(vec![]), &store, &mut logger);
    expect_invalid_params(r, "Missing or invalid 'id' parameter");
    let r = rpc_notes_get(&Json::Arr(vec![]), &store, &mut logger);
    expect_invalid_params(r, "Expected string parameter for note ID");

    let r = rpc_notes_create(&named(vec![("title", Json::Str("t".to_string()))]), &mut store, &mut logger);
    expect_invalid_params(r, "Missing or invalid 'content' parameter");
    let r = rpc_notes_create(&named(vec![("content", Json::Str("c".to_string()))]), &mut store, &mut logger);
    expect_invalid_params(r, "Missing or invalid 'title' parameter");
    let r = rpc_notes_create(&Json::Arr(vec![Json::Str("t".to_string())]), &mut store, &mut logger);
    expect_invalid_params(r, "Expected title and content parameters");

    let r = rpc_notes_update(
        &named(vec![("id", Json::Str("x".to_string())), ("title", Json::UInt(1))]),
        &mut store,
        &mut logger,
    );
    expect_invalid_params(r, "Invalid 'title' parameter");
    let r = rpc_notes_update(&Json::Arr(vec![]), &mut store, &mut logger);
    expect_invalid_params(r, "Expected id, title and content parameters");
    let r = rpc_notes_update(
        &Json::Arr(vec![
            Json::Str("x".to_string()),
            Json::UInt(1),
            Json::Null,
        ]),
        &mut store,
        &mut logger,
    );
    expect_invalid_params(r, "Expected string or null for title");

    let r = rpc_notes_delete(&Json::Bool(true), &mut store, &mut logger);
    expect_invalid_params(r, "Expected object or array params");
}

#[test]
fn internal_error_message_text() {
    assert_eq!(RpcError::InternalError.message(), "Internal error");
}
