use rust_mcp::codec::{decode_message, encode_message};
use rust_mcp::json::{Json, Number};
use rust_mcp::schema::{JSONRPCMessage, JSONRPCResponse, RequestId, ResultEnum};
use rust_mcp::server::Server;
use rust_mcp::transport::{endpoint_uri, stream_step, submit, StreamAction, StreamEvent, StreamState, SubmitOutcome};

fn s(text: &str) -> Json {
    Json::Str(text.to_string())
}

fn obj(members: Vec<(&str, Json)>) -> Json {
    Json::Object(members.into_iter().map(|(k, v)| (k.to_string(), v)).collect())
}

fn member<'a>(j: &'a Json, key: &str) -> Option<&'a Json> {
    match j {
        Json::Object(m) => m.iter().find(|(k, _)| k == key).map(|(_, v)| v),
        _ => None,
    }
}

fn initialize_json(id: i64) -> Json {
    obj(vec![
        ("jsonrpc", s("2.0")),
        ("id", Json::Number(Number::Int(id))),
        ("method", s("initialize")),
        (
            "params",
            obj(vec![
                ("protocolVersion", s("2024-11-05")),
                ("capabilities", obj(vec![])),
                ("clientInfo", obj(vec![("name", s("c")), ("version", s("1"))])),
            ]),
        ),
    ])
}

/// The session token that the endpoint announcement carries.
fn token_of(id: u128) -> String {
    let uri = endpoint_uri("messages", id);
    uri.split_once("sessionId=").unwrap().1.to_string()
}

#[test]
fn session_token_reads_back() {
    let id: u128 = 0x0123_4567_89ab_cdef_0123_4567_89ab_cdef;
    let token = token_of(id);
    assert_eq!(token, "01234567-89ab-cdef-0123-456789abcdef");
    let mut server = Server::new("test", "0.1", 3001, 32);
    assert!(server.new_connection(id));
    let call = obj(vec![("jsonrpc", s("2.0")), ("id", Json::Number(Number::Int(1))), ("method", s("ping"))]);
    assert_eq!(submit(&mut server, &token, decode_message(&call).unwrap()), SubmitOutcome::Delivered(id));
    let call = obj(vec![("jsonrpc", s("2.0")), ("id", Json::Number(Number::Int(2))), ("method", s("ping"))]);
    assert_eq!(submit(&mut server, "not a token", decode_message(&call).unwrap()), SubmitOutcome::Dropped);
}

#[test]
fn endpoint_uri_names_the_session() {
    assert_eq!(endpoint_uri("messages", 1), "messages?sessionId=00000000-0000-0000-0000-000000000001");
}

#[test]
fn stream_announces_endpoint_then_messages() {
    let mut server = Server::new("test", "0.1", 3001, 32);
    let id = server.create_session().unwrap();
    let token = token_of(id);

    let (state, action) = stream_step(&mut server, id, "messages", StreamState::Open, StreamEvent::Ready);
    assert_eq!(state, StreamState::Streaming);
    match action {
        StreamAction::Endpoint(uri) => assert_eq!(uri, format!("messages?sessionId={token}")),
        other => panic!("expected the endpoint first, got {other:?}"),
    }

    let (state, action) = stream_step(&mut server, id, "messages", state, StreamEvent::Ready);
    assert_eq!(state, StreamState::Streaming);
    assert!(matches!(action, StreamAction::Idle));

    let message = decode_message(&initialize_json(1)).unwrap();
    assert_eq!(submit(&mut server, &token, message), SubmitOutcome::Delivered(id));

    let (state, action) = stream_step(&mut server, id, "messages", state, StreamEvent::Ready);
    let sent = match action {
        StreamAction::Send(m) => m,
        other => panic!("expected a message, got {other:?}"),
    };
    let wire = encode_message(&sent);
    assert_eq!(member(&wire, "jsonrpc"), Some(&s("2.0")));
    assert_eq!(member(&wire, "id"), Some(&Json::Number(Number::Int(1))));
    let result = member(&wire, "result").unwrap();
    assert_eq!(member(result, "protocolVersion"), Some(&s("2024-11-05")));
    assert!(member(result, "capabilities").is_some());
    let info = member(result, "serverInfo").unwrap();
    assert_eq!(member(info, "name"), Some(&s("test")));

    let (state, action) = stream_step(&mut server, id, "messages", state, StreamEvent::KeepAlive);
    assert!(matches!(action, StreamAction::Heartbeat));
    let (state, action) = stream_step(&mut server, id, "messages", state, StreamEvent::Disconnected);
    assert_eq!(state, StreamState::Closed);
    assert!(matches!(action, StreamAction::End));
    assert!(!server.has_session(id));
}

#[test]
fn tool_call_before_initialize_streams_an_error() {
    let mut server = Server::new("test", "0.1", 3001, 32);
    let id = server.create_session().unwrap();
    let token = token_of(id);
    let call = obj(vec![
        ("jsonrpc", s("2.0")),
        ("id", Json::Number(Number::Int(3))),
        ("method", s("tools/call")),
        ("params", obj(vec![("name", s("echo"))])),
    ]);
    let message = decode_message(&call).unwrap();
    assert_eq!(submit(&mut server, &token, message), SubmitOutcome::Delivered(id));
    let (state, _) = stream_step(&mut server, id, "messages", StreamState::Open, StreamEvent::Ready);
    let (_, action) = stream_step(&mut server, id, "messages", state, StreamEvent::Ready);
    let sent = match action {
        StreamAction::Send(m) => m,
        other => panic!("expected a message, got {other:?}"),
    };
    let wire = encode_message(&sent);
    assert_eq!(member(&wire, "id"), Some(&Json::Number(Number::Int(3))));
    let error = member(&wire, "error").unwrap();
    assert_eq!(member(error, "code"), Some(&Json::Number(Number::Int(-32600))));
    assert_eq!(member(error, "message"), Some(&s("Connection not initialized")));
    assert!(member(&wire, "result").is_none());
}

#[test]
fn submission_for_unknown_session_is_dropped() {
    let mut server = Server::new("test", "0.1", 3001, 32);
    let message = decode_message(&initialize_json(1)).unwrap();
    assert_eq!(submit(&mut server, &token_of(77), message), SubmitOutcome::Dropped);
    let message = decode_message(&initialize_json(1)).unwrap();
    assert_eq!(submit(&mut server, "garbage", message), SubmitOutcome::Dropped);
    assert_eq!(server.session_count(), 0);
}

#[test]
fn closed_stream_stays_closed() {
    let mut server = Server::new("test", "0.1", 3001, 32);
    let id = server.create_session().unwrap();
    server.close_connection(id);
    let (state, action) = stream_step(&mut server, id, "m", StreamState::Streaming, StreamEvent::Ready);
    assert_eq!(state, StreamState::Closed);
    assert!(matches!(action, StreamAction::End));
    let (state, action) = stream_step(&mut server, id, "m", StreamState::Closed, StreamEvent::KeepAlive);
    assert_eq!(state, StreamState::Closed);
    assert!(matches!(action, StreamAction::End));
}

#[test]
fn initialize_response_round_trips() {
    let mut server = Server::new("test", "0.1", 3001, 32);
    let id = server.create_session().unwrap();
    let token = token_of(id);
    submit(&mut server, &token, decode_message(&initialize_json(5)).unwrap());
    let sent = server.next_message(id).unwrap().unwrap().sse_message;
    let wire = encode_message(&sent);
    let back = decode_message(&wire).unwrap();
    assert_eq!(back, sent);
    match back {
        JSONRPCMessage::Response(JSONRPCResponse::Result(r)) => {
            assert_eq!(r.id, RequestId::Number(5));
            assert!(matches!(r.result.defined_fields, ResultEnum::Initialize(_)));
        },
        other => panic!("unexpected {other:?}"),
    }
}
