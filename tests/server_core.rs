use rust_mcp::dispatch::{create_error_response, handle_initialize, handle_notification, handle_request, NotificationOutcome};
use rust_mcp::error::ApiError;
use rust_mcp::schema::{
    CallToolRequestParams, ClientCapabilities, Implementation, InitializeRequestParams,
    InitializedNotificationParams, JSONRPCMessage, JSONRPCNotification, JSONRPCRequest, JSONRPCResponse,
    NotificationBaseParams, NotificationParams, PingRequestParams, ProtocolVersion, RequestBaseParams,
    RequestId, RequestParams, ResultEnum, RootCapabilities, INTERNAL_ERROR, INVALID_REQUEST, METHOD_NOT_FOUND,
};
use rust_mcp::server::{Delivery, Server};
use rust_mcp::session::{InitializeStatus, Mailbox, Message};

fn init_request(id: RequestId) -> JSONRPCRequest {
    JSONRPCRequest {
        id,
        json_rpc: "2.0".to_string(),
        params: RequestParams::Initialize(InitializeRequestParams {
            protocol_version: ProtocolVersion::Mcp2024_11_05,
            capabilities: ClientCapabilities {
                experimental: None,
                roots: Some(RootCapabilities { list_changed: Some(true) }),
                sampling: None,
            },
            client_info: Implementation { name: "client".to_string(), version: "1.0".to_string() },
        }),
    }
}

fn tool_call(id: i64) -> JSONRPCRequest {
    JSONRPCRequest {
        id: RequestId::Number(id),
        json_rpc: "2.0".to_string(),
        params: RequestParams::CallTool(CallToolRequestParams { name: "t".to_string(), arguments: None }),
    }
}

fn initialized() -> JSONRPCNotification {
    JSONRPCNotification {
        json_rpc: "2.0".to_string(),
        params: NotificationParams::Initialized(InitializedNotificationParams {
            notification_base: NotificationBaseParams { meta: None, extra: Vec::new() },
        }),
    }
}

fn error_of(m: &JSONRPCMessage) -> (RequestId, i64, String) {
    match m {
        JSONRPCMessage::Response(JSONRPCResponse::Error(e)) => (e.id.clone_id(), e.error.code, e.error.message.clone()),
        other => panic!("expected an error response, got {other:?}"),
    }
}

#[test]
fn handshake_moves_forward_and_rejects_repeats() {
    let mut server = Server::new("test", "0.1", 3001, 32);
    assert!(server.new_connection(7));
    assert_eq!(server.status_of(7), Some(InitializeStatus::NotInitialized));

    let r = handle_request(&mut server, init_request(RequestId::Number(1)), 7);
    match &r {
        JSONRPCMessage::Response(JSONRPCResponse::Result(res)) => {
            assert_eq!(res.id, RequestId::Number(1));
            assert_eq!(res.json_rpc, "2.0");
            match &res.result.defined_fields {
                ResultEnum::Initialize(ir) => {
                    assert_eq!(ir.protocol_version, ProtocolVersion::Mcp2024_11_05);
                    assert_eq!(ir.server_info.name, "test");
                    assert_eq!(ir.server_info.version, "0.1");
                    assert_eq!(ir.instructions, None);
                },
                other => panic!("expected an initialize result, got {other:?}"),
            }
        },
        other => panic!("expected a result, got {other:?}"),
    }
    assert_eq!(server.status_of(7), Some(InitializeStatus::Initializing));

    let again = handle_request(&mut server, init_request(RequestId::String("x".to_string())), 7);
    assert_eq!(error_of(&again), (RequestId::String("x".to_string()), INVALID_REQUEST, "Connection already initializing".to_string()));
    assert_eq!(server.status_of(7), Some(InitializeStatus::Initializing));

    assert_eq!(handle_notification(&mut server, &initialized(), 7), Ok(NotificationOutcome::Accepted));
    assert_eq!(server.status_of(7), Some(InitializeStatus::Initialized));

    let third = handle_request(&mut server, init_request(RequestId::Number(3)), 7);
    assert_eq!(error_of(&third), (RequestId::Number(3), INVALID_REQUEST, "Connection already initialized".to_string()));
    assert_eq!(handle_notification(&mut server, &initialized(), 7), Ok(NotificationOutcome::Rejected));
    assert_eq!(server.status_of(7), Some(InitializeStatus::Initialized));
}

#[test]
fn requests_before_initialize_are_invalid() {
    let mut server = Server::new("test", "0.1", 3001, 32);
    server.new_connection(5);
    let r = handle_request(&mut server, tool_call(9), 5);
    assert_eq!(error_of(&r), (RequestId::Number(9), INVALID_REQUEST, "Connection not initialized".to_string()));
    assert_eq!(server.status_of(5), Some(InitializeStatus::NotInitialized));
    assert_eq!(handle_notification(&mut server, &initialized(), 5), Ok(NotificationOutcome::Rejected));
    assert_eq!(server.status_of(5), Some(InitializeStatus::NotInitialized));
}

#[test]
fn after_initialize_ping_answers_and_other_methods_are_not_found() {
    let mut server = Server::new("test", "0.1", 3001, 32);
    server.new_connection(5);
    handle_request(&mut server, init_request(RequestId::Number(1)), 5);
    let early = handle_request(&mut server, tool_call(6), 5);
    assert_eq!(error_of(&early), (RequestId::Number(6), INVALID_REQUEST, "Connection not initialized".to_string()));
    assert_eq!(server.status_of(5), Some(InitializeStatus::Initializing));
    assert_eq!(handle_notification(&mut server, &initialized(), 5), Ok(NotificationOutcome::Accepted));
    let r = handle_request(&mut server, tool_call(2), 5);
    assert_eq!(error_of(&r), (RequestId::Number(2), METHOD_NOT_FOUND, "Method not found".to_string()));
    let ping = JSONRPCRequest {
        id: RequestId::Number(4),
        json_rpc: "2.0".to_string(),
        params: RequestParams::Ping(PingRequestParams { request_base: RequestBaseParams { meta: None, extra: Vec::new() } }),
    };
    match handle_request(&mut server, ping, 5) {
        JSONRPCMessage::Response(JSONRPCResponse::Result(res)) => {
            assert_eq!(res.id, RequestId::Number(4));
            assert!(matches!(res.result.defined_fields, ResultEnum::Empty(_)));
        },
        other => panic!("expected an empty result, got {other:?}"),
    }
}

#[test]
fn unknown_session_gets_an_internal_error() {
    let mut server = Server::new("test", "0.1", 3001, 32);
    let r = handle_request(&mut server, tool_call(11), 42);
    assert_eq!(error_of(&r), (RequestId::Number(11), INTERNAL_ERROR, "Session not found".to_string()));
    assert_eq!(handle_notification(&mut server, &initialized(), 42), Err(ApiError::MissingClient));
}

#[test]
fn error_response_echoes_id_and_code() {
    let r = create_error_response(&RequestId::String("abc".to_string()), -32700, "bad");
    assert_eq!(error_of(&r), (RequestId::String("abc".to_string()), -32700, "bad".to_string()));
}

#[test]
fn initialize_response_carries_server_identity() {
    let server = Server::new("name", "9.9", 1, 4);
    match handle_initialize(&server, &RequestId::Number(8)) {
        JSONRPCMessage::Response(JSONRPCResponse::Result(res)) => {
            assert_eq!(res.id, RequestId::Number(8));
            match &res.result.defined_fields {
                ResultEnum::Initialize(ir) => {
                    assert_eq!(ir.server_info.name, "name");
                    assert_eq!(ir.server_info.version, "9.9");
                    assert_eq!(ir.capabilities.tools, None);
                },
                other => panic!("unexpected {other:?}"),
            }
        },
        other => panic!("unexpected {other:?}"),
    }
}

#[test]
fn sessions_are_distinct_and_isolated() {
    let mut server = Server::new("test", "0.1", 3001, 32);
    let a = server.create_session().unwrap();
    let b = server.create_session().unwrap();
    let c = server.create_session().unwrap();
    assert!(a != b && b != c && a != c);
    assert_eq!(server.session_count(), 3);
    assert!(server.close_connection(b));
    assert!(!server.has_session(b));
    assert!(server.has_session(a));
    assert!(server.has_session(c));
    assert!(!server.close_connection(b));
    assert!(!server.new_connection(a));
    assert_eq!(server.session_count(), 2);
}

fn ping_response(id: i64) -> JSONRPCMessage {
    create_error_response(&RequestId::Number(id), -1, "m")
}

#[test]
fn mailbox_keeps_order_and_bound() {
    let mut server = Server::new("test", "0.1", 3001, 2);
    server.new_connection(1);
    assert_eq!(server.deliver(Message { session_id: 1, sse_message: ping_response(1) }), Delivery::Queued);
    assert_eq!(server.deliver(Message { session_id: 1, sse_message: ping_response(2) }), Delivery::Queued);
    assert_eq!(server.deliver(Message { session_id: 1, sse_message: ping_response(3) }), Delivery::Full);
    assert_eq!(server.deliver(Message { session_id: 2, sse_message: ping_response(4) }), Delivery::NoSession);
    let first = server.next_message(1).unwrap().unwrap();
    assert_eq!(error_of(&first.sse_message).0, RequestId::Number(1));
    assert_eq!(server.deliver(Message { session_id: 1, sse_message: ping_response(5) }), Delivery::Queued);
    assert_eq!(error_of(&server.next_message(1).unwrap().unwrap().sse_message).0, RequestId::Number(2));
    assert_eq!(error_of(&server.next_message(1).unwrap().unwrap().sse_message).0, RequestId::Number(5));
    assert!(server.next_message(1).unwrap().is_none());
    server.close_connection(1);
    assert_eq!(server.next_message(1).unwrap_err(), ApiError::MissingClient);
}

#[test]
fn mailbox_drains_in_push_order() {
    let mut mailbox = Mailbox::new(8);
    for i in 1..=3 {
        assert!(mailbox.push(Message { session_id: 0, sse_message: ping_response(i) }).is_ok());
    }
    assert_eq!(mailbox.len(), 3);
    let mut seen = Vec::new();
    while let Some(m) = mailbox.pop() {
        seen.push(error_of(&m.sse_message).0);
    }
    assert_eq!(seen, vec![RequestId::Number(1), RequestId::Number(2), RequestId::Number(3)]);
}
