use rust_mcp::codec::{decode_message, encode_message, request_id_of, DecodeError};
use rust_mcp::wire::{
    decode_logging_level, decode_role, decode_stop_reason, encode_logging_level, encode_role, encode_stop_reason,
};
use rust_mcp::json::{Json, Number};
use rust_mcp::schema::{
    CompleteRequestRef, ErrorParams, GetPromptRequestParams, JSONRPCError, JSONRPCMessage, JSONRPCNotification,
    JSONRPCRequest, JSONRPCResponse, LoggingLevel, LoggingMessageNotificationParams, NotificationParams,
    RequestId, RequestParams, ResultEnum, Role, StopReason, ContentsResource, CallToolContent, INVALID_PARAMS, INVALID_REQUEST, METHOD_NOT_FOUND,
};

fn s(text: &str) -> Json {
    Json::Str(text.to_string())
}

fn num(n: i64) -> Json {
    Json::Number(Number::Int(n))
}

fn obj(members: Vec<(&str, Json)>) -> Json {
    Json::Object(members.into_iter().map(|(k, v)| (k.to_string(), v)).collect())
}

fn round_trip(m: &JSONRPCMessage) -> JSONRPCMessage {
    decode_message(&encode_message(m)).unwrap()
}

#[test]
fn notification_with_extension_members_round_trips() {
    let j = obj(vec![
        ("jsonrpc", s("2.0")),
        ("method", s("notifications/roots/list_changed")),
        ("_meta", obj(vec![("k", num(1))])),
        ("custom", s("kept")),
    ]);
    let m = decode_message(&j).unwrap();
    match &m {
        JSONRPCMessage::Notification(JSONRPCNotification { params: NotificationParams::RootsListChanged(p), .. }) => {
            assert_eq!(p.notification_base.meta, Some(vec![("k".to_string(), num(1))]));
            assert_eq!(p.notification_base.extra, vec![("custom".to_string(), s("kept"))]);
        },
        other => panic!("unexpected {other:?}"),
    }
    assert_eq!(encode_message(&m), j);
    assert_eq!(round_trip(&m), m);
}

#[test]
fn request_members_in_any_order_decode() {
    let j = obj(vec![
        ("params", obj(vec![("uri", s("file:///a"))])),
        ("method", s("resources/read")),
        ("id", s("r1")),
        ("jsonrpc", s("2.0")),
    ]);
    match decode_message(&j).unwrap() {
        JSONRPCMessage::Request(JSONRPCRequest { id, params: RequestParams::ReadResource(p), .. }) => {
            assert_eq!(id, RequestId::String("r1".to_string()));
            assert_eq!(p.uri, "file:///a");
        },
        other => panic!("unexpected {other:?}"),
    }
}

#[test]
fn unknown_methods_are_decode_errors() {
    let j = obj(vec![("jsonrpc", s("2.0")), ("id", num(1)), ("method", s("no/such"))]);
    let e = decode_message(&j).unwrap_err();
    assert_eq!(e, DecodeError::UnknownMethod("no/such".to_string()));
    assert_eq!(e.code(), METHOD_NOT_FOUND);
    assert_eq!(request_id_of(&j), Some(RequestId::Number(1)));
}

#[test]
fn malformed_documents_are_rejected() {
    assert_eq!(decode_message(&s("x")), Err(DecodeError::InvalidEnvelope));
    assert_eq!(DecodeError::InvalidEnvelope.code(), INVALID_REQUEST);
    assert_eq!(decode_message(&obj(vec![("jsonrpc", s("2.0"))])), Err(DecodeError::InvalidEnvelope));
    let bad = obj(vec![
        ("jsonrpc", s("2.0")),
        ("id", num(2)),
        ("method", s("resources/read")),
        ("params", obj(vec![("uri", num(3))])),
    ]);
    let e = decode_message(&bad).unwrap_err();
    assert_eq!(e, DecodeError::InvalidParams);
    assert_eq!(e.code(), INVALID_PARAMS);
}

#[test]
fn response_reads_success_first_then_error() {
    let err = obj(vec![
        ("jsonrpc", s("2.0")),
        ("id", num(4)),
        ("error", obj(vec![("code", num(-32601)), ("message", s("nope"))])),
    ]);
    match decode_message(&err).unwrap() {
        JSONRPCMessage::Response(JSONRPCResponse::Error(e)) => {
            assert_eq!(e.id, RequestId::Number(4));
            assert_eq!(e.error.code, -32601);
            assert_eq!(e.error.message, "nope");
            assert_eq!(e.error.data, None);
        },
        other => panic!("unexpected {other:?}"),
    }
    // A `result` that is not an object fails the success shape; the error shape is read instead.
    let both = obj(vec![
        ("jsonrpc", s("2.0")),
        ("id", num(5)),
        ("result", num(0)),
        ("error", obj(vec![("code", num(1)), ("message", s("m")), ("data", s("d"))])),
    ]);
    match decode_message(&both).unwrap() {
        JSONRPCMessage::Response(JSONRPCResponse::Error(e)) => assert_eq!(e.error.data, Some(s("d"))),
        other => panic!("unexpected {other:?}"),
    }
    let empty = obj(vec![("jsonrpc", s("2.0")), ("id", num(6)), ("result", obj(vec![("other", s("x"))]))]);
    match decode_message(&empty).unwrap() {
        JSONRPCMessage::Response(JSONRPCResponse::Result(r)) => {
            assert_eq!(r.result.base.extra, vec![("other".to_string(), s("x"))]);
        },
        other => panic!("unexpected {other:?}"),
    }
}

#[test]
fn logging_level_falls_back_to_text() {
    assert_eq!(decode_logging_level(&s("warning")), Ok(LoggingLevel::Warning));
    assert_eq!(decode_logging_level(&s("verbose")), Ok(LoggingLevel::Other("verbose".to_string())));
    assert_eq!(encode_logging_level(&LoggingLevel::Other("verbose".to_string())), s("verbose"));
    assert_eq!(encode_logging_level(&LoggingLevel::Emergency), s("emergency"));
    let n = obj(vec![
        ("jsonrpc", s("2.0")),
        ("method", s("notifications/message")),
        ("level", s("trace")),
        ("data", obj(vec![("a", Json::Bool(true))])),
    ]);
    match decode_message(&n).unwrap() {
        JSONRPCMessage::Notification(JSONRPCNotification {
            params: NotificationParams::LoggingMessage(LoggingMessageNotificationParams { level, logger, data }),
            ..
        }) => {
            assert_eq!(level, LoggingLevel::Other("trace".to_string()));
            assert_eq!(logger, None);
            assert_eq!(data, obj(vec![("a", Json::Bool(true))]));
        },
        other => panic!("unexpected {other:?}"),
    }
}

#[test]
fn error_response_encodes_exactly() {
    let m = JSONRPCMessage::Response(JSONRPCResponse::Error(JSONRPCError {
        json_rpc: "2.0".to_string(),
        id: RequestId::Number(1),
        error: ErrorParams { code: -32600, message: "Connection not initialized".to_string(), data: None },
    }));
    let expected = obj(vec![
        ("jsonrpc", s("2.0")),
        ("id", num(1)),
        ("error", obj(vec![("code", num(-32600)), ("message", s("Connection not initialized"))])),
    ]);
    assert_eq!(encode_message(&m), expected);
    assert_eq!(round_trip(&m), m);
}

#[test]
fn prompt_and_completion_requests_round_trip() {
    let get = JSONRPCMessage::Request(JSONRPCRequest {
        params: RequestParams::GetPrompt(GetPromptRequestParams {
            name: "p".to_string(),
            arguments: Some(vec![("a".to_string(), "b".to_string())]),
        }),
        json_rpc: "2.0".to_string(),
        id: RequestId::String("g".to_string()),
    });
    assert_eq!(round_trip(&get), get);
    let j = obj(vec![
        ("jsonrpc", s("2.0")),
        ("id", num(9)),
        ("method", s("completion/complete")),
        (
            "params",
            obj(vec![
                ("ref", obj(vec![("type", s("ref/prompt")), ("name", s("p"))])),
                ("argument", obj(vec![("name", s("x")), ("value", s("y"))])),
            ]),
        ),
    ]);
    match decode_message(&j).unwrap() {
        JSONRPCMessage::Request(JSONRPCRequest { params: RequestParams::CompleteRequest(p), .. }) => {
            assert_eq!(p.reference, CompleteRequestRef::Prompt { name: "p".to_string() });
            assert_eq!(p.argument.value, "y");
        },
        other => panic!("unexpected {other:?}"),
    }
    assert_eq!(encode_message(&decode_message(&j).unwrap()), j);
}

#[test]
fn paginated_list_without_params_reads_as_empty() {
    let j = obj(vec![("jsonrpc", s("2.0")), ("id", num(1)), ("method", s("tools/list"))]);
    match decode_message(&j).unwrap() {
        JSONRPCMessage::Request(JSONRPCRequest { params: RequestParams::ListTools(p), .. }) => {
            assert_eq!(p.paginated_base.cursor, None);
            assert!(p.paginated_base.request_base.extra.is_empty());
        },
        other => panic!("unexpected {other:?}"),
    }
}

#[test]
fn stop_reason_falls_back_to_text() {
    assert_eq!(decode_stop_reason(&s("endTurn")), Ok(StopReason::EndTurn));
    assert_eq!(decode_stop_reason(&s("maxTokens")), Ok(StopReason::MaxTokens));
    assert_eq!(decode_stop_reason(&s("toolUse")), Ok(StopReason::String("toolUse".to_string())));
    assert_eq!(decode_stop_reason(&num(1)), Err(DecodeError::InvalidParams));
    assert_eq!(encode_stop_reason(&StopReason::StopSequence), s("stopSequence"));
    assert_eq!(encode_stop_reason(&StopReason::String("toolUse".to_string())), s("toolUse"));
}

#[test]
fn roles_read_and_write() {
    assert_eq!(decode_role(&s("assistant")), Ok(Role::Assistant));
    assert_eq!(decode_role(&s("system")), Err(DecodeError::InvalidParams));
    assert_eq!(encode_role(&Role::User), s("user"));
}

#[test]
fn sampling_request_reads_numbers_as_sent() {
    let j = obj(vec![
        ("jsonrpc", s("2.0")),
        ("id", num(1)),
        ("method", s("sampling/createMessage")),
        (
            "params",
            obj(vec![
                (
                    "messages",
                    Json::Array(vec![obj(vec![
                        ("role", s("user")),
                        ("content", obj(vec![("type", s("text")), ("text", s("hi"))])),
                    ])]),
                ),
                ("temperature", Json::Number(Number::Float(0.5f64.to_bits()))),
                ("maxTokens", Json::Number(Number::UInt(u64::MAX))),
                ("stopSequences", Json::Array(vec![s("END")])),
            ]),
        ),
    ]);
    let m = decode_message(&j).unwrap();
    match &m {
        JSONRPCMessage::Request(JSONRPCRequest { params: RequestParams::CreateMessage(p), .. }) => {
            assert_eq!(p.messages.len(), 1);
            assert_eq!(p.messages[0].role, Role::User);
            assert_eq!(p.temperature, Some(Number::Float(0.5f64.to_bits())));
            assert_eq!(p.max_tokens, Some(u64::MAX));
            assert_eq!(p.stop_sequences, Some(vec!["END".to_string()]));
            assert!(p.model_preferences.is_none());
        },
        other => panic!("unexpected {other:?}"),
    }
    assert_eq!(encode_message(&m), j);
}

#[test]
fn list_results_round_trip() {
    let tools = obj(vec![
        ("jsonrpc", s("2.0")),
        ("id", num(2)),
        (
            "result",
            obj(vec![
                ("nextCursor", s("c2")),
                (
                    "tools",
                    Json::Array(vec![obj(vec![
                        ("name", s("echo")),
                        ("inputSchema", obj(vec![("type", s("object")), ("required", Json::Array(vec![s("text")]))])),
                    ])]),
                ),
            ]),
        ),
    ]);
    let m = decode_message(&tools).unwrap();
    match &m {
        JSONRPCMessage::Response(JSONRPCResponse::Result(r)) => match &r.result.defined_fields {
            ResultEnum::ListTools(t) => {
                assert_eq!(t.paginated_base.next_cursor, Some("c2".to_string()));
                assert_eq!(t.tools[0].name, "echo");
            },
            other => panic!("unexpected {other:?}"),
        },
        other => panic!("unexpected {other:?}"),
    }
    assert_eq!(encode_message(&m), tools);

    let page = obj(vec![("jsonrpc", s("2.0")), ("id", num(3)), ("result", obj(vec![("nextCursor", s("n"))]))]);
    let m = decode_message(&page).unwrap();
    match &m {
        JSONRPCMessage::Response(JSONRPCResponse::Result(r)) => {
            assert!(matches!(r.result.defined_fields, ResultEnum::Paginated(_)));
        },
        other => panic!("unexpected {other:?}"),
    }
    assert_eq!(encode_message(&m), page);
}

#[test]
fn content_results_tell_their_shapes_apart() {
    let read = obj(vec![
        ("jsonrpc", s("2.0")),
        ("id", num(4)),
        (
            "result",
            obj(vec![(
                "contents",
                Json::Array(vec![
                    obj(vec![("uri", s("a")), ("text", s("t"))]),
                    obj(vec![("uri", s("b")), ("mimeType", s("image/png")), ("blob", s("AAAA"))]),
                ]),
            )]),
        ),
    ]);
    let m = decode_message(&read).unwrap();
    match &m {
        JSONRPCMessage::Response(JSONRPCResponse::Result(r)) => match &r.result.defined_fields {
            ResultEnum::ReadResource(x) => {
                assert!(matches!(x.contents[0], ContentsResource::Text(_)));
                assert!(matches!(x.contents[1], ContentsResource::Blob(_)));
            },
            other => panic!("unexpected {other:?}"),
        },
        other => panic!("unexpected {other:?}"),
    }
    assert_eq!(encode_message(&m), read);

    let call = obj(vec![
        ("jsonrpc", s("2.0")),
        ("id", num(5)),
        (
            "result",
            obj(vec![
                (
                    "content",
                    Json::Array(vec![
                        obj(vec![("type", s("text")), ("text", s("done"))]),
                        obj(vec![("type", s("image")), ("data", s("AA")), ("mimeType", s("image/png"))]),
                    ]),
                ),
                ("isError", Json::Bool(false)),
            ]),
        ),
    ]);
    let m = decode_message(&call).unwrap();
    match &m {
        JSONRPCMessage::Response(JSONRPCResponse::Result(r)) => match &r.result.defined_fields {
            ResultEnum::CallTool(x) => {
                assert!(matches!(x.content[0], CallToolContent::Text(_)));
                assert!(matches!(x.content[1], CallToolContent::Image(_)));
                assert_eq!(x.is_error, Some(false));
            },
            other => panic!("unexpected {other:?}"),
        },
        other => panic!("unexpected {other:?}"),
    }
    assert_eq!(encode_message(&m), call);
}
