use rust_mcp::codec::{decode_notification, decode_request};
use rust_mcp::shapes::decode_request_base_meta;
use rust_mcp::json::{Json, Number};
use rust_mcp::schema::{
    ClientNotificationParams, ClientRequestParams, ClientResult, PingRequestParams, RequestBaseParams,
    ResultBase, ResultEnum, ServerNotificationParams, ServerRequestParams, ServerResult,
    ClientCapabilities, Implementation, InitializeRequestParams, InitializedNotificationParams,
    JSONRPCNotification, JSONRPCRequest, NotificationBaseParams, NotificationParams, ProgressToken,
    ProtocolVersion, RequestId, RequestParams, RootCapabilities,
};

fn s(text: &str) -> Json {
    Json::Str(text.to_string())
}

fn obj(members: Vec<(&str, Json)>) -> Json {
    Json::Object(members.into_iter().map(|(k, v)| (k.to_string(), v)).collect())
}

#[test]
fn progress_token_deserialize() {
    let data = obj(vec![("progressToken", s("hi"))]);

    let test_progress = decode_request_base_meta(&data).unwrap();

    match test_progress.progress_token.unwrap() {
        ProgressToken::Number(num) => panic!("Progress Token should be a string but got {num}"),
        ProgressToken::String(val) => assert_eq!(val, "hi"),
    }
}

#[test]
fn initialize_message_deserialize() {
    let correct_msg = JSONRPCRequest {
        id: RequestId::Number(0),
        json_rpc: "2.0".to_string(),
        params: RequestParams::Initialize(InitializeRequestParams {
            protocol_version: ProtocolVersion::Mcp2024_11_05,
            capabilities: ClientCapabilities {
                experimental: None,
                roots: Some(RootCapabilities { list_changed: None }),
                sampling: Some(Vec::new()),
            },
            client_info: Implementation {
                version: "0.0.1".to_string(),
                name: "mcp-inspector".to_string(),
            },
        }),
    };

    let data = obj(vec![
        ("jsonrpc", s("2.0")),
        ("id", Json::Number(Number::Int(0))),
        ("method", s("initialize")),
        (
            "params",
            obj(vec![
                ("protocolVersion", s("2024-11-05")),
                ("capabilities", obj(vec![("sampling", obj(vec![])), ("roots", obj(vec![]))])),
                ("clientInfo", obj(vec![("name", s("mcp-inspector")), ("version", s("0.0.1"))])),
            ]),
        ),
    ]);

    let message: JSONRPCRequest = decode_request(&data).unwrap();

    assert_eq!(message, correct_msg);
}

#[test]
fn initialized_notification_deserialize() {
    let correct_msg = JSONRPCNotification {
        json_rpc: "2.0".to_string(),
        params: NotificationParams::Initialized(InitializedNotificationParams {
            notification_base: NotificationBaseParams { meta: None, extra: Vec::new() },
        }),
    };

    let data = obj(vec![("jsonrpc", s("2.0")), ("method", s("notifications/initialized"))]);

    let message: JSONRPCNotification = decode_notification(&data).unwrap();

    assert_eq!(message, correct_msg);
}

#[test]
fn params_split_by_sender() {
    let ping = || RequestParams::Ping(PingRequestParams { request_base: RequestBaseParams { meta: None, extra: Vec::new() } });
    assert!(matches!(Option::<ClientRequestParams>::from(ping()), Some(ClientRequestParams::Ping(_))));
    assert!(matches!(Option::<ServerRequestParams>::from(ping()), Some(ServerRequestParams::Ping(_))));
    let init = RequestParams::Initialize(InitializeRequestParams {
        protocol_version: ProtocolVersion::Mcp2024_11_05,
        capabilities: ClientCapabilities { experimental: None, roots: None, sampling: None },
        client_info: Implementation { name: "n".to_string(), version: "v".to_string() },
    });
    assert!(Option::<ServerRequestParams>::from(init).is_none());
    let initialized = || NotificationParams::Initialized(InitializedNotificationParams {
        notification_base: NotificationBaseParams { meta: None, extra: Vec::new() },
    });
    assert!(matches!(Option::<ClientNotificationParams>::from(initialized()), Some(ClientNotificationParams::Initialized(_))));
    assert!(Option::<ServerNotificationParams>::from(initialized()).is_none());
    let empty = || ResultEnum::Empty(ResultBase { meta: None, extra: Vec::new() });
    assert!(matches!(Option::<ClientResult>::from(empty()), Some(ClientResult::Empty(_))));
    assert!(matches!(Option::<ServerResult>::from(empty()), Some(ServerResult::Empty(_))));
}

#[test]
fn error_params_default_is_internal_error() {
    let e = rust_mcp::schema::ErrorParams::default();
    assert_eq!(e.code, -32603);
    assert_eq!(e.message, "Unknown error ocurred");
    assert_eq!(e.data, None);
}
