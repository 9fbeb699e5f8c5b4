//! The dispatcher: routes a decoded envelope for one session, enforcing the
//! handshake, and answers every request with exactly one response that
//! carries the request's id.
use vstd::prelude::*;
use crate::error::ApiError;
use crate::schema::{
    ErrorParams, Implementation, InitializeRequestParams, InitializeResult, JSONRPCError,
    JSONRPCMessage, JSONRPCNotification, JSONRPCRequest, JSONRPCResponse, JSONRPCResult,
    NotificationParams, RequestId, RequestParams, ResultBase, ResultEnum, INTERNAL_ERROR,
    INVALID_REQUEST, JSONRPC_VERSION, LATEST_PROTOCOL_VERSION, METHOD_NOT_FOUND,
};
use crate::server::{statuses_advance, Server};
use crate::session::{ClientConn, InitializeStatus, SessionId};

verus! {

/// What became of a notification.
#[derive(Debug, Clone, Copy, PartialEq, Eq, Structural)]
pub enum NotificationOutcome {
    /// It was in order for the session's handshake state.
    Accepted,
    /// It broke the handshake order and was ignored.
    Rejected,
}

/// The id that a response carries; `None` for anything but a response.
pub open spec fn response_id(m: JSONRPCMessage) -> Option<RequestId> {
    match m {
        JSONRPCMessage::Response(JSONRPCResponse::Result(r)) => Some(r.id),
        JSONRPCMessage::Response(JSONRPCResponse::Error(e)) => Some(e.id),
        _ => None,
    }
}

/// `m` is the error response to `id` with `code` and `message`.
pub open spec fn is_error_response(m: JSONRPCMessage, id: RequestId, code: i64, message: Seq<char>) -> bool {
    match m {
        JSONRPCMessage::Response(JSONRPCResponse::Error(e)) => {
            &&& e.id == id
            &&& e.json_rpc@ == JSONRPC_VERSION@
            &&& e.error.code == code
            &&& e.error.message@ == message
            &&& e.error.data is None
        },
        _ => false,
    }
}

/// `m` is a success response to `id` with no common result members.
pub open spec fn is_result_response(m: JSONRPCMessage, id: RequestId) -> bool {
    match m {
        JSONRPCMessage::Response(JSONRPCResponse::Result(r)) => {
            &&& r.id == id
            &&& r.json_rpc@ == JSONRPC_VERSION@
            &&& r.result.base.meta is None
            &&& r.result.base.extra@.len() == 0
        },
        _ => false,
    }
}

/// `m` answers `id` with an empty result.
pub open spec fn is_empty_response(m: JSONRPCMessage, id: RequestId) -> bool {
    &&& is_result_response(m, id)
    &&& m->Response_0->Result_0.result.defined_fields matches ResultEnum::Empty(e)
    &&& e.meta is None
    &&& e.extra@.len() == 0
}

/// `m` answers the initialize request `id` of a client of `server`: the
/// protocol version spoken, the server's capabilities and its identity.
pub open spec fn is_initialize_response(m: JSONRPCMessage, id: RequestId, server: Server) -> bool {
    &&& is_result_response(m, id)
    &&& m->Response_0->Result_0.result.defined_fields matches ResultEnum::Initialize(ir)
    &&& ir.protocol_version == LATEST_PROTOCOL_VERSION
    &&& ir.capabilities.same_as(server.capabilities_spec())
    &&& ir.server_info.name@ == server.name_spec()
    &&& ir.server_info.version@ == server.version_spec()
    &&& ir.instructions is None
}

/// `c` after it accepted the initialize request `p`.
pub open spec fn handshake_started(c: ClientConn, p: InitializeRequestParams) -> ClientConn {
    ClientConn {
        session_id: c.session_id,
        initialize_status: InitializeStatus::Initializing,
        capabilities: p.capabilities,
        protocol_version: p.protocol_version,
        mailbox: c.mailbox,
    }
}

/// `c` after the client confirmed the handshake.
pub open spec fn handshake_done(c: ClientConn) -> ClientConn {
    ClientConn {
        session_id: c.session_id,
        initialize_status: InitializeStatus::Initialized,
        capabilities: c.capabilities,
        protocol_version: c.protocol_version,
        mailbox: c.mailbox,
    }
}

/// How a request of session `sid` is handled, from the registry `before` to
/// the registry `after`, by a server with `server`'s identity, answering `r`.
pub open spec fn request_handled(
    before: Map<SessionId, ClientConn>,
    after: Map<SessionId, ClientConn>,
    server: Server,
    sid: SessionId,
    request: JSONRPCRequest,
    r: JSONRPCMessage,
) -> bool {
    &&& !before.contains_key(sid) ==> {
        &&& is_error_response(r, request.id, INTERNAL_ERROR, "Session not found"@)
        &&& after == before
    }
    &&& before.contains_key(sid) ==> ({
        let c = before[sid];
        match request.params {
            RequestParams::Initialize(p) => match c.initialize_status {
                InitializeStatus::NotInitialized => {
                    &&& after == before.insert(sid, handshake_started(c, p))
                    &&& is_initialize_response(r, request.id, server)
                },
                InitializeStatus::Initializing => {
                    &&& is_error_response(r, request.id, INVALID_REQUEST, "Connection already initializing"@)
                    &&& after == before
                },
                InitializeStatus::Initialized => {
                    &&& is_error_response(r, request.id, INVALID_REQUEST, "Connection already initialized"@)
                    &&& after == before
                },
            },
            _ => {
                &&& after == before
                &&& c.initialize_status != InitializeStatus::Initialized ==> is_error_response(
                    r, request.id, INVALID_REQUEST, "Connection not initialized"@)
                &&& c.initialize_status == InitializeStatus::Initialized ==> (if request.params is Ping {
                    is_empty_response(r, request.id)
                } else {
                    is_error_response(r, request.id, METHOD_NOT_FOUND, "Method not found"@)
                })
            },
        }
    })
}

/// How a notification of session `sid` is handled, from the registry
/// `before` to the registry `after`, with outcome `r`.
pub open spec fn notification_handled(
    before: Map<SessionId, ClientConn>,
    after: Map<SessionId, ClientConn>,
    sid: SessionId,
    notification: JSONRPCNotification,
    r: Result<NotificationOutcome, ApiError>,
) -> bool {
    &&& !before.contains_key(sid) ==> {
        &&& r == Err::<NotificationOutcome, ApiError>(ApiError::MissingClient)
        &&& after == before
    }
    &&& before.contains_key(sid) ==> ({
        let c = before[sid];
        if notification.params is Initialized {
            if c.initialize_status == InitializeStatus::Initializing {
                &&& r == Ok::<NotificationOutcome, ApiError>(NotificationOutcome::Accepted)
                &&& after == before.insert(sid, handshake_done(c))
            } else {
                &&& r == Ok::<NotificationOutcome, ApiError>(NotificationOutcome::Rejected)
                &&& after == before
            }
        } else {
            &&& after == before
            &&& r == Ok::<NotificationOutcome, ApiError>(
                if c.initialize_status != InitializeStatus::Initialized {
                    NotificationOutcome::Rejected
                } else {
                    NotificationOutcome::Accepted
                })
        }
    })
}

/// An error response to `id`.
pub fn create_error_response(id: &RequestId, code: i64, message: &str) -> (r: JSONRPCMessage)
    ensures
        is_error_response(r, *id, code, message@),
        response_id(r) == Some(*id),
{
    let err = JSONRPCError {
        json_rpc: JSONRPC_VERSION.to_owned(),
        id: id.clone_id(),
        error: ErrorParams { code, message: message.to_owned(), data: None },
    };
    JSONRPCMessage::Response(JSONRPCResponse::Error(err))
}

fn result_response(id: &RequestId, defined_fields: ResultEnum) -> (r: JSONRPCMessage)
    ensures
        is_result_response(r, *id),
        r->Response_0->Result_0.result.defined_fields == defined_fields,
        response_id(r) == Some(*id),
{
    let base = ResultBase { meta: None, extra: Vec::new() };
    let res = JSONRPCResult {
        json_rpc: JSONRPC_VERSION.to_owned(),
        id: id.clone_id(),
        result: crate::schema::Result { base, defined_fields },
    };
    JSONRPCMessage::Response(JSONRPCResponse::Result(res))
}

/// The success response to an accepted initialize request `id`.
pub fn handle_initialize(server: &Server, id: &RequestId) -> (r: JSONRPCMessage)
    ensures
        is_initialize_response(r, *id, *server),
        response_id(r) == Some(*id),
{
    let info = Implementation { name: server.name().to_owned(), version: server.version().to_owned() };
    let result = InitializeResult {
        protocol_version: LATEST_PROTOCOL_VERSION,
        capabilities: server.capabilities().clone_capabilities(),
        server_info: info,
        instructions: None,
    };
    result_response(id, ResultEnum::Initialize(result))
}

/// Handles one request of session `session_id` and answers it.
///
/// An initialize request is accepted once, while the session is not
/// initialized: it records the client's capabilities and protocol version and
/// moves the session to `Initializing`. Any other request before the
/// handshake is complete (`Initialized`) is an invalid request. After it, a
/// ping is answered with an empty result and every other method is not found.
/// Nothing but an accepted initialize request changes any session.
pub fn handle_request(server: &mut Server, request: JSONRPCRequest, session_id: SessionId) -> (r: JSONRPCMessage)
    requires
        old(server).wf(),
    ensures
        final(server).wf(),
        final(server).same_config(old(server)),
        response_id(r) == Some(request.id),
        statuses_advance(old(server).sessions(), final(server).sessions()),
        r.wf(),
        request_handled(old(server).sessions(), final(server).sessions(), *old(server), session_id, request, r),
{
    let ghost old_sessions = server.sessions();
    let id = request.id;
    let status = match server.status_of(session_id) {
        Some(s) => s,
        None => {
            return create_error_response(&id, INTERNAL_ERROR, "Session not found");
        },
    };
    match request.params {
        RequestParams::Initialize(init) => match status {
            InitializeStatus::NotInitialized => {
                let ghost c0 = old_sessions[session_id];
                let ghost p = init;
                let mut conn = server.take_conn(session_id).unwrap();
                conn.initialize_status = InitializeStatus::Initializing;
                conn.capabilities = init.capabilities;
                conn.protocol_version = init.protocol_version;
                proof {
                    assert(conn == handshake_started(c0, p));
                }
                server.put_conn(conn);
                proof {
                    assert(server.sessions() =~= old_sessions.insert(session_id, handshake_started(c0, p)));
                    assert forall|k: SessionId| old_sessions.contains_key(k) && server.sessions().contains_key(k)
                        implies #[trigger] old_sessions[k].initialize_status.rank() <= server.sessions()[k].initialize_status.rank() by {
                        if k == session_id {
                        }
                    }
                }
                handle_initialize(server, &id)
            },
            InitializeStatus::Initializing => {
                create_error_response(&id, INVALID_REQUEST, "Connection already initializing")
            },
            InitializeStatus::Initialized => {
                create_error_response(&id, INVALID_REQUEST, "Connection already initialized")
            },
        },
        RequestParams::Ping(_) => {
            if status != InitializeStatus::Initialized {
                create_error_response(&id, INVALID_REQUEST, "Connection not initialized")
            } else {
                let empty = ResultBase { meta: None, extra: Vec::new() };
                result_response(&id, ResultEnum::Empty(empty))
            }
        },
        _ => {
            if status != InitializeStatus::Initialized {
                create_error_response(&id, INVALID_REQUEST, "Connection not initialized")
            } else {
                create_error_response(&id, METHOD_NOT_FOUND, "Method not found")
            }
        },
    }
}

/// Handles one notification of session `session_id`; notifications get no
/// response.
///
/// The client's `initialized` notification completes a started handshake.
/// Received in any other state it is a protocol violation and is ignored;
/// a repeated one after the handshake is such a violation too. Every other
/// notification is accepted once the handshake is complete, rejected
/// before, and changes nothing.
pub fn handle_notification(server: &mut Server, notification: &JSONRPCNotification, session_id: SessionId) -> (r: Result<NotificationOutcome, ApiError>)
    requires
        old(server).wf(),
    ensures
        final(server).wf(),
        final(server).same_config(old(server)),
        statuses_advance(old(server).sessions(), final(server).sessions()),
        notification_handled(old(server).sessions(), final(server).sessions(), session_id, *notification, r),
{
    let ghost old_sessions = server.sessions();
    let status = match server.status_of(session_id) {
        Some(s) => s,
        None => {
            return Err(ApiError::MissingClient);
        },
    };
    match notification.params {
        NotificationParams::Initialized(_) => {
            if status == InitializeStatus::Initializing {
                let ghost c0 = old_sessions[session_id];
                let mut conn = server.take_conn(session_id).unwrap();
                conn.initialize_status = InitializeStatus::Initialized;
                proof {
                    assert(conn == handshake_done(c0));
                }
                server.put_conn(conn);
                proof {
                    assert(server.sessions() =~= old_sessions.insert(session_id, handshake_done(c0)));
                    assert forall|k: SessionId| old_sessions.contains_key(k) && server.sessions().contains_key(k)
                        implies #[trigger] old_sessions[k].initialize_status.rank() <= server.sessions()[k].initialize_status.rank() by {
                        if k == session_id {
                        }
                    }
                }
                Ok(NotificationOutcome::Accepted)
            } else {
                Ok(NotificationOutcome::Rejected)
            }
        },
        _ => {
            if status != InitializeStatus::Initialized {
                Ok(NotificationOutcome::Rejected)
            } else {
                Ok(NotificationOutcome::Accepted)
            }
        },
    }
}

} // verus!
