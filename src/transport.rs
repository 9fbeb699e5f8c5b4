//! The streaming transport's decisions: what a session's event stream emits
//! next, and what becomes of a submitted envelope. The caller performs the
//! I/O and reports back what happened.
use vstd::prelude::*;
use vstd::string::StringExecFns;
use crate::dispatch::{handle_notification, handle_request, notification_handled, request_handled, NotificationOutcome};
use crate::error::ApiError;
use crate::schema::JSONRPCMessage;
use crate::server::{statuses_advance, with_mailbox, Delivery, Server};
use crate::session::{ClientConn, Message, SessionId};
use crate::token::{parse_session_token, session_token, token_text};

verus! {

/// The query parameter that carries the session id on submissions.
pub const SESSION_QUERY_KEY: &'static str = "sessionId";

/// The life of one event stream.
#[derive(Debug, Clone, Copy, PartialEq, Eq, Structural)]
pub enum StreamState {
    /// The session exists; nothing has been sent yet.
    Open,
    /// The endpoint announcement went out; messages follow.
    Streaming,
    /// The session is gone and the stream has ended.
    Closed,
}

/// What the stream's task observed.
#[derive(Debug, Clone, Copy, PartialEq, Eq, Structural)]
pub enum StreamEvent {
    /// The mailbox may hold a message.
    Ready,
    /// The keepalive timer fired.
    KeepAlive,
    /// The client went away.
    Disconnected,
}

/// What the stream's task should do next.
#[derive(Debug)]
pub enum StreamAction {
    /// Send an `endpoint` event with this URI.
    Endpoint(String),
    /// Send a `message` event with this envelope.
    Send(JSONRPCMessage),
    /// Send a heartbeat.
    Heartbeat,
    /// Nothing to send; wait for the next event.
    Idle,
    /// End the stream.
    End,
}

/// The text of the URI that tells a client where to submit its messages.
pub open spec fn endpoint_text(endpoint: Seq<char>, session_id: SessionId) -> Seq<char> {
    endpoint + "?"@ + SESSION_QUERY_KEY@ + "="@ + token_text(session_id)
}

/// `"{endpoint}?sessionId={id}"`.
pub fn endpoint_uri(endpoint: &str, session_id: SessionId) -> (r: String)
    ensures
        r@ == endpoint_text(endpoint@, session_id),
        r@.len() == endpoint@.len() + 11 + 36,
{
    let token = session_token(session_id);
    proof {
        crate::token::lemma_token_text_len(session_id);
        reveal_strlit("?");
        reveal_strlit("=");
        reveal_strlit("sessionId");
    }
    let mut uri = endpoint.to_owned();
    uri.append("?");
    uri.append(SESSION_QUERY_KEY);
    uri.append("=");
    uri.append(token.as_str());
    uri
}

/// One step of a session's stream: the endpoint announcement comes first,
/// then each message of the mailbox in order, a heartbeat on each keepalive
/// tick; a disconnect, or the session's disappearance, ends the stream and
/// leaves no session behind.
pub fn stream_step(
    server: &mut Server,
    session_id: SessionId,
    endpoint: &str,
    state: StreamState,
    event: StreamEvent,
) -> (r: (StreamState, StreamAction))
    requires
        old(server).wf(),
    ensures
        final(server).wf(),
        final(server).same_config(old(server)),
        statuses_advance(old(server).sessions(), final(server).sessions()),
        state == StreamState::Closed ==> r.0 == StreamState::Closed && r.1 is End
            && final(server).sessions() == old(server).sessions(),
        state != StreamState::Closed && event == StreamEvent::Disconnected ==> {
            &&& r.0 == StreamState::Closed
            &&& r.1 is End
            &&& final(server).sessions() == old(server).sessions().remove(session_id)
        },
        state == StreamState::Open && event != StreamEvent::Disconnected ==> {
            &&& r.0 == StreamState::Streaming
            &&& r.1 matches StreamAction::Endpoint(uri) && uri@ == endpoint_text(endpoint@, session_id)
            &&& final(server).sessions() == old(server).sessions()
        },
        state == StreamState::Streaming && event != StreamEvent::Disconnected
            && !old(server).sessions().contains_key(session_id) ==> {
            &&& r.0 == StreamState::Closed
            &&& r.1 is End
            &&& final(server).sessions() == old(server).sessions()
        },
        state == StreamState::Streaming && event == StreamEvent::KeepAlive
            && old(server).sessions().contains_key(session_id) ==> {
            &&& r.0 == StreamState::Streaming
            &&& r.1 is Heartbeat
            &&& final(server).sessions() == old(server).sessions()
        },
        state == StreamState::Streaming && event == StreamEvent::Ready
            && old(server).sessions().contains_key(session_id) ==> ({
            let q = old(server).sessions()[session_id].mailbox@;
            &&& r.0 == StreamState::Streaming
            &&& q.len() == 0 ==> r.1 is Idle && final(server).sessions() == old(server).sessions()
            &&& q.len() > 0 ==> {
                &&& r.1 == StreamAction::Send(q[0].sse_message)
                &&& final(server).sessions().dom() == old(server).sessions().dom()
                &&& final(server).sessions()[session_id].mailbox@ == q.drop_first()
                &&& final(server).sessions() == old(server).sessions().insert(session_id,
                    with_mailbox(old(server).sessions()[session_id], final(server).sessions()[session_id].mailbox))
            }
        }),
{
    match state {
        StreamState::Closed => (StreamState::Closed, StreamAction::End),
        _ => {
            if event == StreamEvent::Disconnected {
                server.close_connection(session_id);
                (StreamState::Closed, StreamAction::End)
            } else if state == StreamState::Open {
                (StreamState::Streaming, StreamAction::Endpoint(endpoint_uri(endpoint, session_id)))
            } else if event == StreamEvent::KeepAlive {
                if server.has_session(session_id) {
                    (StreamState::Streaming, StreamAction::Heartbeat)
                } else {
                    (StreamState::Closed, StreamAction::End)
                }
            } else {
                match server.next_message(session_id) {
                    Ok(Some(m)) => (StreamState::Streaming, StreamAction::Send(m.sse_message)),
                    Ok(None) => (StreamState::Streaming, StreamAction::Idle),
                    Err(_) => (StreamState::Closed, StreamAction::End),
                }
            }
        },
    }
}

/// What became of a submitted envelope.
#[derive(Debug, Clone, Copy, PartialEq, Eq, Structural)]
pub enum SubmitOutcome {
    /// Its response waits in the mailbox of this session.
    Delivered(SessionId),
    /// The session's mailbox is full: the response was refused.
    Refused,
    /// There is nothing to deliver: no such session, or no response.
    Dropped,
}

/// The response `resp`, produced with the registry at `mid`, was queued for
/// session `sid` when its mailbox had room (giving `after`), and refused
/// otherwise.
pub open spec fn queued(
    mid: Map<SessionId, ClientConn>,
    after: Map<SessionId, ClientConn>,
    sid: SessionId,
    resp: JSONRPCMessage,
    r: SubmitOutcome,
) -> bool {
    let c = mid[sid];
    if c.mailbox@.len() < c.mailbox.capacity() {
        &&& r == SubmitOutcome::Delivered(sid)
        &&& after.contains_key(sid)
        &&& after[sid].mailbox@ == c.mailbox@.push(Message { session_id: sid, sse_message: resp })
        &&& after[sid].mailbox.capacity() == c.mailbox.capacity()
        &&& after == mid.insert(sid, with_mailbox(c, after[sid].mailbox))
    } else {
        &&& r == SubmitOutcome::Refused
        &&& after == mid
    }
}

/// How an envelope submitted for session `sid` is handled, from the registry
/// `before` to the registry `after`, by a server with `server`'s identity.
/// A request is answered as [`handle_request`] answers it and the response is
/// queued on the session's mailbox; a notification is handled as
/// [`handle_notification`] handles it and queues nothing; a response is
/// dropped.
pub open spec fn submitted(
    before: Map<SessionId, ClientConn>,
    after: Map<SessionId, ClientConn>,
    server: Server,
    sid: SessionId,
    message: JSONRPCMessage,
    r: SubmitOutcome,
) -> bool {
    match message {
        JSONRPCMessage::Request(req) => {
            &&& !before.contains_key(sid) ==> r == SubmitOutcome::Dropped && after == before
            &&& before.contains_key(sid) ==> exists|resp: JSONRPCMessage, mid: Map<SessionId, ClientConn>|
                #[trigger] request_handled(before, mid, server, sid, req, resp) && queued(mid, after, sid, resp, r)
        },
        JSONRPCMessage::Notification(n) => {
            &&& r == SubmitOutcome::Dropped
            &&& exists|o: Result<NotificationOutcome, ApiError>| #[trigger] notification_handled(before, after, sid, n, o)
        },
        JSONRPCMessage::Response(_) => r == SubmitOutcome::Dropped && after == before,
    }
}

/// Handles an envelope submitted for session `session_id` and queues the
/// response, if there is one, for that session's stream.
pub fn submit_to(server: &mut Server, session_id: SessionId, message: JSONRPCMessage) -> (r: SubmitOutcome)
    requires
        old(server).wf(),
    ensures
        final(server).wf(),
        final(server).same_config(old(server)),
        statuses_advance(old(server).sessions(), final(server).sessions()),
        final(server).sessions().dom() == old(server).sessions().dom(),
        !old(server).sessions().contains_key(session_id) ==> r == SubmitOutcome::Dropped
            && final(server).sessions() == old(server).sessions(),
        submitted(old(server).sessions(), final(server).sessions(), *old(server), session_id, message, r),
{
    match message {
        JSONRPCMessage::Request(req) => {
            let ghost req_g = req;
            let ghost s0 = server.sessions();
            let response = handle_request(server, req, session_id);
            let ghost s1 = server.sessions();
            let ghost resp_g = response;
            proof {
                if s0.contains_key(session_id) {
                    assert(s1.contains_key(session_id));
                    assert(s1[session_id].mailbox == s0[session_id].mailbox);
                }
            }
            let r = match server.deliver(Message { session_id, sse_message: response }) {
                Delivery::Queued => SubmitOutcome::Delivered(session_id),
                Delivery::Full => SubmitOutcome::Refused,
                Delivery::NoSession => SubmitOutcome::Dropped,
            };
            proof {
                if s0.contains_key(session_id) {
                    assert(request_handled(s0, s1, *old(server), session_id, req_g, resp_g));
                    assert(queued(s1, server.sessions(), session_id, resp_g, r));
                }
            }
            r
        },
        JSONRPCMessage::Notification(n) => {
            let o = handle_notification(server, &n, session_id);
            proof {
                assert(notification_handled(old(server).sessions(), server.sessions(), session_id, n, o));
            }
            SubmitOutcome::Dropped
        },
        JSONRPCMessage::Response(_) => SubmitOutcome::Dropped,
    }
}

/// Handles an envelope submitted with the session token `token`: as
/// [`submit_to`] for the session the token names. A token that names no live
/// session drops the envelope and changes nothing.
pub fn submit(server: &mut Server, token: &str, message: JSONRPCMessage) -> (r: SubmitOutcome)
    requires
        old(server).wf(),
    ensures
        final(server).wf(),
        final(server).same_config(old(server)),
        statuses_advance(old(server).sessions(), final(server).sessions()),
        final(server).sessions().dom() == old(server).sessions().dom(),
        forall|id: SessionId| token@ == token_text(id)
            ==> #[trigger] submitted(old(server).sessions(), final(server).sessions(), *old(server), id, message, r),
        (r == SubmitOutcome::Dropped && final(server).sessions() == old(server).sessions())
            || exists|id: SessionId| old(server).sessions().contains_key(id)
                && #[trigger] submitted(old(server).sessions(), final(server).sessions(), *old(server), id, message, r),
        r matches SubmitOutcome::Delivered(id) ==> old(server).sessions().contains_key(id),
{
    match parse_session_token(token) {
        Some(id) => {
            let r = submit_to(server, id, message);
            proof {
                if !old(server).sessions().contains_key(id) {
                    assert(r == SubmitOutcome::Dropped && server.sessions() == old(server).sessions());
                } else {
                    assert(old(server).sessions().contains_key(id)
                        && submitted(old(server).sessions(), server.sessions(), *old(server), id, message, r));
                }
            }
            r
        },
        None => SubmitOutcome::Dropped,
    }
}

} // verus!
