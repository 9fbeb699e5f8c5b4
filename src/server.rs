//! The session registry: one connection record per open stream, keyed by
//! session identifier, owned by the server instance.
use vstd::prelude::*;
use crate::schema::ServerCapabilities;
use crate::session::{ClientConn, InitializeStatus, Message, SessionId};
use crate::token::random_session_id;
use crate::registry_map::{SessionMap, dash_contains, dash_entries, dash_insert, dash_len, dash_new, dash_remove, dash_status};

verus! {

/// The size of each session's mailbox unless the server is built with another.
pub const DEFAULT_MAILBOX_CAPACITY: usize = 32;

/// What became of a message handed to [`Server::deliver`].
#[derive(Debug, PartialEq, Eq)]
pub enum Delivery {
    /// It waits in the session's mailbox.
    Queued,
    /// No such session: the message was dropped.
    NoSession,
    /// The session's mailbox is full: the message was refused.
    Full,
}

/// A server instance: its identity, its capabilities, and its sessions.
#[derive(Debug)]
pub struct Server {
    port: usize,
    clients: SessionMap,
    name: String,
    version: String,
    capabilities: ServerCapabilities,
    mailbox_capacity: usize,
}

/// No session went back in its handshake from `before` to `after`.
pub open spec fn statuses_advance(before: Map<SessionId, ClientConn>, after: Map<SessionId, ClientConn>) -> bool {
    forall|k: SessionId| before.contains_key(k) && after.contains_key(k)
        ==> #[trigger] before[k].initialize_status.rank() <= after[k].initialize_status.rank()
}

/// `c` is the record of a session `id` that has just been opened: not
/// initialized, with no capabilities, the protocol version this server speaks
/// and an empty mailbox of capacity `capacity`.
pub open spec fn fresh_conn(c: ClientConn, id: SessionId, capacity: nat) -> bool {
    &&& c.session_id == id
    &&& c.initialize_status == InitializeStatus::NotInitialized
    &&& c.capabilities.experimental is None
    &&& c.capabilities.roots is None
    &&& c.capabilities.sampling is None
    &&& c.protocol_version == crate::schema::ProtocolVersion::Mcp2024_11_05
    &&& c.mailbox@ == Seq::<Message>::empty()
    &&& c.mailbox.capacity() == capacity
}

/// `c` with its mailbox replaced by `m` and everything else kept.
pub open spec fn with_mailbox(c: ClientConn, m: crate::session::Mailbox) -> ClientConn {
    ClientConn {
        session_id: c.session_id,
        initialize_status: c.initialize_status,
        capabilities: c.capabilities,
        protocol_version: c.protocol_version,
        mailbox: m,
    }
}

/// Along any run of registry states in which every step lets no handshake go
/// back (as every operation of [`Server`] ensures), a session that stays
/// registered from state `i` to state `j` has a status at `j` no lower than
/// at `i`.
pub proof fn lemma_status_monotone(states: Seq<Map<SessionId, ClientConn>>, k: SessionId, i: int, j: int)
    requires
        forall|n: int| 0 <= n < states.len() - 1 ==> #[trigger] statuses_advance(states[n], states[n + 1]),
        0 <= i <= j < states.len(),
        forall|n: int| i <= n <= j ==> #[trigger] states[n].contains_key(k),
    ensures
        states[i][k].initialize_status.rank() <= states[j][k].initialize_status.rank(),
    decreases j - i,
{
    if i < j {
        lemma_status_monotone(states, k, i, j - 1);
        assert(statuses_advance(states[j - 1], states[j - 1 + 1]));
        assert(states[j - 1].contains_key(k) && states[j].contains_key(k));
    }
}

/// One step of [`Server::create_session`] that produced `id`.
pub open spec fn created(before: Map<SessionId, ClientConn>, after: Map<SessionId, ClientConn>, id: SessionId) -> bool {
    &&& !before.contains_key(id)
    &&& after.dom() == before.dom().insert(id)
    &&& forall|k: SessionId| k != id && #[trigger] before.contains_key(k) ==> after[k] == before[k]
}

/// Creating sessions one after another gives distinct identifiers, each of
/// which can be looked up afterwards; removing one of them leaves every other
/// session as it was.
pub proof fn lemma_registry_isolation(states: Seq<Map<SessionId, ClientConn>>, ids: Seq<SessionId>, gone: int)
    requires
        states.len() == ids.len() + 1,
        forall|n: int| 0 <= n < ids.len() ==> #[trigger] created(states[n], states[n + 1], ids[n]),
        0 <= gone < ids.len(),
    ensures
        ids.no_duplicates(),
        forall|n: int| 0 <= n < ids.len() ==> states.last().contains_key(#[trigger] ids[n]),
        forall|n: int| 0 <= n < ids.len() && n != gone ==> {
            &&& states.last().remove(ids[gone]).contains_key(#[trigger] ids[n])
            &&& states.last().remove(ids[gone])[ids[n]] == states.last()[ids[n]]
        },
        !states.last().remove(ids[gone]).contains_key(ids[gone]),
{
    lemma_created_kept(states, ids);
    assert forall|a: int, b: int| 0 <= a < ids.len() && 0 <= b < ids.len() && a != b implies ids[a] != ids[b] by {
        let (lo, hi) = if a < b { (a, b) } else { (b, a) };
        lemma_created_prefix(states, ids, lo, hi);
        assert(created(states[hi], states[hi + 1], ids[hi]));
    }
}

/// An id created at step `n` is still there at every later state.
proof fn lemma_created_prefix(states: Seq<Map<SessionId, ClientConn>>, ids: Seq<SessionId>, n: int, m: int)
    requires
        states.len() == ids.len() + 1,
        forall|q: int| 0 <= q < ids.len() ==> #[trigger] created(states[q], states[q + 1], ids[q]),
        0 <= n < m <= ids.len(),
    ensures
        states[m].contains_key(ids[n]),
    decreases m - n,
{
    assert(created(states[n], states[n + 1], ids[n]));
    assert(states[n + 1].dom().contains(ids[n]));
    if m > n + 1 {
        lemma_created_prefix(states, ids, n, m - 1);
        assert(created(states[m - 1], states[m - 1 + 1], ids[m - 1]));
        assert(states[m].dom().contains(ids[n]));
    }
}

proof fn lemma_created_kept(states: Seq<Map<SessionId, ClientConn>>, ids: Seq<SessionId>)
    requires
        states.len() == ids.len() + 1,
        forall|q: int| 0 <= q < ids.len() ==> #[trigger] created(states[q], states[q + 1], ids[q]),
    ensures
        forall|n: int| 0 <= n < ids.len() ==> states.last().contains_key(#[trigger] ids[n]),
{
    assert forall|n: int| 0 <= n < ids.len() implies states.last().contains_key(#[trigger] ids[n]) by {
        lemma_created_prefix(states, ids, n, ids.len() as int);
    }
}

impl Server {
    /// The sessions by identifier.
    pub closed spec fn sessions(&self) -> Map<SessionId, ClientConn> {
        dash_entries(self.clients)
    }

    /// The port the server listens on.
    pub closed spec fn port_spec(&self) -> usize {
        self.port
    }

    /// The implementation name the server announces.
    pub closed spec fn name_spec(&self) -> Seq<char> {
        self.name@
    }

    /// The implementation version the server announces.
    pub closed spec fn version_spec(&self) -> Seq<char> {
        self.version@
    }

    /// The capabilities the server declares.
    pub closed spec fn capabilities_spec(&self) -> ServerCapabilities {
        self.capabilities
    }

    /// The capacity of each new session's mailbox.
    pub closed spec fn mailbox_capacity(&self) -> nat {
        self.mailbox_capacity as nat
    }

    pub closed spec fn wf(&self) -> bool {
        &&& self.mailbox_capacity > 0
        &&& forall|k: SessionId| #[trigger] dash_entries(self.clients).contains_key(k) ==> {
            &&& dash_entries(self.clients)[k].session_id == k
            &&& dash_entries(self.clients)[k].mailbox.wf()
        }
    }

    /// The fields other than the sessions are those of `other`.
    pub open spec fn same_config(&self, other: &Server) -> bool {
        &&& self.port_spec() == other.port_spec()
        &&& self.name_spec() == other.name_spec()
        &&& self.version_spec() == other.version_spec()
        &&& self.capabilities_spec() == other.capabilities_spec()
        &&& self.mailbox_capacity() == other.mailbox_capacity()
    }

    /// A server with no sessions that declares no capabilities.
    pub fn new(name: &str, version: &str, port: usize, mailbox_capacity: usize) -> (r: Server)
        requires
            mailbox_capacity > 0,
        ensures
            r.wf(),
            r.sessions() == Map::<SessionId, ClientConn>::empty(),
            r.name_spec() == name@,
            r.version_spec() == version@,
            r.port_spec() == port,
            r.mailbox_capacity() == mailbox_capacity,
            r.capabilities_spec().experimental is None,
            r.capabilities_spec().logging is None,
            r.capabilities_spec().prompts is None,
            r.capabilities_spec().resources is None,
            r.capabilities_spec().tools is None,
    {
        let clients = dash_new();
        let r = Server {
            port,
            clients,
            name: name.to_owned(),
            version: version.to_owned(),
            capabilities: ServerCapabilities {
                experimental: None,
                logging: None,
                prompts: None,
                resources: None,
                tools: None,
            },
            mailbox_capacity,
        };
        r
    }

    /// Registers a fresh session under `session_id`, unless that identifier
    /// is taken; answers whether it registered one.
    pub fn new_connection(&mut self, session_id: SessionId) -> (r: bool)
        requires
            old(self).wf(),
        ensures
            final(self).wf(),
            final(self).same_config(old(self)),
            r == !old(self).sessions().contains_key(session_id),
            !r ==> final(self).sessions() == old(self).sessions(),
            r ==> final(self).sessions().dom() == old(self).sessions().dom().insert(session_id),
            r ==> forall|k: SessionId| k != session_id && #[trigger] old(self).sessions().contains_key(k)
                ==> final(self).sessions()[k] == old(self).sessions()[k],
            r ==> fresh_conn(final(self).sessions()[session_id], session_id, old(self).mailbox_capacity()),
            statuses_advance(old(self).sessions(), final(self).sessions()),
    {
        if dash_contains(&self.clients, session_id) {
            false
        } else {
            let conn = ClientConn::new(session_id, self.mailbox_capacity);
            dash_insert(&mut self.clients, session_id, conn);
            true
        }
    }

    /// Creates a session under a freshly drawn identifier that no live
    /// session uses, and answers it; `None` only when every draw collided.
    pub fn create_session(&mut self) -> (r: Option<SessionId>)
        requires
            old(self).wf(),
        ensures
            final(self).wf(),
            final(self).same_config(old(self)),
            r is None ==> final(self).sessions() == old(self).sessions(),
            old(self).sessions().dom() == Set::<SessionId>::empty() ==> r is Some,
            r matches Some(id) ==> {
                &&& created(old(self).sessions(), final(self).sessions(), id)
                &&& !old(self).sessions().contains_key(id)
                &&& final(self).sessions().dom() == old(self).sessions().dom().insert(id)
                &&& fresh_conn(final(self).sessions()[id], id, old(self).mailbox_capacity())
                &&& forall|k: SessionId| k != id && #[trigger] old(self).sessions().contains_key(k)
                    ==> final(self).sessions()[k] == old(self).sessions()[k]
            },
            statuses_advance(old(self).sessions(), final(self).sessions()),
    {
        let mut attempt: usize = 0;
        while attempt < 4
            invariant
                self.wf(),
                self.same_config(old(self)),
                self.sessions() == old(self).sessions(),
                attempt <= 4,
                attempt > 0 ==> old(self).sessions().dom() != Set::<SessionId>::empty(),
            decreases 4 - attempt,
        {
            let id = random_session_id();
            if self.new_connection(id) {
                return Some(id);
            }
            assert(old(self).sessions().dom().contains(id));
            attempt += 1;
        }
        None
    }

    /// Removes the session `session_id`; answers whether there was one.
    /// Later lookups of it find nothing.
    pub fn close_connection(&mut self, session_id: SessionId) -> (r: bool)
        requires
            old(self).wf(),
        ensures
            final(self).wf(),
            final(self).same_config(old(self)),
            r == old(self).sessions().contains_key(session_id),
            final(self).sessions() == old(self).sessions().remove(session_id),
            statuses_advance(old(self).sessions(), final(self).sessions()),
    {
        let removed = dash_remove(&mut self.clients, session_id);
        removed.is_some()
    }

    pub fn port(&self) -> (r: usize)
        ensures
            r == self.port_spec(),
    {
        self.port
    }

    pub fn name(&self) -> (r: &str)
        ensures
            r@ == self.name_spec(),
    {
        self.name.as_str()
    }

    pub fn version(&self) -> (r: &str)
        ensures
            r@ == self.version_spec(),
    {
        self.version.as_str()
    }

    pub fn capabilities(&self) -> (r: &ServerCapabilities)
        ensures
            *r == self.capabilities_spec(),
    {
        &self.capabilities
    }

    /// How many sessions are registered.
    pub fn session_count(&self) -> (r: usize)
        ensures
            r == self.sessions().len(),
    {
        dash_len(&self.clients)
    }

    /// Whether `session_id` names a live session.
    pub fn has_session(&self, session_id: SessionId) -> (r: bool)
        ensures
            r == self.sessions().contains_key(session_id),
    {
        dash_contains(&self.clients, session_id)
    }

    /// The handshake status of a session, if it exists.
    pub fn status_of(&self, session_id: SessionId) -> (r: Option<InitializeStatus>)
        ensures
            !self.sessions().contains_key(session_id) ==> r is None,
            self.sessions().contains_key(session_id) ==> r == Some(self.sessions()[session_id].initialize_status),
    {
        dash_status(&self.clients, session_id)
    }

    /// Takes `session_id`'s record out of the map for an update.
    pub(crate) fn take_conn(&mut self, session_id: SessionId) -> (r: Option<ClientConn>)
        requires
            old(self).wf(),
        ensures
            final(self).wf(),
            final(self).same_config(old(self)),
            final(self).sessions() == old(self).sessions().remove(session_id),
            !old(self).sessions().contains_key(session_id) ==> r is None,
            old(self).sessions().contains_key(session_id) ==> r == Some(old(self).sessions()[session_id]),
            r matches Some(c) ==> c.mailbox.wf() && c.session_id == session_id,
    {
        dash_remove(&mut self.clients, session_id)
    }

    /// Puts a record back under its own identifier.
    pub(crate) fn put_conn(&mut self, conn: ClientConn)
        requires
            old(self).wf(),
            conn.mailbox.wf(),
        ensures
            final(self).wf(),
            final(self).same_config(old(self)),
            final(self).sessions() == old(self).sessions().insert(conn.session_id, conn),
    {
        let k = conn.session_id;
        dash_insert(&mut self.clients, k, conn);
    }

    /// Queues `msg` on the mailbox of the session it names.
    pub fn deliver(&mut self, msg: Message) -> (r: Delivery)
        requires
            old(self).wf(),
        ensures
            final(self).wf(),
            final(self).same_config(old(self)),
            statuses_advance(old(self).sessions(), final(self).sessions()),
            !old(self).sessions().contains_key(msg.session_id) ==> r == Delivery::NoSession
                && final(self).sessions() == old(self).sessions(),
            old(self).sessions().contains_key(msg.session_id) ==> ({
                let c = old(self).sessions()[msg.session_id];
                if c.mailbox@.len() < c.mailbox.capacity() {
                    &&& r == Delivery::Queued
                    &&& final(self).sessions().dom() == old(self).sessions().dom()
                    &&& final(self).sessions()[msg.session_id].mailbox@ == c.mailbox@.push(msg)
                    &&& final(self).sessions()[msg.session_id].mailbox.capacity() == c.mailbox.capacity()
                    &&& final(self).sessions() == old(self).sessions().insert(msg.session_id,
                        with_mailbox(c, final(self).sessions()[msg.session_id].mailbox))
                } else {
                    &&& r == Delivery::Full
                    &&& final(self).sessions() == old(self).sessions()
                }
            }),
    {
        let ghost old_sessions = self.sessions();
        let k = msg.session_id;
        match self.take_conn(k) {
            None => {
                proof {
                    assert(self.sessions() =~= old_sessions);
                }
                Delivery::NoSession
            },
            Some(mut conn) => {
                let ghost c0 = conn;
                let r = match conn.mailbox.push(msg) {
                    Ok(()) => Delivery::Queued,
                    Err(_) => Delivery::Full,
                };
                proof {
                    if r == Delivery::Full {
                        assert(conn == c0);
                    } else {
                        assert(conn == with_mailbox(c0, conn.mailbox));
                    }
                }
                self.put_conn(conn);
                proof {
                    assert(self.sessions() =~= old_sessions.insert(k, conn));
                    if r == Delivery::Full {
                        assert(old_sessions.insert(k, c0) =~= old_sessions);
                    }
                }
                r
            },
        }
    }

    /// Takes the oldest message waiting for `session_id`, if any; `Err` when
    /// the session is gone.
    pub fn next_message(&mut self, session_id: SessionId) -> (r: Result<Option<Message>, crate::error::ApiError>)
        requires
            old(self).wf(),
        ensures
            final(self).wf(),
            final(self).same_config(old(self)),
            statuses_advance(old(self).sessions(), final(self).sessions()),
            !old(self).sessions().contains_key(session_id) ==> r == Err::<Option<Message>, crate::error::ApiError>(crate::error::ApiError::MissingClient)
                && final(self).sessions() == old(self).sessions(),
            old(self).sessions().contains_key(session_id) ==> ({
                let c = old(self).sessions()[session_id];
                if c.mailbox@.len() == 0 {
                    &&& r == Ok::<Option<Message>, crate::error::ApiError>(None)
                    &&& final(self).sessions() == old(self).sessions()
                } else {
                    &&& r == Ok::<Option<Message>, crate::error::ApiError>(Some(c.mailbox@[0]))
                    &&& final(self).sessions()[session_id].mailbox@ == c.mailbox@.drop_first()
                    &&& final(self).sessions() == old(self).sessions().insert(session_id,
                        with_mailbox(c, final(self).sessions()[session_id].mailbox))
                }
            }),
    {
        let ghost old_sessions = self.sessions();
        match self.take_conn(session_id) {
            None => {
                proof {
                    assert(self.sessions() =~= old_sessions);
                }
                Err(crate::error::ApiError::MissingClient)
            },
            Some(mut conn) => {
                let ghost c0 = conn;
                let m = conn.mailbox.pop();
                proof {
                    if m is None {
                        assert(conn == c0);
                    } else {
                        assert(conn == with_mailbox(c0, conn.mailbox));
                    }
                }
                self.put_conn(conn);
                proof {
                    assert(self.sessions() =~= old_sessions.insert(session_id, conn));
                    if m is None {
                        assert(old_sessions.insert(session_id, c0) =~= old_sessions);
                    }
                }
                Ok(m)
            },
        }
    }
}

} // verus!
