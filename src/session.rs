//! One client's connection record: its handshake state, what it declared at
//! the handshake, and its outbound mailbox.
use vstd::prelude::*;
use crate::schema::{ClientCapabilities, JSONRPCMessage, ProtocolVersion};

verus! {

/// The opaque identifier of a session (128 random bits).
pub type SessionId = u128;

/// Handshake status; it only ever moves forward.
#[derive(Debug, Clone, Copy, PartialEq, Eq, Structural)]
pub enum InitializeStatus {
    NotInitialized,
    Initializing,
    Initialized,
}

impl InitializeStatus {
    /// Position in the order `NotInitialized < Initializing < Initialized`.
    pub open spec fn rank(self) -> nat {
        match self {
            InitializeStatus::NotInitialized => 0,
            InitializeStatus::Initializing => 1,
            InitializeStatus::Initialized => 2,
        }
    }
}

/// A message bound for one session's stream.
#[derive(Debug, PartialEq, Eq)]
pub struct Message {
    pub session_id: SessionId,
    pub sse_message: JSONRPCMessage,
}

/// A bounded first-in first-out queue of outbound messages.
#[derive(Debug)]
pub struct Mailbox {
    items: Vec<Message>,
    capacity: usize,
}

impl View for Mailbox {
    type V = Seq<Message>;

    closed spec fn view(&self) -> Seq<Message> {
        self.items@
    }
}

impl Mailbox {
    /// The most messages the mailbox holds at once.
    pub closed spec fn capacity(&self) -> nat {
        self.capacity as nat
    }

    pub closed spec fn wf(&self) -> bool {
        0 < self.capacity && self.items@.len() <= self.capacity
    }

    pub fn new(capacity: usize) -> (r: Mailbox)
        requires
            capacity > 0,
        ensures
            r.wf(),
            r@ == Seq::<Message>::empty(),
            r.capacity() == capacity,
    {
        Mailbox { items: Vec::new(), capacity }
    }

    pub fn len(&self) -> (r: usize)
        ensures
            r == self@.len(),
    {
        self.items.len()
    }

    /// Appends `m` at the back, or hands it back when the mailbox is full.
    pub fn push(&mut self, m: Message) -> (r: Result<(), Message>)
        requires
            old(self).wf(),
        ensures
            final(self).wf(),
            final(self).capacity() == old(self).capacity(),
            old(self)@.len() < old(self).capacity() ==> r is Ok && final(self)@ == old(self)@.push(m),
            old(self)@.len() >= old(self).capacity() ==> r == Err::<(), Message>(m) && *final(self) == *old(self),
    {
        if self.items.len() < self.capacity {
            self.items.push(m);
            Ok(())
        } else {
            Err(m)
        }
    }

    /// Takes the message at the front, the oldest one.
    pub fn pop(&mut self) -> (r: Option<Message>)
        requires
            old(self).wf(),
        ensures
            final(self).wf(),
            final(self).capacity() == old(self).capacity(),
            old(self)@.len() == 0 ==> r is None && *final(self) == *old(self),
            old(self)@.len() > 0 ==> r == Some(old(self)@[0]) && final(self)@ == old(self)@.drop_first(),
    {
        if self.items.len() == 0 {
            None
        } else {
            let m = self.items.remove(0);
            proof {
                assert(self.items@ =~= old(self)@.drop_first());
            }
            Some(m)
        }
    }
}

/// Pushing `ms` one by one onto a queue that holds `q`.
pub open spec fn pushed_all(q: Seq<Message>, ms: Seq<Message>) -> Seq<Message>
    decreases ms.len(),
{
    if ms.len() == 0 {
        q
    } else {
        pushed_all(q, ms.drop_last()).push(ms.last())
    }
}

/// The messages that popping `n` times takes out of a queue that holds `q`.
pub open spec fn popped(q: Seq<Message>, n: nat) -> Seq<Message>
    decreases n,
{
    if n == 0 || q.len() == 0 {
        Seq::empty()
    } else {
        seq![q[0]] + popped(q.drop_first(), (n - 1) as nat)
    }
}

/// A mailbox is first in, first out: messages pushed one after another onto an
/// empty mailbox come out, when it is drained, in the order they went in.
pub proof fn lemma_mailbox_order(ms: Seq<Message>)
    ensures
        popped(pushed_all(Seq::empty(), ms), ms.len()) == ms,
{
    lemma_pushed_all(Seq::empty(), ms);
    lemma_popped_all(ms);
    assert(Seq::<Message>::empty() + ms =~= ms);
}

proof fn lemma_pushed_all(q: Seq<Message>, ms: Seq<Message>)
    ensures
        pushed_all(q, ms) == q + ms,
    decreases ms.len(),
{
    if ms.len() > 0 {
        lemma_pushed_all(q, ms.drop_last());
        assert(q + ms.drop_last() + seq![ms.last()] =~= q + ms);
        assert((q + ms.drop_last()).push(ms.last()) =~= q + ms.drop_last() + seq![ms.last()]);
    } else {
        assert(q + ms =~= q);
    }
}

proof fn lemma_popped_all(q: Seq<Message>)
    ensures
        popped(q, q.len()) == q,
    decreases q.len(),
{
    if q.len() > 0 {
        lemma_popped_all(q.drop_first());
        assert(seq![q[0]] + q.drop_first() =~= q);
    } else {
        assert(q =~= Seq::<Message>::empty());
    }
}

/// The record the server keeps for one connected client.
#[derive(Debug)]
pub struct ClientConn {
    pub session_id: SessionId,
    pub initialize_status: InitializeStatus,
    pub capabilities: ClientCapabilities,
    pub protocol_version: ProtocolVersion,
    pub mailbox: Mailbox,
}

impl ClientConn {
    /// A fresh record: not initialized, no capabilities, an empty mailbox.
    pub fn new(session_id: SessionId, mailbox_capacity: usize) -> (r: ClientConn)
        requires
            mailbox_capacity > 0,
        ensures
            r.session_id == session_id,
            r.initialize_status == InitializeStatus::NotInitialized,
            r.capabilities.experimental is None,
            r.capabilities.roots is None,
            r.capabilities.sampling is None,
            r.protocol_version == ProtocolVersion::Mcp2024_11_05,
            r.mailbox.wf(),
            r.mailbox@ == Seq::<Message>::empty(),
            r.mailbox.capacity() == mailbox_capacity,
    {
        ClientConn {
            session_id,
            initialize_status: InitializeStatus::NotInitialized,
            capabilities: ClientCapabilities { experimental: None, roots: None, sampling: None },
            protocol_version: ProtocolVersion::Mcp2024_11_05,
            mailbox: Mailbox::new(mailbox_capacity),
        }
    }
}

} // verus!
