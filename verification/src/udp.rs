//! The UDP forwarding engine's verified state: the per-forwarder session
//! table, which maps each client address to the send handle of its live
//! session, and the per-session step function that decides what each event
//! makes the session do.
//!
//! Sockets, timers and the event loops around these live outside the library;
//! they feed events in and carry the decided actions out.

use vstd::prelude::*;
use crate::config::spec_lookup;
use crate::net::SockAddrV4;

verus! {

/// Declares kanal::AsyncSender, the send half of a kanal channel, so that
/// session handles can live in verified fields; its values are opaque here.
#[verifier::external_type_specification]
#[verifier::external_body]
#[verifier::reject_recursive_types(T)]
pub struct ExAsyncSender<T>(kanal::AsyncSender<T>);

/// Relies on kanal::AsyncSender::is_disconnected: true when the channel's
/// receive side is closed at this instant. The answer depends on runtime
/// state, so nothing is promised of it.
pub assume_specification<T>[ kanal::AsyncSender::<T>::is_disconnected ](
    s: &kanal::AsyncSender<T>,
) -> bool;

/// One forwarder's session table: the send handle of each client's session,
/// the remote target sessions are created for, and the shared reply channel
/// handed to each new session.
///
/// The view is the sequence of `(client, handle)` pairs in insertion order;
/// the handle recorded last for a client is the one a lookup consults.
pub struct SocketMap {
    internal: Vec<(SockAddrV4, kanal::AsyncSender<Vec<u8>>)>,
    pub target: SockAddrV4,
    pub master_tx: kanal::AsyncSender<(Vec<u8>, SockAddrV4)>,
}

impl SocketMap {
    /// The remote target this table's sessions are created for.
    pub closed spec fn spec_target(&self) -> SockAddrV4 {
        self.target
    }

    /// The shared reply channel handed to each new session.
    pub closed spec fn spec_master_tx(&self) -> kanal::AsyncSender<(Vec<u8>, SockAddrV4)> {
        self.master_tx
    }
}

impl View for SocketMap {
    type V = Seq<(SockAddrV4, kanal::AsyncSender<Vec<u8>>)>;

    closed spec fn view(&self) -> Seq<(SockAddrV4, kanal::AsyncSender<Vec<u8>>)> {
        self.internal@
    }
}

impl SocketMap {
    /// An empty table for a forwarder targeting `target`.
    pub fn new(target: SockAddrV4, master_tx: kanal::AsyncSender<(Vec<u8>, SockAddrV4)>) -> (r:
        SocketMap)
        ensures
            r@ == Seq::<(SockAddrV4, kanal::AsyncSender<Vec<u8>>)>::empty(),
            r.spec_target() == target,
            r.spec_master_tx() == master_tx,
    {
        let r = SocketMap { internal: Vec::new(), target, master_tx };
        proof {
            assert(r@ =~= Seq::<(SockAddrV4, kanal::AsyncSender<Vec<u8>>)>::empty());
        }
        r
    }

    /// The recorded session handle for `client`, provided its session still
    /// has its receive side open. `None` means the client has no usable
    /// session and needs a fresh one: either no handle is recorded, or the
    /// recorded session was observed stopped (which only the runtime state
    /// decides, so no more is promised of that case).
    pub fn get_live(&self, client: &SockAddrV4) -> (r: Option<&kanal::AsyncSender<Vec<u8>>>)
        ensures
            (r matches Some(s) ==> spec_lookup(self@, *client) == Some(*s)),
            spec_lookup(self@, *client) is None ==> r is None,
    {
        let mut i: usize = self.internal.len();
        proof {
            assert(self@.subrange(0, i as int) =~= self@);
        }
        while i > 0
            invariant
                i <= self@.len(),
                spec_lookup(self@, *client) == spec_lookup(
                    self@.subrange(0, i as int),
                    *client,
                ),
            decreases i,
        {
            i -= 1;
            let ghost upto = self@.subrange(0, i + 1 as int);
            proof {
                assert(upto.last() == self@[i as int]);
                assert(upto.drop_last() =~= self@.subrange(0, i as int));
            }
            if self.internal[i].0 == *client {
                let tx = &self.internal[i].1;
                if tx.is_disconnected() {
                    return None;
                }
                return Some(tx);
            }
        }
        proof {
            assert(self@.subrange(0, 0) =~= Seq::<
                (SockAddrV4, kanal::AsyncSender<Vec<u8>>),
            >::empty());
        }
        None
    }

    /// Records `tx` as `client`'s session handle, superseding any earlier one.
    pub fn insert(&mut self, client: SockAddrV4, tx: kanal::AsyncSender<Vec<u8>>)
        ensures
            final(self)@ == old(self)@.push((client, tx)),
            final(self).spec_target() == old(self).spec_target(),
            final(self).spec_master_tx() == old(self).spec_master_tx(),
    {
        self.internal.push((client, tx));
    }

    /// The blanket sweep: drops every handle. Sessions themselves are not
    /// told; a client that sends again is simply treated as new.
    pub fn clear(&mut self)
        ensures
            final(self)@ == Seq::<(SockAddrV4, kanal::AsyncSender<Vec<u8>>)>::empty(),
            final(self).spec_target() == old(self).spec_target(),
            final(self).spec_master_tx() == old(self).spec_master_tx(),
    {
        self.internal.clear();
        proof {
            assert(self@ =~= Seq::<(SockAddrV4, kanal::AsyncSender<Vec<u8>>)>::empty());
        }
    }
}

/// An event a running session can observe.
pub enum SessionEvent {
    /// A datagram of the client's, handed over by the forwarder's queue.
    Queued(Vec<u8>),
    /// The queue has no senders left.
    QueueClosed,
    /// A datagram arriving on the session's own socket: the remote's reply.
    RemoteDatagram(Vec<u8>),
    /// Nothing happened for the whole idle window.
    IdleTimeout,
}

/// What a session does in response: send the payload on toward the remote
/// target, push a reply envelope for its client onto the shared reply
/// channel, or stop.
pub enum SessionAction {
    SendToTarget(Vec<u8>),
    Reply(Vec<u8>, SockAddrV4),
    Stop,
}

/// The session's step: client data goes to the remote target unchanged, a
/// remote reply is wrapped with the session's client address unchanged, and a
/// closed queue or the idle timer ends the session.
pub open spec fn spec_session_step(client: SockAddrV4, ev: SessionEvent) -> SessionAction {
    match ev {
        SessionEvent::Queued(p) => SessionAction::SendToTarget(p),
        SessionEvent::QueueClosed => SessionAction::Stop,
        SessionEvent::RemoteDatagram(p) => SessionAction::Reply(p, client),
        SessionEvent::IdleTimeout => SessionAction::Stop,
    }
}

/// Decides a session's reaction to one event.
pub fn session_step(client: SockAddrV4, ev: SessionEvent) -> (a: SessionAction)
    ensures
        a == spec_session_step(client, ev),
{
    match ev {
        SessionEvent::Queued(p) => SessionAction::SendToTarget(p),
        SessionEvent::QueueClosed => SessionAction::Stop,
        SessionEvent::RemoteDatagram(p) => SessionAction::Reply(p, client),
        SessionEvent::IdleTimeout => SessionAction::Stop,
    }
}

/// The payload of a datagram that arrived in `buf` with `len` bytes: exactly
/// the first `len` bytes. A read can fill at most the buffer, so a larger
/// datagram is truncated to the buffer's size.
pub fn received_payload(buf: &[u8], len: usize) -> (r: Vec<u8>)
    requires
        len <= buf@.len(),
    ensures
        r@ == buf@.subrange(0, len as int),
{
    let mut r: Vec<u8> = Vec::new();
    let mut i: usize = 0;
    while i < len
        invariant
            i <= len <= buf@.len(),
            r@ == buf@.subrange(0, i as int),
        decreases len - i,
    {
        r.push(buf[i]);
        i += 1;
        proof {
            assert(r@ =~= buf@.subrange(0, i as int));
        }
    }
    r
}

/// While a client's recorded session stays in the table, every lookup that
/// yields a handle yields that same recorded handle: within one idle window
/// the client is served by one session. After a sweep the table is empty, so
/// the next datagram must get a fresh session.
pub proof fn lemma_session_reuse(
    s: Seq<(SockAddrV4, kanal::AsyncSender<Vec<u8>>)>,
    client: SockAddrV4,
    tx: kanal::AsyncSender<Vec<u8>>,
)
    ensures
        spec_lookup(s.push((client, tx)), client) == Some(tx),
        spec_lookup(Seq::<(SockAddrV4, kanal::AsyncSender<Vec<u8>>)>::empty(), client) is None,
{
}

} // verus!
