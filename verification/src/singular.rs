//! Singular mode: every local peer has one socket of its own to the far end.
use vstd::prelude::*;

use crate::address::SocketAddress;
use crate::clock::{expired, is_expired};
use crate::registry::{
    activity_sets_the_time_alone, sweeps_keep_active_peers, swept, touched, Entry, Registry,
};
use crate::tunnel::{sealed_packets_come_back, Tunnel};

verus! {

/// The peers of one end in singular mode. `H` is what a peer is served with.
pub struct Singular<H> {
    pub inactivity_timeout_sec: u32,
    pub sessions: Registry<SocketAddress, H>,
    /// When inactive sessions were last looked for.
    pub last_gc_ts: u32,
}

/// A packet to send back to a peer.
#[derive(Clone, Copy, Debug, PartialEq, Eq, Structural)]
pub struct Delivery {
    /// Where to send to.
    pub to: SocketAddress,
    /// How many bytes of the buffer to send.
    pub size: usize,
}

/// What happens at one end in singular mode.
pub enum Event<H> {
    /// Inactive sessions are looked for.
    Look { now: u32 },
    /// A packet comes from a peer. One without a session is given one that is served with
    /// `fresh`.
    FromPeer { from: SocketAddress, now: u32, generation: u64, fresh: H },
    /// A packet comes from the upstream for a session of a peer.
    FromUpstream { peer: SocketAddress, generation: u64, now: u32 },
    /// A packet of a peer could not be sent.
    Failed { peer: SocketAddress },
}

/// The sessions, and when inactive ones were last looked for, after an event.
pub open spec fn after<H>(
    state: (Map<SocketAddress, Entry<H>>, u32),
    inactivity_timeout_sec: u32,
    event: Event<H>,
) -> (Map<SocketAddress, Entry<H>>, u32) {
    let (sessions, last_gc_ts) = state;
    match event {
        Event::Look { now } => if expired(now, last_gc_ts, inactivity_timeout_sec) {
            (swept(sessions, now, inactivity_timeout_sec), now)
        } else {
            state
        },
        Event::FromPeer { from, now, generation, fresh } => if sessions.contains_key(from) {
            (touched(sessions, from, now), last_gc_ts)
        } else {
            (
                sessions.insert(from, Entry { last_active_ts: now, generation, handle: fresh }),
                last_gc_ts,
            )
        },
        Event::FromUpstream { peer, generation, now } => if sessions.contains_key(peer)
            && sessions[peer].generation == generation {
            (touched(sessions, peer, now), last_gc_ts)
        } else {
            state
        },
        Event::Failed { peer } => (sessions.remove(peer), last_gc_ts),
    }
}

/// The sessions, and when inactive ones were last looked for, after all that has happened
/// since an end without sessions was set up at `start`.
pub open spec fn after_all<H>(
    inactivity_timeout_sec: u32,
    start: u32,
    history: Seq<Event<H>>,
) -> (Map<SocketAddress, Entry<H>>, u32)
    decreases history.len(),
{
    if history.len() == 0 {
        (Map::empty(), start)
    } else {
        after(
            after_all(inactivity_timeout_sec, start, history.drop_last()),
            inactivity_timeout_sec,
            history.last(),
        )
    }
}

/// What the peer is served with from whom the packet of event `i` comes: the socket over
/// which the packet leaves.
pub open spec fn leaves_by<H>(
    inactivity_timeout_sec: u32,
    start: u32,
    history: Seq<Event<H>>,
    i: int,
) -> H {
    after_all(inactivity_timeout_sec, start, history.take(i + 1)).0[history[i]->from].handle
}

/// Whether no socket is offered to two packets.
pub open spec fn sockets_are_fresh<H>(history: Seq<Event<H>>) -> bool {
    forall|i: int, j: int|
        0 <= i < j < history.len() && (#[trigger] history[i]) is FromPeer && (
        #[trigger] history[j]) is FromPeer ==> history[i]->fresh != history[j]->fresh
}

/// Whether all the looks for inactive sessions come within the timeout, and all packets
/// can be sent.
pub open spec fn undisturbed<H>(
    inactivity_timeout_sec: u32,
    start: u32,
    history: Seq<Event<H>>,
) -> bool {
    forall|i: int|
        0 <= i < history.len() ==> match #[trigger] history[i] {
            Event::Look { now } => !expired(now, start, inactivity_timeout_sec),
            Event::Failed { .. } => false,
            _ => true,
        }
}

/// Whether a buffer is large enough to seal or to open a packet of `size` bytes in it.
pub open spec fn fits(tunnel: Tunnel, seal: bool, buf: Seq<u8>, size: nat) -> bool {
    &&& size <= buf.len()
    &&& if seal {
        size < tunnel.pad_size ==> tunnel.pad_size <= buf.len()
    } else {
        0 < tunnel.pad_size <= buf.len()
    }
}

/// The size of a packet that was sealed, or opened.
pub open spec fn carried_size(tunnel: Tunnel, seal: bool, buf: Seq<u8>, size: nat) -> nat {
    if seal {
        tunnel.sealed_size(size)
    } else {
        tunnel.opened_size(buf, size)
    }
}

/// The contents of a buffer in which a packet was sealed, or opened.
pub open spec fn carried(tunnel: Tunnel, seal: bool, buf: Seq<u8>, size: nat) -> Seq<u8> {
    if seal {
        tunnel.sealed(buf, size)
    } else {
        tunnel.opened(buf, size)
    }
}

/// Prepares a packet from a peer for the way to the upstream: the client end seals it,
/// the server end opens it. Returns its new size.
pub fn forward(tunnel: &Tunnel, client: bool, buf: &mut [u8], size: usize) -> (on_wire: usize)
    requires
        fits(*tunnel, client, old(buf)@, size as nat),
    ensures
        on_wire == carried_size(*tunnel, client, old(buf)@, size as nat),
        on_wire <= old(buf)@.len(),
        final(buf)@ == carried(*tunnel, client, old(buf)@, size as nat),
        client ==> on_wire == tunnel.sealed_size(size as nat) && final(buf)@ == tunnel.sealed(
            old(buf)@,
            size as nat,
        ),
        !client ==> on_wire == tunnel.opened_size(old(buf)@, size as nat) && final(buf)@
            == tunnel.opened(old(buf)@, size as nat),
{
    if client {
        tunnel.seal(buf, size)
    } else {
        tunnel.open(buf, size)
    }
}

/// Prepares a packet from the upstream for the way back to a peer: the client end opens
/// it, the server end seals it. Returns its new size.
pub fn send_back(tunnel: &Tunnel, client: bool, buf: &mut [u8], size: usize) -> (on_wire: usize)
    requires
        fits(*tunnel, !client, old(buf)@, size as nat),
    ensures
        on_wire == carried_size(*tunnel, !client, old(buf)@, size as nat),
        on_wire <= old(buf)@.len(),
        final(buf)@ == carried(*tunnel, !client, old(buf)@, size as nat),
        client ==> on_wire == tunnel.opened_size(old(buf)@, size as nat) && final(buf)@
            == tunnel.opened(old(buf)@, size as nat),
        !client ==> on_wire == tunnel.sealed_size(size as nat) && final(buf)@ == tunnel.sealed(
            old(buf)@,
            size as nat,
        ),
{
    if client {
        tunnel.open(buf, size)
    } else {
        tunnel.seal(buf, size)
    }
}

/// A packet that one end seals and the other opens arrives as it was sent: on the way to
/// the upstream the client end seals, on the way back the server end does.
pub proof fn packets_cross_both_ways(
    near: Tunnel,
    far: Tunnel,
    buf: Seq<u8>,
    size: nat,
    received: Seq<u8>,
)
    requires
        near.key_bytes@ == far.key_bytes@,
        near.obfuscation_size == far.obfuscation_size,
        near.pad_size == far.pad_size,
        0 < near.pad_size,
        fits(near, true, buf, size),
        near.can_restore(buf.take(size as int)),
        carried_size(near, true, buf, size) <= received.len(),
        received.take(carried_size(near, true, buf, size) as int) == carried(
            near,
            true,
            buf,
            size,
        ).take(carried_size(near, true, buf, size) as int),
    ensures
        carried_size(far, false, received, carried_size(near, true, buf, size)) == size,
        carried(far, false, received, carried_size(near, true, buf, size)).take(size as int)
            == buf.take(size as int),
{
    sealed_packets_come_back(near, far, buf, size, received);
}

/// Two peers never share a session: what happens to the session of one leaves the other's
/// as it was, and a session that is started for one is found for that one alone.
pub proof fn peers_never_share_a_session<H>(
    sessions: Map<SocketAddress, Entry<H>>,
    a: SocketAddress,
    b: SocketAddress,
    now: u32,
    entry: Entry<H>,
)
    requires
        a != b,
    ensures
        touched(sessions, a, now).contains_key(b) == sessions.contains_key(b),
        sessions.contains_key(b) ==> touched(sessions, a, now)[b] == sessions[b],
        sessions.insert(a, entry).contains_key(b) == sessions.contains_key(b),
        sessions.contains_key(b) ==> sessions.insert(a, entry)[b] == sessions[b],
        sessions.remove(a).contains_key(b) == sessions.contains_key(b),
        sessions.contains_key(b) ==> sessions.remove(a)[b] == sessions[b],
        sessions.insert(a, entry).contains_key(a),
        sessions.insert(a, entry)[a] == entry,
{
}

/// Whether event `i` offers `handle` for `peer`.
spec fn offers<H>(history: Seq<Event<H>>, i: int, peer: SocketAddress, handle: H) -> bool {
    &&& 0 <= i < history.len()
    &&& history[i] is FromPeer
    &&& history[i]->from == peer
    &&& history[i]->fresh == handle
}

/// An event leaves a session that it does not end with the socket it has.
proof fn events_keep_sockets<H>(
    state: (Map<SocketAddress, Entry<H>>, u32),
    inactivity_timeout_sec: u32,
    event: Event<H>,
    peer: SocketAddress,
)
    requires
        state.0.contains_key(peer),
    ensures
        after(state, inactivity_timeout_sec, event).0.contains_key(peer) ==> after(
            state,
            inactivity_timeout_sec,
            event,
        ).0[peer].handle == state.0[peer].handle,
        event is FromPeer || event is FromUpstream ==> after(
            state,
            inactivity_timeout_sec,
            event,
        ).0.contains_key(peer),
{
    match event {
        Event::Look { now } => {
            sweeps_keep_active_peers(state.0, now, inactivity_timeout_sec, peer);
        },
        Event::FromPeer { from, now, .. } => {
            activity_sets_the_time_alone(state.0, from, now, peer);
        },
        Event::FromUpstream { peer: other, now, .. } => {
            activity_sets_the_time_alone(state.0, other, now, peer);
        },
        Event::Failed { .. } => {},
    }
}

/// Every session is served with what was offered for its peer.
proof fn sockets_are_offered<H>(inactivity_timeout_sec: u32, start: u32, history: Seq<Event<H>>)
    ensures
        forall|peer: SocketAddress| #[trigger]
            after_all(inactivity_timeout_sec, start, history).0.contains_key(peer) ==> exists|
                i: int,
            | #[trigger]
                offers(
                    history,
                    i,
                    peer,
                    after_all(inactivity_timeout_sec, start, history).0[peer].handle,
                ),
    decreases history.len(),
{
    if history.len() > 0 {
        let past = history.drop_last();
        let before = after_all(inactivity_timeout_sec, start, past).0;
        let now = after_all(inactivity_timeout_sec, start, history).0;
        sockets_are_offered(inactivity_timeout_sec, start, past);
        assert forall|peer: SocketAddress| #[trigger] now.contains_key(peer) implies exists|i: int|
            #[trigger] offers(history, i, peer, now[peer].handle) by {
            if before.contains_key(peer) {
                events_keep_sockets(
                    after_all(inactivity_timeout_sec, start, past),
                    inactivity_timeout_sec,
                    history.last(),
                    peer,
                );
                let i = choose|i: int| #[trigger] offers(past, i, peer, before[peer].handle);
                assert(offers(history, i, peer, now[peer].handle));
            } else {
                assert(offers(history, history.len() - 1, peer, now[peer].handle));
            }
        }
    }
}

/// Within the timeout a session stays, and is served with the same socket.
proof fn sockets_stay<H>(
    inactivity_timeout_sec: u32,
    start: u32,
    history: Seq<Event<H>>,
    seen: int,
    peer: SocketAddress,
)
    requires
        undisturbed(inactivity_timeout_sec, start, history),
        0 <= seen <= history.len(),
        after_all(inactivity_timeout_sec, start, history.take(seen)).0.contains_key(peer),
    ensures
        after_all(inactivity_timeout_sec, start, history).1 == start,
        after_all(inactivity_timeout_sec, start, history).0.contains_key(peer),
        after_all(inactivity_timeout_sec, start, history).0[peer].handle == after_all(
            inactivity_timeout_sec,
            start,
            history.take(seen),
        ).0[peer].handle,
    decreases history.len(),
{
    no_sweep(inactivity_timeout_sec, start, history);
    if seen == history.len() {
        assert(history.take(seen) =~= history);
    } else {
        let past = history.drop_last();
        no_sweep(inactivity_timeout_sec, start, past);
        assert(past.take(seen) =~= history.take(seen));
        sockets_stay(inactivity_timeout_sec, start, past, seen, peer);
        events_keep_sockets(
            after_all(inactivity_timeout_sec, start, past),
            inactivity_timeout_sec,
            history.last(),
            peer,
        );
        assert(history[history.len() - 1] == history.last());
    }
}

/// Within the timeout no session is swept away.
proof fn no_sweep<H>(inactivity_timeout_sec: u32, start: u32, history: Seq<Event<H>>)
    requires
        undisturbed(inactivity_timeout_sec, start, history),
    ensures
        after_all(inactivity_timeout_sec, start, history).1 == start,
    decreases history.len(),
{
    if history.len() > 0 {
        assert(history[history.len() - 1] == history.last());
        no_sweep(inactivity_timeout_sec, start, history.drop_last());
    }
}

/// Two peers never share a socket, whatever happens: if every packet of a peer without a
/// session brings a new one, what comes back on a socket has one peer to go to.
pub proof fn peers_never_share_a_socket<H>(
    inactivity_timeout_sec: u32,
    start: u32,
    history: Seq<Event<H>>,
    a: SocketAddress,
    b: SocketAddress,
)
    requires
        sockets_are_fresh(history),
        a != b,
        after_all(inactivity_timeout_sec, start, history).0.contains_key(a),
        after_all(inactivity_timeout_sec, start, history).0.contains_key(b),
    ensures
        after_all(inactivity_timeout_sec, start, history).0[a].handle != after_all(
            inactivity_timeout_sec,
            start,
            history,
        ).0[b].handle,
{
    let sessions = after_all(inactivity_timeout_sec, start, history).0;
    sockets_are_offered(inactivity_timeout_sec, start, history);
    let i = choose|i: int| #[trigger] offers(history, i, a, sessions[a].handle);
    let j = choose|j: int| #[trigger] offers(history, j, b, sessions[b].handle);
    assert(history[i]->fresh != history[j]->fresh);
}

/// Two packets that come within the timeout leave by the same socket exactly when they
/// come from the same peer.
pub proof fn packets_leave_by_their_peers_socket<H>(
    inactivity_timeout_sec: u32,
    start: u32,
    history: Seq<Event<H>>,
    i: int,
    j: int,
)
    requires
        sockets_are_fresh(history),
        undisturbed(inactivity_timeout_sec, start, history),
        0 <= i < history.len(),
        0 <= j < history.len(),
        history[i] is FromPeer,
        history[j] is FromPeer,
    ensures
        leaves_by(inactivity_timeout_sec, start, history, i) == leaves_by(
            inactivity_timeout_sec,
            start,
            history,
            j,
        ) <==> history[i]->from == history[j]->from,
    decreases
        (if i <= j {
            0int
        } else {
            1
        }),
{
    if j < i {
        packets_leave_by_their_peers_socket(inactivity_timeout_sec, start, history, j, i);
    } else {
        let early = history.take(i + 1);
        let late = history.take(j + 1);
        assert(early.last() == history[i]);
        assert(late.last() == history[j]);
        assert(late.take(i + 1) =~= early);
        sockets_stay(inactivity_timeout_sec, start, late, i + 1, history[i]->from);
        if history[i]->from != history[j]->from {
            peers_never_share_a_socket(
                inactivity_timeout_sec,
                start,
                late,
                history[i]->from,
                history[j]->from,
            );
        }
    }
}

impl<H> Singular<H> {
    /// No peer has two sessions.
    pub open spec fn wf(&self) -> bool {
        self.sessions.wf()
    }

    /// The sessions, and when inactive ones were last looked for.
    pub open spec fn state(&self) -> (Map<SocketAddress, Entry<H>>, u32) {
        (self.sessions@, self.last_gc_ts)
    }

    /// Whether it is time to look for inactive sessions.
    pub open spec fn gc_due(&self, now: u32) -> bool {
        expired(now, self.last_gc_ts, self.inactivity_timeout_sec)
    }

    /// An end without sessions.
    pub fn new(inactivity_timeout_sec: u32, now: u32) -> (singular: Self)
        ensures
            singular.wf(),
            singular.inactivity_timeout_sec == inactivity_timeout_sec,
            singular.sessions@ == Map::<SocketAddress, Entry<H>>::empty(),
            singular.sessions.upcoming_generation() == 0,
            singular.last_gc_ts == now,
            singular.state() == after_all::<H>(inactivity_timeout_sec, now, Seq::empty()),
    {
        Singular { inactivity_timeout_sec, sessions: Registry::new(), last_gc_ts: now }
    }

    /// Forgets inactive sessions, unless it has looked for them within the timeout.
    pub fn collect_garbage(&mut self, now: u32)
        requires
            old(self).wf(),
            old(self).last_gc_ts <= now,
            old(self).gc_due(now) ==> old(self).sessions.active_by(now),
        ensures
            final(self).wf(),
            final(self).inactivity_timeout_sec == old(self).inactivity_timeout_sec,
            final(self).sessions.upcoming_generation() == old(
                self,
            ).sessions.upcoming_generation(),
            final(self).sessions@ == (if old(self).gc_due(now) {
                swept(old(self).sessions@, now, old(self).inactivity_timeout_sec)
            } else {
                old(self).sessions@
            }),
            final(self).last_gc_ts == (if old(self).gc_due(now) {
                now
            } else {
                old(self).last_gc_ts
            }),
            final(self).state() == after(
                old(self).state(),
                old(self).inactivity_timeout_sec,
                (Event::Look { now }),
            ),
            now - old(self).last_gc_ts <= old(self).inactivity_timeout_sec
                ==> final(self).sessions@ == old(self).sessions@ && final(self).last_gc_ts
                == old(self).last_gc_ts,
            now - old(self).last_gc_ts > old(self).inactivity_timeout_sec ==> {
                &&& final(self).last_gc_ts == now
                &&& forall|peer: SocketAddress| #[trigger]
                    final(self).sessions@.contains_key(peer) <==> old(
                        self,
                    ).sessions@.contains_key(peer) && now - old(
                        self,
                    ).sessions@[peer].last_active_ts <= old(self).inactivity_timeout_sec
            },
            forall|peer: SocketAddress| #[trigger]
                final(self).sessions@.contains_key(peer) ==> final(self).sessions@[peer] == old(
                    self,
                ).sessions@[peer],
    {
        if is_expired(now, self.last_gc_ts, self.inactivity_timeout_sec) {
            self.sessions.sweep(now, self.inactivity_timeout_sec);
            self.last_gc_ts = now;
        }
    }

    /// Takes note of a packet from a peer, and tells whether the peer has a session. One
    /// that has none is to be given one.
    pub fn on_peer_packet(&mut self, from: &SocketAddress, now: u32) -> (known: bool)
        requires
            old(self).wf(),
        ensures
            final(self).wf(),
            final(self).inactivity_timeout_sec == old(self).inactivity_timeout_sec,
            final(self).sessions.upcoming_generation() == old(
                self,
            ).sessions.upcoming_generation(),
            final(self).last_gc_ts == old(self).last_gc_ts,
            known == old(self).sessions@.contains_key(*from),
            final(self).sessions@ == touched(old(self).sessions@, *from, now),
            !known ==> final(self).state() == old(self).state(),
            known ==> forall|generation: u64, fresh: H|
                final(self).state() == #[trigger] after(
                    old(self).state(),
                    old(self).inactivity_timeout_sec,
                    (Event::FromPeer { from: *from, now, generation, fresh }),
                ),
    {
        self.sessions.touch(from, now)
    }

    /// What a peer is served with.
    pub fn session(&self, from: &SocketAddress) -> (handle: Option<&H>)
        requires
            self.wf(),
        ensures
            handle is Some <==> self.sessions@.contains_key(*from),
            handle matches Some(h) ==> *h == self.sessions@[*from].handle,
    {
        match self.sessions.get(from) {
            Some(entry) => Some(&entry.handle),
            None => None,
        }
    }

    /// Serves a peer with `handle` from here on, and returns the generation that tells
    /// this session from the peer's earlier ones.
    pub fn start_session(&mut self, from: SocketAddress, now: u32, handle: H) -> (generation: u64)
        requires
            old(self).wf(),
        ensures
            final(self).wf(),
            final(self).inactivity_timeout_sec == old(self).inactivity_timeout_sec,
            final(self).last_gc_ts == old(self).last_gc_ts,
            generation == old(self).sessions.upcoming_generation(),
            final(self).sessions.upcoming_generation() == (if generation == u64::MAX {
                0
            } else {
                generation + 1
            }),
            final(self).sessions@ == old(self).sessions@.insert(
                from,
                Entry { last_active_ts: now, generation, handle },
            ),
            !old(self).sessions@.contains_key(from) ==> final(self).state() == after(
                old(self).state(),
                old(self).inactivity_timeout_sec,
                (Event::FromPeer { from, now, generation, fresh: handle }),
            ),
    {
        self.sessions.insert(from, now, handle)
    }

    /// Takes note of a packet from the upstream for a session. It counts for nothing
    /// once that session is over.
    pub fn on_upstream_packet(&mut self, peer: &SocketAddress, generation: u64, now: u32) -> (known:
        bool)
        requires
            old(self).wf(),
        ensures
            final(self).wf(),
            final(self).inactivity_timeout_sec == old(self).inactivity_timeout_sec,
            final(self).sessions.upcoming_generation() == old(
                self,
            ).sessions.upcoming_generation(),
            final(self).last_gc_ts == old(self).last_gc_ts,
            known == (old(self).sessions@.contains_key(*peer)
                && old(self).sessions@[*peer].generation == generation),
            final(self).sessions@ == (if known {
                touched(old(self).sessions@, *peer, now)
            } else {
                old(self).sessions@
            }),
            final(self).state() == after(
                old(self).state(),
                old(self).inactivity_timeout_sec,
                (Event::FromUpstream { peer: *peer, generation, now }),
            ),
    {
        self.sessions.touch_generation(peer, generation, now)
    }

    /// Takes a packet of `size` bytes in `buf` from the upstream, for a session of `peer`.
    /// It is prepared for the way back and goes to that peer, even once that session is
    /// over, but counts as activity of that session only.
    pub fn answer(
        &mut self,
        tunnel: &Tunnel,
        client: bool,
        peer: &SocketAddress,
        generation: u64,
        buf: &mut [u8],
        size: usize,
        now: u32,
    ) -> (delivery: Delivery)
        requires
            old(self).wf(),
            fits(*tunnel, !client, old(buf)@, size as nat),
        ensures
            final(self).wf(),
            final(self).inactivity_timeout_sec == old(self).inactivity_timeout_sec,
            final(self).sessions.upcoming_generation() == old(
                self,
            ).sessions.upcoming_generation(),
            final(self).state() == after(
                old(self).state(),
                old(self).inactivity_timeout_sec,
                (Event::FromUpstream { peer: *peer, generation, now }),
            ),
            final(self).last_gc_ts == old(self).last_gc_ts,
            final(self).sessions@ == (if old(self).sessions@.contains_key(*peer) && old(
                self,
            ).sessions@[*peer].generation == generation {
                touched(old(self).sessions@, *peer, now)
            } else {
                old(self).sessions@
            }),
            delivery.to == *peer,
            delivery.size == carried_size(*tunnel, !client, old(buf)@, size as nat),
            delivery.size <= old(buf)@.len(),
            final(buf)@ == carried(*tunnel, !client, old(buf)@, size as nat),
    {
        let on_wire: usize = send_back(tunnel, client, buf, size);
        self.on_upstream_packet(peer, generation, now);
        Delivery { to: *peer, size: on_wire }
    }

    /// Ends the session of a peer whose packet could not be sent.
    pub fn end_session(&mut self, from: &SocketAddress)
        requires
            old(self).wf(),
        ensures
            final(self).wf(),
            final(self).inactivity_timeout_sec == old(self).inactivity_timeout_sec,
            final(self).sessions.upcoming_generation() == old(
                self,
            ).sessions.upcoming_generation(),
            final(self).last_gc_ts == old(self).last_gc_ts,
            final(self).sessions@ == old(self).sessions@.remove(*from),
            final(self).state() == after(
                old(self).state(),
                old(self).inactivity_timeout_sec,
                (Event::Failed { peer: *from }),
            ),
    {
        self.sessions.remove(from);
    }
}

/// Which way a packet is carried decides between sealing and opening, for every packet
/// that has room in its buffer.
pub proof fn carrying_seals_or_opens(tunnel: Tunnel, buf: Seq<u8>, size: nat)
    ensures
        carried_size(tunnel, true, buf, size) == tunnel.sealed_size(size),
        carried(tunnel, true, buf, size) == tunnel.sealed(buf, size),
        carried_size(tunnel, false, buf, size) == tunnel.opened_size(buf, size),
        carried(tunnel, false, buf, size) == tunnel.opened(buf, size),
        fits(tunnel, true, buf, size) <==> size <= buf.len() && (tunnel.pad_size <= size
            || tunnel.pad_size <= buf.len()),
        fits(tunnel, false, buf, size) <==> size <= buf.len() && 0 < tunnel.pad_size <= buf.len(),
{
}

} // verus!
