//! The server end: many clients, each with its own way to the upstream.
use vstd::prelude::*;

use crate::address::{hosts_are_whole_addresses, IpAddress, SocketAddress};
use crate::registry::{swept, touched, Entry, Registry};
use crate::rotation::{following, path_of, take_turn};
use crate::tunnel::Tunnel;

verus! {

/// Where a client was last heard from, for each of the ports the server listens on.
pub struct RecentAddresses {
    pub slots: Vec<Option<SocketAddress>>,
}

/// A packet to send back to a client.
#[derive(Clone, Copy, Debug, PartialEq, Eq, Structural)]
pub struct Reply {
    /// The listening socket to send with.
    pub path: usize,
    /// Where to send to.
    pub to: SocketAddress,
    /// How many bytes of the buffer to send.
    pub size: usize,
}

/// What becomes of a packet that came over the tunnel.
#[derive(Clone, Copy, Debug, PartialEq, Eq, Structural)]
pub enum Inbound {
    /// It is too short to have been sealed.
    Dropped,
    /// Its host is to be connected to the upstream first, and then the first `size` bytes
    /// of the buffer go there.
    Connect { size: usize },
    /// The first `size` bytes of the buffer go to the upstream over the connection that
    /// its host has.
    Forward { size: usize },
}

/// Whether all the addresses are addresses of one host.
pub open spec fn of_host(slots: Seq<Option<SocketAddress>>, host: IpAddress) -> bool {
    forall|i: int|
        0 <= i < slots.len() ==> ((#[trigger] slots[i]) matches Some(address) ==> address.host()
            == host)
}

/// The ports, in order, on which there is an address.
pub open spec fn in_use(slots: Seq<Option<SocketAddress>>) -> Seq<usize>
    decreases slots.len(),
{
    if slots.len() == 0 {
        Seq::empty()
    } else if slots.last() is Some {
        in_use(slots.drop_last()).push((slots.len() - 1) as usize)
    } else {
        in_use(slots.drop_last())
    }
}

/// The ports in use are those that have an address, each named once and in order.
pub proof fn in_use_is_exact(slots: Seq<Option<SocketAddress>>)
    requires
        slots.len() <= usize::MAX,
    ensures
        forall|i: int|
            0 <= i < in_use(slots).len() ==> (#[trigger] in_use(slots)[i]) < slots.len()
                && slots[in_use(slots)[i] as int] is Some,
        forall|at: usize|
            at < slots.len() && slots[at as int] is Some ==> #[trigger] in_use(slots).contains(at),
        forall|i: int, j: int|
            0 <= i < j < in_use(slots).len() ==> (#[trigger] in_use(slots)[i]) < (
            #[trigger] in_use(slots)[j]),
    decreases slots.len(),
{
    if slots.len() > 0 {
        let before = in_use(slots.drop_last());
        in_use_is_exact(slots.drop_last());
        assert forall|at: usize|
            at < slots.len() && slots[at as int] is Some implies #[trigger] in_use(slots).contains(
            at,
        ) by {
            if at < slots.len() - 1 {
                assert(slots.drop_last()[at as int] is Some);
                assert(before.contains(at));
                let i = before.index_of(at);
                assert(in_use(slots)[i] == at);
            } else {
                assert(in_use(slots)[before.len() as int] == at);
            }
        }
        assert forall|i: int| 0 <= i < in_use(slots).len() implies (#[trigger] in_use(slots)[i])
            < slots.len() && slots[in_use(slots)[i] as int] is Some by {
            if i < before.len() {
                assert(in_use(slots)[i] == before[i]);
                assert(slots.drop_last()[before[i] as int] == slots[before[i] as int]);
            }
        }
    }
}

/// A client that was heard from on some port has a port in use, so that a packet for it
/// is never held back.
pub proof fn heard_clients_can_be_answered(
    slots: Seq<Option<SocketAddress>>,
    path: usize,
    from: SocketAddress,
)
    requires
        path < slots.len() <= usize::MAX,
        slots[path as int] == Some(from),
    ensures
        in_use(slots).len() > 0,
{
    in_use_is_exact(slots);
    assert(in_use(slots).contains(path));
}

/// Hosts are answered apart: no address kept for one of them is kept for another.
pub proof fn hosts_are_answered_apart(
    slots: Seq<Option<SocketAddress>>,
    host: IpAddress,
    other_slots: Seq<Option<SocketAddress>>,
    other_host: IpAddress,
)
    requires
        of_host(slots, host),
        of_host(other_slots, other_host),
        host != other_host,
    ensures
        forall|i: int, j: int|
            0 <= i < slots.len() && 0 <= j < other_slots.len() && (#[trigger] slots[i]) is Some
                ==> slots[i] != (#[trigger] other_slots[j]),
{
}

impl RecentAddresses {
    /// The addresses of a client that was not heard from yet, for a server that listens
    /// on `paths` ports.
    pub fn unheard(paths: usize) -> (recent: Self)
        ensures
            recent.slots@ == Seq::new(paths as nat, |i: int| None::<SocketAddress>),
            in_use(recent.slots@).len() == 0,
            forall|host: IpAddress| #[trigger] of_host(recent.slots@, host),
    {
        let mut slots: Vec<Option<SocketAddress>> = Vec::new();
        for i in 0..paths
            invariant
                slots@ == Seq::new(i as nat, |j: int| None::<SocketAddress>),
                in_use(slots@).len() == 0,
        {
            let ghost before = slots@;
            slots.push(None);
            assert(slots@.drop_last() =~= before);
            assert(slots@ =~= Seq::new((i + 1) as nat, |j: int| None::<SocketAddress>));
        }
        RecentAddresses { slots }
    }

    /// The addresses of a client first heard from at `from`, on port `path` of `paths`.
    pub fn new(paths: usize, path: usize, from: SocketAddress) -> (recent: Self)
        requires
            path < paths,
        ensures
            recent.slots@ == Seq::new(paths as nat, |i: int| None::<SocketAddress>).update(
                path as int,
                Some(from),
            ),
            in_use(recent.slots@).len() > 0,
            of_host(recent.slots@, from.host()),
    {
        let mut recent = RecentAddresses::unheard(paths);
        recent.record(path, from);
        recent
    }

    /// Notes where the client was heard from on port `path`.
    pub fn record(&mut self, path: usize, from: SocketAddress)
        requires
            path < old(self).slots@.len(),
        ensures
            final(self).slots@ == old(self).slots@.update(path as int, Some(from)),
            in_use(final(self).slots@).len() > 0,
            of_host(old(self).slots@, from.host()) ==> of_host(final(self).slots@, from.host()),
    {
        self.slots[path] = Some(from);
        proof {
            assert(self.slots@.len() == self.slots.len());
            heard_clients_can_be_answered(self.slots@, path, from);
        }
    }

    fn paths_in_use(&self) -> (paths: Vec<usize>)
        ensures
            paths@ == in_use(self.slots@),
    {
        let mut paths: Vec<usize> = Vec::new();
        assert(self.slots@.take(0) =~= Seq::empty());
        for i in 0..self.slots.len()
            invariant
                paths@ == in_use(self.slots@.take(i as int)),
        {
            assert(self.slots@.take(i + 1).drop_last() =~= self.slots@.take(i as int));
            if self.slots[i].is_some() {
                paths.push(i);
            }
        }
        assert(self.slots@.take(self.slots@.len() as int) =~= self.slots@);
        paths
    }

    /// Takes a packet of `size` bytes in `buf` from the upstream, for this client. It is
    /// sealed and goes to the port in use whose turn it is. Without a port in use
    /// nothing is sent, and no turn is taken.
    pub fn reply(&self, tunnel: &Tunnel, turn: &mut usize, buf: &mut [u8], size: usize) -> (reply:
        Option<Reply>)
        requires
            *old(turn) < usize::MAX,
            size <= old(buf)@.len(),
            in_use(self.slots@).len() > 0 && size < tunnel.pad_size ==> tunnel.pad_size <= old(
                buf,
            )@.len(),
        ensures
            *final(turn) < usize::MAX,
            reply is None <==> in_use(self.slots@).len() == 0,
            reply is None ==> *final(turn) == *old(turn) && final(buf)@ == old(buf)@,
            reply matches Some(r) ==> {
                &&& r.path == in_use(self.slots@)[path_of(
                    *old(turn) as nat,
                    in_use(self.slots@).len(),
                ) as int]
                &&& r.path < self.slots@.len()
                &&& self.slots@[r.path as int] == Some(r.to)
                &&& forall|host: IpAddress| #[trigger]
                    of_host(self.slots@, host) ==> r.to.host() == host
                &&& r.size == tunnel.sealed_size(size as nat)
                &&& r.size <= old(buf)@.len()
                &&& *final(turn) == following(*old(turn) as nat)
                &&& final(buf)@ == tunnel.sealed(old(buf)@, size as nat)
            },
    {
        let paths = self.paths_in_use();
        if paths.len() == 0 {
            return None;
        }
        let path: usize = paths[take_turn(turn, paths.len())];
        proof {
            assert(self.slots@.len() == self.slots.len());
            in_use_is_exact(self.slots@);
        }
        match self.slots[path] {
            Some(to) => {
                let sealed: usize = tunnel.seal(buf, size);
                Some(Reply { path, to, size: sealed })
            },
            None => None,
        }
    }
}

/// The clients that the server knows, by host. `H` is what a client is served with.
pub struct Server<H> {
    pub inactivity_timeout_sec: u32,
    pub connections: Registry<IpAddress, H>,
}

impl<H> Server<H> {
    /// No host has two connections.
    pub open spec fn wf(&self) -> bool {
        self.connections.wf()
    }

    /// A server that knows no clients.
    pub fn new(inactivity_timeout_sec: u32) -> (server: Self)
        ensures
            server.wf(),
            server.inactivity_timeout_sec == inactivity_timeout_sec,
            server.connections@ == Map::<IpAddress, Entry<H>>::empty(),
            server.connections.upcoming_generation() == 0,
    {
        Server { inactivity_timeout_sec, connections: Registry::new() }
    }

    /// Takes note of a packet from `from`, and tells whether its host has a connection.
    /// One that has none is to be connected to the upstream.
    pub fn on_client_packet(&mut self, from: &SocketAddress, now: u32) -> (connected: bool)
        requires
            old(self).wf(),
        ensures
            final(self).wf(),
            final(self).inactivity_timeout_sec == old(self).inactivity_timeout_sec,
            final(self).connections.upcoming_generation() == old(
                self,
            ).connections.upcoming_generation(),
            connected == old(self).connections@.contains_key(from.host()),
            final(self).connections@ == touched(old(self).connections@, from.host(), now),
    {
        self.connections.touch(&from.ip(), now)
    }

    /// Takes a packet of `size` bytes in `buf` that came from `from` on port `path`, where
    /// `recent` holds the addresses kept for its host: none, for a host without a
    /// connection. A packet too short to have been sealed changes nothing. Any other is
    /// opened, counts as activity of its host, and shows where to answer the host.
    pub fn on_inbound_packet(
        &mut self,
        recent: &mut RecentAddresses,
        tunnel: &Tunnel,
        path: usize,
        from: &SocketAddress,
        buf: &mut [u8],
        size: usize,
        now: u32,
    ) -> (inbound: Inbound)
        requires
            old(self).wf(),
            path < old(recent).slots@.len(),
            size <= old(buf)@.len(),
            0 < tunnel.pad_size,
        ensures
            final(self).wf(),
            inbound is Dropped <==> size < tunnel.pad_size,
            inbound is Dropped ==> {
                &&& *final(self) == *old(self)
                &&& *final(recent) == *old(recent)
                &&& final(buf)@ == old(buf)@
            },
            inbound is Forward <==> size >= tunnel.pad_size && old(
                self,
            ).connections@.contains_key(from.host()),
            inbound matches Inbound::Connect { size: inner } ==> inner == tunnel.opened_size(
                old(buf)@,
                size as nat,
            ) && inner <= size,
            inbound matches Inbound::Forward { size: inner } ==> inner == tunnel.opened_size(
                old(buf)@,
                size as nat,
            ) && inner <= size,
            inbound !is Dropped ==> {
                &&& final(self).inactivity_timeout_sec == old(self).inactivity_timeout_sec
                &&& final(self).connections.upcoming_generation() == old(
                    self,
                ).connections.upcoming_generation()
                &&& final(self).connections@ == touched(
                    old(self).connections@,
                    from.host(),
                    now,
                )
                &&& final(recent).slots@ == old(recent).slots@.update(path as int, Some(*from))
                &&& in_use(final(recent).slots@).len() > 0
                &&& final(buf)@ == tunnel.opened(old(buf)@, size as nat)
            },
            of_host(old(recent).slots@, from.host()) ==> of_host(
                final(recent).slots@,
                from.host(),
            ),
    {
        match tunnel.accept(buf, size) {
            None => Inbound::Dropped,
            Some(inner) => {
                recent.record(path, *from);
                if self.on_client_packet(from, now) {
                    Inbound::Forward { size: inner }
                } else {
                    Inbound::Connect { size: inner }
                }
            },
        }
    }

    /// What the host of `from` is served with.
    pub fn connection(&self, from: &SocketAddress) -> (handle: Option<&H>)
        requires
            self.wf(),
        ensures
            handle is Some <==> self.connections@.contains_key(from.host()),
            handle matches Some(h) ==> *h == self.connections@[from.host()].handle,
    {
        match self.connections.get(&from.ip()) {
            Some(entry) => Some(&entry.handle),
            None => None,
        }
    }

    /// Serves the host of `from` with `handle` from here on.
    pub fn connect(&mut self, from: &SocketAddress, now: u32, handle: H)
        requires
            old(self).wf(),
        ensures
            final(self).wf(),
            final(self).inactivity_timeout_sec == old(self).inactivity_timeout_sec,
            final(self).connections.upcoming_generation() == (if old(
                self,
            ).connections.upcoming_generation() == u64::MAX {
                0
            } else {
                old(self).connections.upcoming_generation() + 1
            }),
            final(self).connections@ == old(self).connections@.insert(
                from.host(),
                Entry {
                    last_active_ts: now,
                    generation: old(self).connections.upcoming_generation(),
                    handle,
                },
            ),
    {
        self.connections.insert(from.ip(), now, handle);
    }

    /// Forgets the connections of the hosts that have been silent for too long.
    pub fn clean_up(&mut self, now: u32)
        requires
            old(self).wf(),
            old(self).connections.active_by(now),
        ensures
            final(self).wf(),
            final(self).inactivity_timeout_sec == old(self).inactivity_timeout_sec,
            final(self).connections.upcoming_generation() == old(
                self,
            ).connections.upcoming_generation(),
            final(self).connections@ == swept(
                old(self).connections@,
                now,
                old(self).inactivity_timeout_sec,
            ),
    {
        self.connections.sweep(now, self.inactivity_timeout_sec);
    }
}

/// Connections are kept by the whole address of a host: after one socket was connected,
/// another is found connected by it exactly if the two have the same address, whatever
/// their ports, and is otherwise left as it was.
pub proof fn connections_go_by_whole_addresses<H>(
    connections: Map<IpAddress, Entry<H>>,
    from: SocketAddress,
    other: SocketAddress,
    now: u32,
    entry: Entry<H>,
)
    ensures
        match (from, other) {
            (SocketAddress::V4 { ip: a, .. }, SocketAddress::V4 { ip: b, .. }) => a == b,
            (SocketAddress::V6 { ip: a, .. }, SocketAddress::V6 { ip: b, .. }) => a == b,
            _ => false,
        } ==> connections.insert(from.host(), entry).contains_key(other.host())
            && connections.insert(from.host(), entry)[other.host()] == entry,
        !match (from, other) {
            (SocketAddress::V4 { ip: a, .. }, SocketAddress::V4 { ip: b, .. }) => a == b,
            (SocketAddress::V6 { ip: a, .. }, SocketAddress::V6 { ip: b, .. }) => a == b,
            _ => false,
        } ==> {
            &&& connections.insert(from.host(), entry).contains_key(other.host())
                == connections.contains_key(other.host())
            &&& touched(connections, from.host(), now).contains_key(other.host())
                == connections.contains_key(other.host())
            &&& connections.contains_key(other.host()) ==> connections.insert(
                from.host(),
                entry,
            )[other.host()] == connections[other.host()] && touched(
                connections,
                from.host(),
                now,
            )[other.host()] == connections[other.host()]
        },
{
    hosts_are_whole_addresses(from, other);
}

/// Addresses are of one host exactly if each of them has the address of that host.
pub proof fn addresses_of_a_host_have_its_address(
    slots: Seq<Option<SocketAddress>>,
    host: IpAddress,
)
    ensures
        of_host(slots, host) <==> forall|i: int|
            0 <= i < slots.len() ==> match #[trigger] slots[i] {
                Some(SocketAddress::V4 { ip, .. }) => host == IpAddress::V4(ip),
                Some(SocketAddress::V6 { ip, .. }) => host == IpAddress::V6(ip),
                None => true,
            },
{
    if of_host(slots, host) {
        assert forall|i: int| 0 <= i < slots.len() implies match #[trigger] slots[i] {
            Some(SocketAddress::V4 { ip, .. }) => host == IpAddress::V4(ip),
            Some(SocketAddress::V6 { ip, .. }) => host == IpAddress::V6(ip),
            None => true,
        } by {
            if let Some(address) = slots[i] {
                hosts_are_whole_addresses(address, address);
            }
        }
    }
}

} // verus!
