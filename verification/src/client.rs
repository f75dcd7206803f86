//! The client end: one local peer, many paths to the server.
use vstd::prelude::*;

use crate::address::SocketAddress;
use crate::clock::{expired, is_expired};
use crate::rotation::{following, path_of, take_turn};
use crate::tunnel::Tunnel;

verus! {

/// What the client knows. `S` is what it sends to the server with.
pub struct Client<S> {
    pub tunnel: Tunnel,
    pub inactivity_timeout_sec: u32,
    pub upstream_addresses: Vec<SocketAddress>,
    /// The local peer that packets from the server go to.
    pub active_client: Option<SocketAddress>,
    /// When the server was last heard of.
    pub last_server_packet_ts: u32,
    /// One socket for each upstream address, in the same order, once connected.
    pub upstream_sockets: Vec<S>,
    /// Counts the packets sent, to take the paths in turn.
    pub turn: usize,
}

/// A packet to send to the server.
#[derive(Clone, Copy, Debug, PartialEq, Eq, Structural)]
pub struct Departure {
    /// The upstream socket to send with.
    pub path: usize,
    /// How many bytes of the buffer to send.
    pub size: usize,
}

/// What becomes of a packet from the server.
#[derive(Clone, Copy, Debug, PartialEq, Eq, Structural)]
pub enum Arrival {
    /// It is too short to have been sealed, and is dropped.
    Invalid,
    /// There is no local peer to give its first `size` bytes to.
    NoClient { size: usize },
    /// Its first `size` bytes go to the local peer.
    Deliver { size: usize, to: SocketAddress },
}

impl<S> Client<S> {
    /// The client has no upstream sockets, or one for each upstream address.
    pub open spec fn wf(&self) -> bool {
        &&& self.turn < usize::MAX
        &&& self.upstream_sockets@.len() == 0 || self.upstream_sockets@.len()
            == self.upstream_addresses@.len()
    }

    /// A client that is not connected yet.
    pub fn new(
        tunnel: Tunnel,
        inactivity_timeout_sec: u32,
        upstream_addresses: Vec<SocketAddress>,
        now: u32,
    ) -> (client: Self)
        ensures
            client.wf(),
            client.tunnel == tunnel,
            client.inactivity_timeout_sec == inactivity_timeout_sec,
            client.upstream_addresses == upstream_addresses,
            client.active_client is None,
            client.last_server_packet_ts == now,
            client.upstream_sockets@.len() == 0,
            client.turn == 0,
    {
        Client {
            tunnel,
            inactivity_timeout_sec,
            upstream_addresses,
            active_client: None,
            last_server_packet_ts: now,
            upstream_sockets: Vec::new(),
            turn: 0,
        }
    }

    /// Takes a packet of `size` bytes in `buf` from a local peer, which becomes the one
    /// to answer to. The packet is sealed and sent over the path whose turn it is;
    /// without upstream sockets it is not sent, and no turn is taken.
    pub fn on_local_packet(
        &mut self,
        from: SocketAddress,
        buf: &mut [u8],
        size: usize,
    ) -> (departure: Option<Departure>)
        requires
            old(self).wf(),
            size <= old(buf)@.len(),
            old(self).upstream_sockets@.len() > 0 && size < old(self).tunnel.pad_size
                ==> old(self).tunnel.pad_size <= old(buf)@.len(),
        ensures
            final(self).wf(),
            departure is None <==> old(self).upstream_sockets@.len() == 0,
            departure is None ==> {
                &&& *final(self) == (Client { active_client: Some(from), ..*old(self) })
                &&& final(buf)@ == old(self).tunnel.masked(old(buf)@, size as nat)
            },
            departure matches Some(d) ==> {
                &&& *final(self) == (Client {
                    active_client: Some(from),
                    turn: following(old(self).turn as nat) as usize,
                    ..*old(self)
                })
                &&& d.path == path_of(old(self).turn as nat, old(self).upstream_sockets@.len())
                &&& d.path < old(self).upstream_sockets@.len()
                &&& d.size == old(self).tunnel.sealed_size(size as nat)
                &&& d.size <= old(buf)@.len()
                &&& final(buf)@ == old(self).tunnel.sealed(old(buf)@, size as nat)
            },
    {
        self.active_client = Some(from);
        let paths: usize = self.upstream_sockets.len();
        if paths == 0 {
            self.tunnel.mask(buf, size);
            return None;
        }
        let path: usize = take_turn(&mut self.turn, paths);
        let sealed: usize = self.tunnel.seal(buf, size);
        Some(Departure { path, size: sealed })
    }

    /// Takes a packet of `size` bytes in `buf` from the server.
    pub fn on_server_packet(&mut self, buf: &mut [u8], size: usize, now: u32) -> (arrival: Arrival)
        requires
            old(self).wf(),
            size <= old(buf)@.len(),
            0 < old(self).tunnel.pad_size,
        ensures
            final(self).wf(),
            size < old(self).tunnel.pad_size ==> {
                &&& arrival == Arrival::Invalid
                &&& *final(self) == *old(self)
                &&& final(buf)@ == old(buf)@
            },
            size >= old(self).tunnel.pad_size ==> {
                &&& *final(self) == (Client { last_server_packet_ts: now, ..*old(self) })
                &&& final(buf)@ == old(self).tunnel.opened(old(buf)@, size as nat)
                &&& match old(self).active_client {
                    Some(to) => arrival == (Arrival::Deliver {
                        size: old(self).tunnel.opened_size(old(buf)@, size as nat) as usize,
                        to,
                    }),
                    None => arrival == (Arrival::NoClient {
                        size: old(self).tunnel.opened_size(old(buf)@, size as nat) as usize,
                    }),
                }
                &&& old(self).tunnel.opened_size(old(buf)@, size as nat) <= size
            },
    {
        let inner: usize = match self.tunnel.accept(buf, size) {
            Some(inner) => inner,
            None => {
                return Arrival::Invalid;
            },
        };
        self.last_server_packet_ts = now;
        match self.active_client {
            Some(to) => Arrival::Deliver { size: inner, to },
            None => Arrival::NoClient { size: inner },
        }
    }

    /// Whether the server has been silent for too long, so that the client connects anew.
    pub fn is_server_silent(&self, now: u32) -> (yes: bool)
        requires
            self.last_server_packet_ts <= now,
        ensures
            yes == expired(now, self.last_server_packet_ts, self.inactivity_timeout_sec),
            yes <==> now - self.last_server_packet_ts > self.inactivity_timeout_sec,
    {
        is_expired(now, self.last_server_packet_ts, self.inactivity_timeout_sec)
    }

    /// Starts to connect anew: the server counts as heard of just now.
    pub fn start_connecting(&mut self, now: u32)
        requires
            old(self).wf(),
        ensures
            final(self).wf(),
            *final(self) == (Client { last_server_packet_ts: now, ..*old(self) }),
    {
        self.last_server_packet_ts = now;
    }

    /// Sends over new sockets from here on, one for each upstream address.
    pub fn finish_connecting(&mut self, upstream_sockets: Vec<S>)
        requires
            old(self).wf(),
            upstream_sockets@.len() == old(self).upstream_addresses@.len(),
        ensures
            final(self).wf(),
            *final(self) == (Client { upstream_sockets, ..*old(self) }),
    {
        self.upstream_sockets = upstream_sockets;
    }
}

} // verus!
