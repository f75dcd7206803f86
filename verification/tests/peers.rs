use xorion::address::{IpAddress, SocketAddress};
use xorion::client::{Arrival, Client, Departure};
use xorion::clock::{check_interval_secs, is_expired, now_ts, reading_ts, timestamp};
use xorion::registry::Registry;
use xorion::rotation::take_turn;
use xorion::server::{Inbound, RecentAddresses, Reply, Server};
use xorion::singular::{forward, send_back, Delivery, Singular};
use xorion::tunnel::Tunnel;

const PAD_SIZE: usize = 30;
const OBFUSCATION_SIZE: usize = 20;

fn v4(ip: u32, port: u16) -> SocketAddress {
    SocketAddress::V4 { ip, port }
}

fn tunnel() -> Tunnel {
    Tunnel::new(0x12345678, OBFUSCATION_SIZE, PAD_SIZE)
}

fn client() -> Client<&'static str> {
    Client::new(tunnel(), 2, vec![v4(1, 10), v4(1, 20)], 100)
}

#[test]
fn the_clock_is_read_in_seconds() {
    let before = std::time::SystemTime::now()
        .duration_since(std::time::UNIX_EPOCH)
        .unwrap()
        .as_secs();
    let ts = now_ts().unwrap();
    let after = std::time::SystemTime::now()
        .duration_since(std::time::UNIX_EPOCH)
        .unwrap()
        .as_secs();
    assert!(before as u32 <= ts && ts <= after as u32);
    assert_eq!(timestamp(7), 7);
    assert_eq!(timestamp(0xffff_ffff), 0xffff_ffff);
    assert_eq!(timestamp(0x1_0000_0005), 5);
    assert_eq!(reading_ts(Some(0x1_0000_0005)), Some(5));
    assert_eq!(reading_ts(None), None);
}

#[test]
fn expiry_is_strict() {
    assert!(!is_expired(162, 102, 60));
    assert!(is_expired(163, 102, 60));
    assert!(!is_expired(5, 5, 0));
    assert_eq!(check_interval_secs(60), 30);
    assert_eq!(check_interval_secs(1), 0);
}

#[test]
fn turns_go_round_and_start_over() {
    let mut turn: usize = 0;
    let paths: Vec<usize> = (0..7).map(|_| take_turn(&mut turn, 3)).collect();
    assert_eq!(paths, vec![0, 1, 2, 0, 1, 2, 0]);
    assert_eq!(turn, 7);
    let mut turn: usize = usize::MAX - 1;
    assert_eq!(take_turn(&mut turn, 2), 0);
    assert_eq!(turn, 0);
}

#[test]
fn registry_keeps_one_entry_for_each_peer() {
    let mut peers: Registry<IpAddress, &str> = Registry::new();
    let (a, b) = (IpAddress::V4(1), IpAddress::V6(1));
    assert!(peers.get(&a).is_none());
    assert!(!peers.touch(&a, 5));
    assert_eq!(peers.insert(a, 10, "first"), 0);
    assert_eq!(peers.insert(b, 11, "six"), 1);
    assert_eq!(peers.insert(a, 12, "second"), 2);
    let entry = peers.get(&a).unwrap();
    assert_eq!((entry.last_active_ts, entry.generation, entry.handle), (12, 2, "second"));
    assert_eq!(peers.get(&b).unwrap().handle, "six");
    assert!(peers.touch(&b, 20));
    assert_eq!(peers.get(&b).unwrap().last_active_ts, 20);
    assert!(!peers.touch_generation(&a, 0, 30));
    assert_eq!(peers.get(&a).unwrap().last_active_ts, 12);
    assert!(peers.touch_generation(&a, 2, 30));
    assert_eq!(peers.get(&a).unwrap().last_active_ts, 30);
    assert!(peers.remove(&a));
    assert!(!peers.remove(&a));
    assert!(peers.get(&a).is_none());
    assert!(peers.get(&b).is_some());
}

#[test]
fn sweeps_forget_the_inactive_alone() {
    let mut peers: Registry<SocketAddress, u32> = Registry::new();
    for i in 0..10u32 {
        peers.insert(v4(i, 1), i, i);
    }
    assert!(!peers.is_active_by(8));
    assert!(peers.is_active_by(9));
    peers.sweep(9, 4);
    for i in 0..10u32 {
        match peers.get(&v4(i, 1)) {
            Some(entry) => {
                assert!(i >= 5);
                assert_eq!((entry.last_active_ts, entry.handle), (i, i));
            }
            None => assert!(i < 5),
        }
    }
    peers.sweep(9, 4);
    assert!(peers.get(&v4(5, 1)).is_some());
    peers.sweep(100, 4);
    assert!(peers.get(&v4(9, 1)).is_none());
}

#[test]
fn a_client_without_sockets_sends_nothing() {
    let mut client = client();
    let mut buf = vec![0u8; 100];
    buf[..13].copy_from_slice(b"Hello, world!");
    assert_eq!(client.on_local_packet(v4(9, 9), &mut buf, 13), None);
    assert_eq!(client.active_client, Some(v4(9, 9)));
    assert_eq!(client.turn, 0);
    client.tunnel.mask(&mut buf, 13);
    assert_eq!(&buf[..13], b"Hello, world!");
}

#[test]
fn a_client_takes_its_paths_in_turn() {
    let mut client = client();
    client.finish_connecting(vec!["ten", "twenty"]);
    let mut buf = vec![0u8; 100];
    for i in 0..4usize {
        let departure = client.on_local_packet(v4(9, i as u16), &mut buf, 40);
        assert_eq!(departure, Some(Departure { path: i % 2, size: 40 }));
        assert_eq!(client.active_client, Some(v4(9, i as u16)));
    }
    assert_eq!(
        client.on_local_packet(v4(9, 9), &mut buf, 3),
        Some(Departure { path: 0, size: PAD_SIZE })
    );
}

#[test]
fn a_client_answers_the_last_local_peer() {
    let mut client = client();
    let server = tunnel();
    let mut buf = vec![0u8; 100];
    assert_eq!(client.on_server_packet(&mut buf, PAD_SIZE - 1, 150), Arrival::Invalid);
    assert_eq!(client.last_server_packet_ts, 100);
    buf[..5].copy_from_slice(b"reply");
    let size = server.seal(&mut buf, 5);
    let mut again = buf.clone();
    assert_eq!(client.on_server_packet(&mut buf, size, 150), Arrival::NoClient { size: 5 });
    assert_eq!(client.last_server_packet_ts, 150);
    client.active_client = Some(v4(7, 7));
    assert_eq!(
        client.on_server_packet(&mut again, size, 160),
        Arrival::Deliver { size: 5, to: v4(7, 7) }
    );
    assert_eq!(&again[..5], b"reply");
    assert_eq!(client.last_server_packet_ts, 160);
}

#[test]
fn a_client_connects_anew_when_the_server_is_silent() {
    let mut client = client();
    assert!(!client.is_server_silent(102));
    assert!(client.is_server_silent(103));
    client.start_connecting(103);
    assert!(!client.is_server_silent(105));
    client.finish_connecting(vec!["a", "b"]);
    assert_eq!(client.upstream_sockets, vec!["a", "b"]);
}

#[test]
fn a_server_replies_on_the_ports_in_use_in_turn() {
    let tunnel = tunnel();
    let mut recent = RecentAddresses::new(4, 3, v4(5, 33));
    recent.record(1, v4(5, 11));
    assert_eq!(recent.slots, vec![None, Some(v4(5, 11)), None, Some(v4(5, 33))]);
    let mut turn: usize = 0;
    let mut buf = vec![0u8; 100];
    for i in 0..4usize {
        let expected = if i % 2 == 0 {
            Reply { path: 1, to: v4(5, 11), size: 50 }
        } else {
            Reply { path: 3, to: v4(5, 33), size: 50 }
        };
        assert_eq!(recent.reply(&tunnel, &mut turn, &mut buf, 50), Some(expected));
    }
    assert_eq!(turn, 4);
    recent.record(1, v4(5, 12));
    assert_eq!(recent.slots[1], Some(v4(5, 12)));
}

#[test]
fn without_a_port_in_use_nothing_is_sent() {
    let recent = RecentAddresses { slots: vec![None, None] };
    let mut turn: usize = 6;
    let mut buf = vec![3u8; 100];
    assert_eq!(recent.reply(&tunnel(), &mut turn, &mut buf, 50), None);
    assert_eq!(turn, 6);
    assert_eq!(buf, vec![3u8; 100]);
}

#[test]
fn a_server_knows_clients_by_host() {
    let mut server: Server<&str> = Server::new(2);
    assert!(!server.on_client_packet(&v4(1, 10), 100));
    assert!(server.connection(&v4(1, 10)).is_none());
    server.connect(&v4(1, 10), 100, "socket");
    assert!(server.on_client_packet(&v4(1, 20), 101));
    assert_eq!(server.connection(&v4(1, 30)), Some(&"socket"));
    assert!(!server.on_client_packet(&v4(2, 10), 101));
    server.clean_up(103);
    assert!(server.connection(&v4(1, 10)).is_some());
    server.clean_up(104);
    assert!(server.connection(&v4(1, 10)).is_none());
    server.connect(&v4(1, 10), 104, "new socket");
    assert_eq!(server.connection(&v4(1, 10)), Some(&"new socket"));
}

#[test]
fn singular_sessions_come_and_go() {
    let mut singular: Singular<&str> = Singular::new(2, 100);
    let peer = v4(1, 10);
    assert!(!singular.on_peer_packet(&peer, 100));
    let first = singular.start_session(peer, 100, "first");
    assert_eq!(singular.session(&peer), Some(&"first"));
    assert!(singular.on_peer_packet(&peer, 101));
    assert!(!singular.on_peer_packet(&v4(1, 11), 101));
    singular.end_session(&peer);
    assert!(singular.session(&peer).is_none());
    let second = singular.start_session(peer, 101, "second");
    assert_ne!(first, second);
    assert!(!singular.on_upstream_packet(&peer, first, 110));
    assert!(singular.on_upstream_packet(&peer, second, 102));
    // Not due yet: sessions are looked through once the timeout has passed.
    singular.collect_garbage(102);
    assert_eq!(singular.last_gc_ts, 100);
    singular.collect_garbage(104);
    assert_eq!(singular.last_gc_ts, 104);
    assert!(singular.session(&peer).is_some());
    singular.collect_garbage(107);
    assert!(singular.session(&peer).is_none());
}

#[test]
fn singular_ends_undo_each_other() {
    let (near, far) = (tunnel(), tunnel());
    let mut buf = vec![0u8; 100];
    buf[..16].copy_from_slice(b"HELLO_FROM_LOCAL");
    let sent = forward(&near, true, &mut buf, 16);
    assert_eq!(sent, PAD_SIZE);
    assert_ne!(&buf[..16], b"HELLO_FROM_LOCAL");
    let arrived = forward(&far, false, &mut buf, sent);
    assert_eq!(&buf[..arrived], b"HELLO_FROM_LOCAL");
    let sent = send_back(&far, false, &mut buf, arrived);
    assert_eq!(sent, PAD_SIZE);
    let arrived = send_back(&near, true, &mut buf, sent);
    assert_eq!(&buf[..arrived], b"HELLO_FROM_LOCAL");
    // The server end of singular mode does not drop short packets.
    let mut buf = vec![0u8; 100];
    assert_eq!(forward(&far, false, &mut buf, 2), 2);
}

#[test]
fn packets_cross_the_proxy_both_ways() {
    let mut client = client();
    client.finish_connecting(vec!["a", "b"]);
    let server_tunnel = tunnel();
    let mut server: Server<&str> = Server::new(2);
    let mut recent: Option<RecentAddresses> = None;
    let mut turn: usize = 0;
    let local = v4(0x7f000001, 5555);

    for i in 0..10u32 {
        let message = format!("HELLO_FROM_LOCAL {}", i);
        let mut buf = vec![0u8; 1024];
        buf[..message.len()].copy_from_slice(message.as_bytes());
        let departure = client.on_local_packet(local, &mut buf, message.len()).unwrap();

        let from = v4(0x0a000001, 40000 + departure.path as u16);
        let mut inbound = vec![0xeeu8; 1024];
        inbound[..departure.size].copy_from_slice(&buf[..departure.size]);
        let size = server_tunnel.accept(&mut inbound, departure.size).unwrap();
        assert_eq!(&inbound[..size], message.as_bytes());
        if server.on_client_packet(&from, 100 + i) {
            recent.as_mut().unwrap().record(departure.path, from);
        } else {
            server.connect(&from, 100 + i, "upstream");
            recent = Some(RecentAddresses::new(2, departure.path, from));
        }

        let answer = format!("HELLO_FROM_UPSTREAM {}", i);
        let mut outbound = vec![0u8; 1024];
        outbound[..answer.len()].copy_from_slice(answer.as_bytes());
        let reply = recent
            .as_ref()
            .unwrap()
            .reply(&server_tunnel, &mut turn, &mut outbound, answer.len())
            .unwrap();
        assert_eq!(reply.to, v4(0x0a000001, 40000 + reply.path as u16));
        match client.on_server_packet(&mut outbound, reply.size, 100 + i) {
            Arrival::Deliver { size, to } => {
                assert_eq!(to, local);
                assert_eq!(&outbound[..size], answer.as_bytes());
            }
            other => panic!("{:?}", other),
        }
    }
    server.clean_up(111);
    assert!(server.connection(&v4(0x0a000001, 40000)).is_some());
    server.clean_up(112);
    assert!(server.connection(&v4(0x0a000001, 40000)).is_none());
    assert!(!server.on_client_packet(&v4(0x0a000001, 40000), 112));
}

/// Sends a message through both ends and checks what the upstream gets. Returns what
/// the server makes of it.
fn cross(
    client: &mut Client<&'static str>,
    server: &mut Server<&'static str>,
    recent: &mut RecentAddresses,
    local: SocketAddress,
    message: &[u8],
    now: u32,
) -> Inbound {
    let mut buf = vec![0u8; 1024];
    buf[..message.len()].copy_from_slice(message);
    let departure = client.on_local_packet(local, &mut buf, message.len()).unwrap();
    let from = v4(0x0a000001, 40000 + departure.path as u16);
    let mut inbound = vec![0xeeu8; 1024];
    inbound[..departure.size].copy_from_slice(&buf[..departure.size]);
    let outcome = server.on_inbound_packet(
        recent,
        &tunnel(),
        departure.path,
        &from,
        &mut inbound,
        departure.size,
        now,
    );
    match outcome {
        Inbound::Dropped => panic!("dropped"),
        Inbound::Connect { size } | Inbound::Forward { size } => {
            assert_eq!(&inbound[..size], message)
        }
    }
    outcome
}

/// Sends an answer back through both ends and checks that it reaches `local`.
fn cross_back(
    client: &mut Client<&'static str>,
    recent: &RecentAddresses,
    turn: &mut usize,
    local: SocketAddress,
    answer: &[u8],
    now: u32,
) {
    let mut buf = vec![0u8; 1024];
    buf[..answer.len()].copy_from_slice(answer);
    let reply = recent.reply(&tunnel(), turn, &mut buf, answer.len()).unwrap();
    assert_eq!(reply.to, v4(0x0a000001, 40000 + reply.path as u16));
    match client.on_server_packet(&mut buf, reply.size, now) {
        Arrival::Deliver { size, to } => {
            assert_eq!(to, local);
            assert_eq!(&buf[..size], answer);
        }
        other => panic!("{:?}", other),
    }
}

#[test]
fn packets_cross_again_after_the_timeout() {
    let mut client = client();
    client.finish_connecting(vec!["a", "b"]);
    let mut server: Server<&str> = Server::new(2);
    let local = v4(0x7f000001, 5555);
    let host = v4(0x0a000001, 40000);

    let mut recent = RecentAddresses::unheard(2);
    let mut turn: usize = 0;
    let outcome = cross(&mut client, &mut server, &mut recent, local, b"FIRST MESSAGE", 100);
    assert_eq!(outcome, Inbound::Connect { size: 13 });
    server.connect(&host, 100, "old upstream");
    cross_back(&mut client, &recent, &mut turn, local, b"FIRST ANSWER", 100);
    let outcome = cross(&mut client, &mut server, &mut recent, local, b"SECOND", 101);
    assert_eq!(outcome, Inbound::Forward { size: 6 });

    // Both ends have been silent for too long: the server forgets the host, and the
    // client connects anew.
    server.clean_up(104);
    assert!(server.connection(&host).is_none());
    assert!(client.is_server_silent(104));
    client.start_connecting(104);
    client.finish_connecting(vec!["c", "d"]);

    let mut recent = RecentAddresses::unheard(2);
    let mut turn: usize = 0;
    let outcome = cross(&mut client, &mut server, &mut recent, local, b"THIRD MESSAGE", 105);
    assert_eq!(outcome, Inbound::Connect { size: 13 });
    server.connect(&host, 105, "new upstream");
    assert_eq!(server.connection(&host), Some(&"new upstream"));
    cross_back(&mut client, &recent, &mut turn, local, b"THIRD ANSWER", 105);
    let outcome = cross(&mut client, &mut server, &mut recent, local, b"FOURTH", 106);
    assert_eq!(outcome, Inbound::Forward { size: 6 });
    cross_back(&mut client, &recent, &mut turn, local, b"FOURTH ANSWER", 106);
}

#[test]
fn a_dropped_packet_changes_nothing_on_the_server() {
    let mut server: Server<&str> = Server::new(2);
    server.connect(&v4(5, 10), 100, "socket");
    let mut recent = RecentAddresses::new(2, 0, v4(5, 10));
    let mut buf = vec![7u8; 100];
    let outcome = server.on_inbound_packet(
        &mut recent,
        &tunnel(),
        1,
        &v4(5, 20),
        &mut buf,
        PAD_SIZE - 1,
        110,
    );
    assert_eq!(outcome, Inbound::Dropped);
    assert_eq!(recent.slots, vec![Some(v4(5, 10)), None]);
    assert_eq!(buf, vec![7u8; 100]);
    // It did not count as activity.
    server.clean_up(103);
    assert!(server.connection(&v4(5, 10)).is_none());
}

#[test]
fn hosts_get_their_own_answers() {
    let mut recents = vec![
        RecentAddresses::new(3, 0, v4(5, 50)),
        RecentAddresses::new(3, 1, v4(6, 60)),
    ];
    recents[0].record(2, v4(5, 51));
    recents[1].record(0, v4(6, 61));
    for (i, recent) in recents.iter().enumerate() {
        let mut turn: usize = 0;
        for _ in 0..4 {
            let mut buf = vec![0u8; 100];
            let reply = recent.reply(&tunnel(), &mut turn, &mut buf, 40).unwrap();
            assert_eq!(reply.to.ip(), IpAddress::V4(5 + i as u32));
        }
    }
    assert_eq!(RecentAddresses::unheard(3).slots, vec![None, None, None]);
}

#[test]
fn peers_have_sockets_of_their_own() {
    let mut singular: Singular<&str> = Singular::new(60, 100);
    let (a, b) = (v4(1, 10), v4(1, 11));
    assert!(!singular.on_peer_packet(&a, 100));
    let a_generation = singular.start_session(a, 100, "socket a");
    assert!(!singular.on_peer_packet(&b, 101));
    singular.start_session(b, 101, "socket b");
    for now in 102..160 {
        singular.collect_garbage(now);
        assert!(singular.on_peer_packet(&a, now));
        assert_eq!(singular.session(&a), Some(&"socket a"));
        assert_eq!(singular.session(&b), Some(&"socket b"));
    }
    // What comes back for a peer goes to that peer, and leaves the others alone.
    let mut buf = vec![9u8; 100];
    let delivery = singular.answer(&tunnel(), false, &a, a_generation, &mut buf, 12, 161);
    assert_eq!(delivery, Delivery { to: a, size: PAD_SIZE });
    singular.collect_garbage(162);
    assert_eq!(singular.session(&a), Some(&"socket a"));
    assert!(singular.session(&b).is_none());
    singular.end_session(&b);
    assert_eq!(singular.session(&a), Some(&"socket a"));
    // Even once the session is over.
    singular.end_session(&a);
    let delivery = singular.answer(&tunnel(), false, &a, a_generation, &mut buf, 50, 163);
    assert_eq!(delivery, Delivery { to: a, size: 50 });
    assert!(singular.session(&a).is_none());
}
