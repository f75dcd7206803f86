//! Addresses: what a peer is known by, and how the command line names endpoints.
use rand::seq::IteratorRandom;
use vstd::prelude::*;
use vstd::string::StringExecFns;

use crate::text::{
    join_undoes_split, joined, number, parse_number, parts, split, split_undoes_join, texts, trim,
    trim_keeps_dense_text, trimmed, written, written_numbers_are_read_back,
};

verus! {

/// The address of a host.
#[derive(Clone, Copy, Debug, PartialEq, Eq, Structural)]
pub enum IpAddress {
    V4(u32),
    V6(u128),
}

/// The address of a socket.
#[allow(inconsistent_fields)]
#[derive(Clone, Copy, Debug, PartialEq, Eq, Structural)]
pub enum SocketAddress {
    V4 { ip: u32, port: u16 },
    V6 { ip: u128, port: u16, flowinfo: u32, scope_id: u32 },
}

impl SocketAddress {
    /// The host a socket belongs to.
    pub open spec fn host(self) -> IpAddress {
        match self {
            SocketAddress::V4 { ip, .. } => IpAddress::V4(ip),
            SocketAddress::V6 { ip, .. } => IpAddress::V6(ip),
        }
    }

    /// The same address at another port.
    pub open spec fn at_port(self, port: u16) -> SocketAddress {
        match self {
            SocketAddress::V4 { ip, .. } => SocketAddress::V4 { ip, port },
            SocketAddress::V6 { ip, flowinfo, scope_id, .. } => SocketAddress::V6 {
                ip,
                port,
                flowinfo,
                scope_id,
            },
        }
    }

    /// The host a socket belongs to.
    pub fn ip(&self) -> (ip: IpAddress)
        ensures
            match *self {
                SocketAddress::V4 { ip: v4, .. } => ip == IpAddress::V4(v4),
                SocketAddress::V6 { ip: v6, .. } => ip == IpAddress::V6(v6),
            },
            ip == self.host(),
    {
        match *self {
            SocketAddress::V4 { ip, .. } => IpAddress::V4(ip),
            SocketAddress::V6 { ip, .. } => IpAddress::V6(ip),
        }
    }

    /// The same address at another port.
    pub fn with_port(&self, port: u16) -> (address: SocketAddress)
        ensures
            address == self.at_port(port),
            match *self {
                SocketAddress::V4 { ip, .. } => address == (SocketAddress::V4 { ip, port }),
                SocketAddress::V6 { ip, flowinfo, scope_id, .. } => address == (
                SocketAddress::V6 { ip, port, flowinfo, scope_id }),
            },
    {
        match *self {
            SocketAddress::V4 { ip, .. } => SocketAddress::V4 { ip, port },
            SocketAddress::V6 { ip, flowinfo, scope_id, .. } => SocketAddress::V6 {
                ip,
                port,
                flowinfo,
                scope_id,
            },
        }
    }
}

/// The ports that texts name, in order; a text that names no port is passed over.
pub open spec fn ports_in(named: Seq<Seq<char>>) -> Seq<u16>
    decreases named.len(),
{
    if named.len() == 0 {
        Seq::empty()
    } else {
        let before = ports_in(named.drop_last());
        match number(named.last(), 10, u16::MAX as nat) {
            Some(port) => before.push(port as u16),
            None => before,
        }
    }
}

/// The ports that a comma-separated list names. White space around a port is ignored.
pub open spec fn bind_ports(bind: Seq<char>) -> Seq<u16> {
    ports_in(parts(bind, ',').map_values(|part: Seq<char>| trimmed(part)))
}

/// Whether a text has the form `host:port,port,..`, with one colon in all.
pub open spec fn names_upstream(input: Seq<char>) -> bool {
    parts(input, ':').len() == 2
}

/// The host that such a text names.
pub open spec fn upstream_host(input: Seq<char>) -> Seq<char> {
    parts(input, ':')[0]
}

/// The texts that stand for ports in such a text.
pub open spec fn upstream_ports(input: Seq<char>) -> Seq<Seq<char>> {
    parts(parts(input, ':')[1], ',')
}

/// One address at each of a number of ports.
pub open spec fn spread(address: SocketAddress, ports: Seq<u16>) -> Seq<SocketAddress> {
    ports.map_values(|port: u16| address.at_port(port))
}

/// Reads one port.
pub fn parse_port(s: &str) -> (port: Option<u16>)
    ensures
        port matches Some(p) ==> number(s@, 10, u16::MAX as nat) == Some(p as nat),
        port is None ==> number(s@, 10, u16::MAX as nat) is None,
{
    match parse_number(s, 10, 0xffff) {
        Some(value) => Some(value as u16),
        None => None,
    }
}

/// Reads the list of ports to listen on.
pub fn parse_ports(bind: &str) -> (ports: Vec<u16>)
    ensures
        ports@ == bind_ports(bind@),
{
    let slices = split(bind, ',');
    let ghost named = parts(bind@, ',').map_values(|part: Seq<char>| trimmed(part));
    let mut ports: Vec<u16> = Vec::new();
    assert(named.take(0) =~= Seq::empty());
    for i in 0..slices.len()
        invariant
            texts(slices@) == parts(bind@, ','),
            named == parts(bind@, ',').map_values(|part: Seq<char>| trimmed(part)),
            ports@ == ports_in(named.take(i as int)),
    {
        assert(texts(slices@)[i as int] == slices@[i as int]@);
        assert(named.take(i + 1).drop_last() =~= named.take(i as int));
        if let Some(port) = parse_port(trim(slices[i])) {
            ports.push(port);
        }
    }
    assert(texts(slices@).len() == slices@.len());
    assert(named.take(named.len() as int) =~= named);
    ports
}

/// What has to be looked up to reach the upstream that a text names: its host, at the
/// first of its ports. Nothing where the text does not name one.
pub fn lookup_target(input: &str) -> (target: Option<String>)
    ensures
        target is Some <==> names_upstream(input@),
        target matches Some(t) ==> t@ == upstream_host(input@) + seq![':'] + upstream_ports(
            input@,
        )[0],
{
    let halves = split(input, ':');
    assert(texts(halves@).len() == halves@.len());
    if halves.len() != 2 {
        return None;
    }
    assert(texts(halves@)[0] == halves@[0]@);
    assert(texts(halves@)[1] == halves@[1]@);
    let ports = split(halves[1], ',');
    assert(texts(ports@).len() == ports@.len());
    proof {
        join_undoes_split(halves@[1]@, ',');
        reveal_strlit(":");
        assert(":"@ =~= seq![':']);
    }
    assert(texts(ports@)[0] == ports@[0]@);
    let mut target = String::new();
    target.append(halves[0]);
    target.append(":");
    target.append(ports[0]);
    assert(target@ =~= upstream_host(input@) + seq![':'] + upstream_ports(input@)[0]);
    Some(target)
}

/// Calls `rand::seq::IteratorRandom::choose` over the addresses, with
/// `rand::thread_rng`. Claimed: there is a choice unless there are no addresses, and it
/// is one of them. Which one is left to chance. Not claimed: that the machine has the
/// entropy to seed the generator, without which `thread_rng` panics.
#[verifier::external_body]
fn choose_address(addresses: &Vec<SocketAddress>) -> (chosen: Option<SocketAddress>)
    ensures
        chosen is None <==> addresses@.len() == 0,
        chosen matches Some(address) ==> addresses@.contains(address),
{
    addresses.iter().choose(&mut rand::thread_rng()).copied()
}

/// The endpoints that a text names once its host is known to be at `address`.
pub fn addresses_at(input: &str, address: SocketAddress) -> (addresses: Vec<SocketAddress>)
    ensures
        addresses@ == (if names_upstream(input@) {
            spread(address, ports_in(upstream_ports(input@)))
        } else {
            Seq::empty()
        }),
        names_upstream(input@) ==> addresses@.len() == ports_in(upstream_ports(input@)).len(),
        forall|i: int|
            0 <= i < addresses@.len() ==> match address {
                SocketAddress::V4 { ip, .. } => (#[trigger] addresses@[i]) == (SocketAddress::V4 {
                    ip,
                    port: ports_in(upstream_ports(input@))[i],
                }),
                SocketAddress::V6 { ip, flowinfo, scope_id, .. } => addresses@[i] == (
                SocketAddress::V6 {
                    ip,
                    port: ports_in(upstream_ports(input@))[i],
                    flowinfo,
                    scope_id,
                }),
            },
{
    let mut addresses: Vec<SocketAddress> = Vec::new();
    let halves = split(input, ':');
    assert(texts(halves@).len() == halves@.len());
    if halves.len() != 2 {
        return addresses;
    }
    assert(texts(halves@)[1] == halves@[1]@);
    let slices = split(halves[1], ',');
    let ghost named = upstream_ports(input@);
    assert(named.take(0) =~= Seq::empty());
    assert(spread(address, Seq::empty()) =~= Seq::empty());
    for i in 0..slices.len()
        invariant
            texts(slices@) == named,
            addresses@ == spread(address, ports_in(named.take(i as int))),
    {
        let ghost before = ports_in(named.take(i as int));
        assert(texts(slices@)[i as int] == slices@[i as int]@);
        assert(named.take(i + 1).drop_last() =~= named.take(i as int));
        if let Some(port) = parse_port(slices[i]) {
            addresses.push(address.with_port(port));
            assert(spread(address, before.push(port)) =~= spread(address, before).push(
                address.at_port(port),
            ));
        }
    }
    assert(texts(slices@).len() == slices@.len());
    assert(named.take(named.len() as int) =~= named);
    addresses
}

/// Whether an address may be picked out of some: whether `choose_address` may return it.
pub closed spec fn may_be_chosen(addresses: Vec<SocketAddress>, address: SocketAddress) -> bool {
    call_ensures(choose_address, (&addresses,), Some(address))
}

/// An address may be picked exactly if picking one may return it.
proof fn what_is_returned_may_be_chosen(addresses: Vec<SocketAddress>, address: SocketAddress)
    ensures
        may_be_chosen(addresses, address) <==> call_ensures(
            choose_address,
            (&addresses,),
            Some(address),
        ),
{
}

/// Nothing is picked but what there is to pick from.
pub proof fn only_addresses_at_hand_are_chosen(
    addresses: Vec<SocketAddress>,
    address: SocketAddress,
)
    requires
        may_be_chosen(addresses, address),
    ensures
        addresses@.contains(address),
{
}

/// The endpoints that a text names, given what looking its host up has yielded
/// (`None` where that failed). One of the host's addresses is picked at random, and
/// serves at all the ports.
pub fn parse_addresses(input: &str, resolved: Option<Vec<SocketAddress>>) -> (addresses: Vec<
    SocketAddress,
>)
    ensures
        !names_upstream(input@) || resolved is None || resolved->0@.len() == 0
            ==> addresses@.len() == 0,
        names_upstream(input@) && resolved is Some && resolved->0@.len() > 0 ==> exists|
            address: SocketAddress,
        |
            resolved->0@.contains(address) && may_be_chosen(resolved->0, address) && addresses@
                == #[trigger] spread(address, ports_in(upstream_ports(input@))),
{
    match resolved {
        Some(found) => match choose_address(&found) {
            Some(address) => {
                proof {
                    what_is_returned_may_be_chosen(found, address);
                }
                addresses_at(input, address)
            },
            None => Vec::new(),
        },
        None => Vec::new(),
    }
}

/// The endpoint that a peer is connected to: the first of those at hand.
pub fn first_address(addresses: &Vec<SocketAddress>) -> (first: Option<SocketAddress>)
    ensures
        first is None <==> addresses@.len() == 0,
        first matches Some(address) ==> address == addresses@[0],
{
    if addresses.len() == 0 {
        None
    } else {
        Some(addresses[0])
    }
}

/// The port that is listened on where there is room for one: the first of those at hand.
pub fn first_port(ports: &Vec<u16>) -> (first: Option<u16>)
    ensures
        first is None <==> ports@.len() == 0,
        first matches Some(port) ==> port == ports@[0],
{
    if ports.len() == 0 {
        None
    } else {
        Some(ports[0])
    }
}

/// Two sockets belong to the same host exactly when they have the same address, all of
/// it, whatever else they differ in. No host has both an IPv4 and an IPv6 address.
pub proof fn hosts_are_whole_addresses(a: SocketAddress, b: SocketAddress)
    ensures
        a.host() == b.host() <==> match (a, b) {
            (SocketAddress::V4 { ip, .. }, SocketAddress::V4 { ip: other, .. }) => ip == other,
            (SocketAddress::V6 { ip, .. }, SocketAddress::V6 { ip: other, .. }) => ip == other,
            _ => false,
        },
        match a {
            SocketAddress::V4 { ip, .. } => a.host() == IpAddress::V4(ip),
            SocketAddress::V6 { ip, .. } => a.host() == IpAddress::V6(ip),
        },
{
}

/// An address at another port differs from the address in its port alone.
pub proof fn only_the_port_is_replaced(address: SocketAddress, port: u16)
    ensures
        match address {
            SocketAddress::V4 { ip, .. } => address.at_port(port) == (SocketAddress::V4 {
                ip,
                port,
            }),
            SocketAddress::V6 { ip, flowinfo, scope_id, .. } => address.at_port(port) == (
            SocketAddress::V6 { ip, port, flowinfo, scope_id }),
        },
        address.at_port(port).host() == address.host(),
{
}

/// One address at a number of ports is as many addresses, in the order of the ports, each
/// at its own port and otherwise that address.
pub proof fn every_port_gets_its_endpoint(address: SocketAddress, ports: Seq<u16>, i: int)
    requires
        0 <= i < ports.len(),
    ensures
        spread(address, ports).len() == ports.len(),
        match address {
            SocketAddress::V4 { ip, .. } => spread(address, ports)[i] == (SocketAddress::V4 {
                ip,
                port: ports[i],
            }),
            SocketAddress::V6 { ip, flowinfo, scope_id, .. } => spread(address, ports)[i] == (
            SocketAddress::V6 { ip, port: ports[i], flowinfo, scope_id }),
        },
{
}

/// Ports are read one by one, in order: a text that is a decimal number of up to 65535
/// names that port, and any other names none.
pub proof fn ports_are_read_one_by_one(named: Seq<Seq<char>>, more: Seq<Seq<char>>, text: Seq<char>)
    ensures
        ports_in(Seq::empty()) == Seq::<u16>::empty(),
        number(text, 10, 65535) matches Some(port) ==> ports_in(seq![text]) == seq![port as u16],
        number(text, 10, 65535) is None ==> ports_in(seq![text]) == Seq::<u16>::empty(),
        ports_in(named + more) == ports_in(named) + ports_in(more),
    decreases more.len(),
{
    assert(seq![text].drop_last() =~= Seq::<Seq<char>>::empty());
    assert(ports_in(seq![text].drop_last()) =~= Seq::<u16>::empty());
    if more.len() == 0 {
        assert(named + more =~= named);
        assert(ports_in(named) + ports_in(more) =~= ports_in(named));
    } else {
        ports_are_read_one_by_one(named, more.drop_last(), text);
        assert((named + more).drop_last() =~= named + more.drop_last());
        assert(ports_in(named + more) =~= ports_in(named) + ports_in(more));
    }
}

/// A list of ports is cut at its commas, white space around each port is taken off, and
/// the ports are read in that order.
pub proof fn port_lists_are_cut_at_commas(pieces: Seq<Seq<char>>)
    requires
        pieces.len() > 0,
        forall|i: int| 0 <= i < pieces.len() ==> !(#[trigger] pieces[i]).contains(','),
    ensures
        bind_ports(joined(pieces, ',')) == ports_in(
            Seq::new(pieces.len(), |i: int| trimmed(pieces[i])),
        ),
{
    split_undoes_join(pieces, ',');
    assert(pieces.map_values(|part: Seq<char>| trimmed(part)) =~= Seq::new(
        pieces.len(),
        |i: int| trimmed(pieces[i]),
    ));
}

/// Ports written in decimal.
pub open spec fn written_ports(ports: Seq<u16>) -> Seq<Seq<char>> {
    ports.map_values(|port: u16| written(port as nat, 10))
}

/// Ports written in decimal are read as themselves, with or without trimming, and hold
/// none of the separators.
proof fn written_ports_are_read_back(ports: Seq<u16>)
    ensures
        ports_in(written_ports(ports)) == ports,
        written_ports(ports).map_values(|part: Seq<char>| trimmed(part)) == written_ports(ports),
        forall|i: int|
            0 <= i < ports.len() ==> !(#[trigger] written_ports(ports)[i]).contains(',')
                && !written_ports(ports)[i].contains(':'),
    decreases ports.len(),
{
    let named = written_ports(ports);
    assert forall|i: int| 0 <= i < ports.len() implies !(#[trigger] named[i]).contains(',')
        && !named[i].contains(':') && trimmed(named[i]) == named[i] by {
        written_numbers_are_read_back(ports[i] as nat, 10, u16::MAX as nat);
        if named[i].len() > 0 {
            assert(named[i].contains(named[i][0]));
            assert(named[i].contains(named[i].last()));
        }
        trim_keeps_dense_text(named[i]);
    }
    assert(named.map_values(|part: Seq<char>| trimmed(part)) =~= named);
    if ports.len() == 0 {
        assert(ports_in(named) =~= ports);
    } else {
        written_ports_are_read_back(ports.drop_last());
        assert(named.drop_last() =~= written_ports(ports.drop_last()));
        written_numbers_are_read_back(ports.last() as nat, 10, u16::MAX as nat);
        assert(ports.drop_last().push(ports.last()) =~= ports);
    }
}

/// A character that occurs in joined texts is the separator or occurs in one of them.
proof fn joined_holds_no_more(pieces: Seq<Seq<char>>, separator: char, c: char)
    requires
        c != separator,
        forall|i: int| 0 <= i < pieces.len() ==> !(#[trigger] pieces[i]).contains(c),
    ensures
        !joined(pieces, separator).contains(c),
    decreases pieces.len(),
{
    if pieces.len() > 1 {
        let before = pieces.drop_last();
        assert forall|i: int| 0 <= i < before.len() implies !(#[trigger] before[i]).contains(c) by {
            assert(before[i] == pieces[i]);
        }
        joined_holds_no_more(before, separator, c);
        let all = joined(pieces, separator);
        let head = joined(before, separator);
        assert(pieces[pieces.len() - 1] == pieces.last());
        if all.contains(c) {
            let i = all.index_of(c);
            if i < head.len() {
                assert(head[i] == c);
            } else if i > head.len() {
                assert(pieces.last()[i - head.len() - 1] == c);
            }
        }
    }
}

/// A list of ports, written with commas between them, is read as those ports.
pub proof fn port_lists_are_read_back(ports: Seq<u16>)
    requires
        ports.len() > 0,
    ensures
        bind_ports(joined(written_ports(ports), ',')) == ports,
{
    written_ports_are_read_back(ports);
    split_undoes_join(written_ports(ports), ',');
}

/// A host without colons and a list of ports, written as `host:port,port,..`, name an
/// upstream: that host, and those ports in that order.
pub proof fn upstreams_are_read_back(host: Seq<char>, ports: Seq<u16>)
    requires
        !host.contains(':'),
        ports.len() > 0,
    ensures
        names_upstream(host.push(':') + joined(written_ports(ports), ',')),
        upstream_host(host.push(':') + joined(written_ports(ports), ',')) == host,
        ports_in(upstream_ports(host.push(':') + joined(written_ports(ports), ','))) == ports,
{
    let list = joined(written_ports(ports), ',');
    written_ports_are_read_back(ports);
    joined_holds_no_more(written_ports(ports), ',', ':');
    halves_are_found(host, list);
    split_undoes_join(written_ports(ports), ',');
}

/// A text names an upstream exactly when there is one colon in it.
pub proof fn upstreams_have_one_colon(input: Seq<char>)
    ensures
        names_upstream(input) <==> exists|at: int|
            0 <= at < input.len() && (#[trigger] input[at]) == ':' && forall|other: int|
                0 <= other < input.len() && (#[trigger] input[other]) == ':' ==> other == at,
{
    let halves = parts(input, ':');
    join_undoes_split(input, ':');
    if names_upstream(input) {
        let at = halves[0].len() as int;
        assert(halves.drop_last() =~= seq![halves[0]]);
        assert(joined(halves.drop_last(), ':') == halves[0]);
        assert(halves.last() == halves[1]);
        assert(input == halves[0].push(':') + halves[1]);
        assert(input[at] == ':');
        assert forall|other: int|
            0 <= other < input.len() && (#[trigger] input[other]) == ':' implies other == at by {
            if other < at {
                assert(halves[0][other] == ':');
                assert(halves[0].contains(':'));
            } else if other > at {
                assert(halves[1][other - at - 1] == ':');
                assert(halves[1].contains(':'));
            }
        }
    }
    if exists|at: int|
        0 <= at < input.len() && (#[trigger] input[at]) == ':' && forall|other: int|
            0 <= other < input.len() && (#[trigger] input[other]) == ':' ==> other == at {
        let at = choose|at: int|
            0 <= at < input.len() && (#[trigger] input[at]) == ':' && forall|other: int|
                0 <= other < input.len() && (#[trigger] input[other]) == ':' ==> other == at;
        let (host, list) = (input.take(at), input.skip(at + 1));
        if host.contains(':') {
            let i = host.index_of(':');
            assert(input[i] == ':');
        }
        if list.contains(':') {
            let i = list.index_of(':');
            assert(input[at + 1 + i] == ':');
        }
        halves_are_found(host, list);
        assert(host.push(':') + list =~= input);
    }
}

proof fn halves_are_found(host: Seq<char>, list: Seq<char>)
    requires
        !host.contains(':'),
        !list.contains(':'),
    ensures
        parts(host.push(':') + list, ':') == seq![host, list],
{
    let halves = seq![host, list];
    assert(halves.drop_last() =~= seq![host]);
    assert(joined(seq![host], ':') == host);
    assert(joined(halves, ':') == host.push(':') + list);
    split_undoes_join(halves, ':');
}

/// An upstream is cut at its colon into the host and the list of its ports, and the list
/// is cut at its commas.
pub proof fn upstreams_are_cut_at_colon_and_commas(host: Seq<char>, pieces: Seq<Seq<char>>)
    requires
        !host.contains(':'),
        pieces.len() > 0,
        forall|i: int|
            0 <= i < pieces.len() ==> !(#[trigger] pieces[i]).contains(':') && !pieces[i].contains(
                ',',
            ),
    ensures
        upstream_host(host + seq![':'] + joined(pieces, ',')) == host,
        upstream_ports(host + seq![':'] + joined(pieces, ',')) == pieces,
{
    joined_holds_no_more(pieces, ',', ':');
    halves_are_found(host, joined(pieces, ','));
    split_undoes_join(pieces, ',');
    assert(host + seq![':'] =~= host.push(':'));
}

/// A host and a list of ports, written as `host:port,port,..`, stand for one endpoint for
/// each port, in that order, once the host is known to be at an address: each has the port
/// that was written for it, and all else that the address has.
pub proof fn written_upstreams_are_reached(
    host: Seq<char>,
    ports: Seq<u16>,
    address: SocketAddress,
    endpoints: Seq<SocketAddress>,
    i: int,
)
    requires
        !host.contains(':'),
        0 <= i < ports.len(),
        endpoints == spread(
            address,
            ports_in(upstream_ports(host + seq![':'] + joined(written_ports(ports), ','))),
        ),
    ensures
        endpoints.len() == ports.len(),
        match address {
            SocketAddress::V4 { ip, .. } => endpoints[i] == (SocketAddress::V4 {
                ip,
                port: ports[i],
            }),
            SocketAddress::V6 { ip, flowinfo, scope_id, .. } => endpoints[i] == (
            SocketAddress::V6 { ip, port: ports[i], flowinfo, scope_id }),
        },
{
    assert(host + seq![':'] =~= host.push(':'));
    upstreams_are_read_back(host, ports);
    every_port_gets_its_endpoint(address, ports, i);
}

/// Ports are written as decimal numbers.
pub proof fn ports_are_written_in_decimal(ports: Seq<u16>, i: int)
    requires
        0 <= i < ports.len(),
    ensures
        written_ports(ports).len() == ports.len(),
        written_ports(ports)[i] == written(ports[i] as nat, 10),
{
}

} // verus!
