use rand::rngs::StdRng;
use rand::{Rng, SeedableRng};
use xorion::address::{
    addresses_at, first_address, first_port, lookup_target, parse_addresses, parse_port, parse_ports,
    IpAddress, SocketAddress,
};
use xorion::args::{Args, Mode, ModeError};
use xorion::key::{generate_random_buf, parse_obfuscation_key};
use xorion::text::{parse_number, split, trim, white_space};
use xorion::tunnel::Tunnel;

fn v4(ip: u32, port: u16) -> SocketAddress {
    SocketAddress::V4 { ip, port }
}

fn args(server: bool, client: bool, singular: bool) -> Args {
    Args {
        server,
        client,
        singular,
        bind: String::from("4567"),
        upstream: String::from("192.168.1.1:10001,10002,10003"),
        obfuscation_key: String::from("0x7f8c1a44"),
        inactivity_timeout_sec: 60,
        obfuscation_size: 140,
        pad_size: 140,
    }
}

#[test]
fn test_parse_obfuscation_key_hex() {
    let parsed = parse_obfuscation_key("0x7f8c1a44");
    assert_eq!(parsed, 0x7F8C1A44);
}

#[test]
fn test_parse_obfuscation_key_decimal() {
    let parsed = parse_obfuscation_key("123456");
    assert_eq!(parsed, 123456);
}

#[test]
fn test_parse_obfuscation_key_invalid() {
    let parsed = parse_obfuscation_key("notanumber");
    assert_eq!(parsed, 0);
}

#[test]
fn test_generate_random_buf() {
    let buf = generate_random_buf(0x12345678);
    assert_eq!(buf[0], 161);
    assert_eq!(buf[100], 94);
    assert_eq!(buf[500], 132);
    assert_eq!(buf[1000], 19);
    assert_eq!(buf[2000], 167);
    assert_eq!(buf[4000], 222);
}

#[test]
fn test_parse_addresses() {
    assert_eq!(lookup_target("127.0.0.1:1234,1235"), Some(String::from("127.0.0.1:1234")));
    let addr = parse_addresses("127.0.0.1:1234,1235", Some(vec![v4(0x7f000001, 1234)]));
    assert_eq!(addr.len(), 2);
    assert_eq!(addr, vec![v4(0x7f000001, 1234), v4(0x7f000001, 1235)]);
    assert_eq!(lookup_target("github.com:1234,1235"), Some(String::from("github.com:1234")));
    let addr = parse_addresses(
        "github.com:1234,1235",
        Some(vec![v4(0x8c527903, 1234), v4(0x8c527904, 1234)]),
    );
    assert_eq!(addr.len(), 2);
}

#[test]
fn key_bytes_are_what_the_generator_yields() {
    for key in [0u64, 1, 0x7f8c1a44, u64::MAX] {
        let mut rng = StdRng::seed_from_u64(key);
        let mut head = [0u8; 4096];
        let mut tail = [0u8; 3];
        rng.fill(&mut head[..]);
        rng.fill(&mut tail[..]);
        let buf = generate_random_buf(key);
        assert_eq!(buf[..4096], head[..]);
        assert_eq!(buf[4096..], tail[..]);
    }
}

#[test]
fn equal_keys_give_equal_tunnels() {
    let one = Tunnel::new(99, 10, 20);
    let other = Tunnel::new(99, 10, 20);
    assert_eq!(one.key_bytes[..], other.key_bytes[..]);
    assert_eq!((one.obfuscation_size, one.pad_size), (10, 20));
    assert_ne!(one.key_bytes[..], Tunnel::new(98, 10, 20).key_bytes[..]);
}

#[test]
fn keys_are_read_as_the_standard_library_reads_them() {
    let texts = [
        "", "0", "+5", "-5", "+", "++5", "18446744073709551615", "18446744073709551616", " 1",
        "1 ", "0x", "0x0", "0xFf", "0xfF", "0x+1f", "0x-1f", "0xffffffffffffffff",
        "0x10000000000000000", "0xg", "0X1f", "1f", "0x1_0", "00000000000000000000000012",
        "x1", "0", "٣", "0x٣", "9z", "é",
    ];
    for text in texts {
        let expected = match text.strip_prefix("0x") {
            Some(digits) => u64::from_str_radix(digits, 16).unwrap_or(0),
            None => text.parse().unwrap_or(0),
        };
        assert_eq!(parse_obfuscation_key(text), expected, "{}", text);
    }
    assert_eq!(parse_obfuscation_key("0xffffffffffffffff"), u64::MAX);
    assert_eq!(parse_obfuscation_key("0x10000000000000000"), 0);
}

#[test]
fn numbers_are_read_in_any_radix() {
    for radix in [2u32, 8, 10, 16, 36] {
        for text in ["", "+", "0", "101", "+777", "9", "zZ", "8", "-1", "a a"] {
            let expected = u64::from_str_radix(text, radix).ok();
            assert_eq!(parse_number(text, radix, u64::MAX), expected, "{} {}", text, radix);
        }
    }
    assert_eq!(parse_number("256", 10, 255), None);
    assert_eq!(parse_number("255", 10, 255), Some(255));
}

#[test]
fn written_keys_read_back() {
    for key in [0u64, 9, 10, 15, 16, 4099, 0x7f8c1a44, u64::MAX] {
        assert_eq!(parse_obfuscation_key(&format!("{}", key)), key);
        assert_eq!(parse_obfuscation_key(&format!("0x{:x}", key)), key);
        assert_eq!(parse_obfuscation_key(&format!("0x{:X}", key)), key);
    }
}

#[test]
fn white_space_is_what_unicode_says() {
    for code in 0..=0x10ffffu32 {
        if let Some(c) = char::from_u32(code) {
            assert_eq!(white_space(c), c.is_whitespace(), "{:x}", code);
        }
    }
}

#[test]
fn texts_are_trimmed_and_split_as_the_standard_library_does() {
    let texts = [
        "", " ", "a", " a ", "\t a b\u{3000}", ",", ",,", "a,b", " a , b ,", "é,ü", "a,,b",
        "\u{a0}x", "x\u{85}\n",
    ];
    for text in texts {
        assert_eq!(trim(text), text.trim());
        let expected: Vec<&str> = text.split(',').collect();
        assert_eq!(split(text, ','), expected);
        assert_eq!(split(text, ',').join(","), text);
    }
}

#[test]
fn ports_are_read_one_by_one() {
    assert_eq!(parse_ports("10001,10002,10003"), vec![10001, 10002, 10003]);
    assert_eq!(parse_ports(" 1 ,x, 65535,65536,-1,,+7"), vec![1, 65535, 7]);
    assert_eq!(parse_ports(""), Vec::<u16>::new());
    assert_eq!(parse_port("4567"), Some(4567));
    assert_eq!(parse_port("0"), Some(0));
    assert_eq!(parse_port(" 4567"), None);
    assert_eq!(parse_port("65536"), None);
    assert_eq!(parse_port(""), None);
}

#[test]
fn an_upstream_has_one_colon() {
    assert_eq!(lookup_target("host"), None);
    assert_eq!(lookup_target("::1:80"), None);
    assert_eq!(lookup_target(""), None);
    assert_eq!(lookup_target("host:"), Some(String::from("host:")));
    assert_eq!(lookup_target(":80,81"), Some(String::from(":80")));
    assert_eq!(
        lookup_target("192.168.1.1:10001,10002,10003"),
        Some(String::from("192.168.1.1:10001"))
    );
    let found = v4(0xc0a80101, 10001);
    assert_eq!(
        addresses_at("192.168.1.1:10001,10002,10003", found),
        vec![v4(0xc0a80101, 10001), v4(0xc0a80101, 10002), v4(0xc0a80101, 10003)]
    );
    assert_eq!(addresses_at("h:1, 2,x,3", found), vec![v4(0xc0a80101, 1), v4(0xc0a80101, 3)]);
    assert_eq!(addresses_at("h", found), vec![]);
}

#[test]
fn failed_lookups_yield_no_addresses() {
    assert_eq!(parse_addresses("host:1", None), vec![]);
    assert_eq!(parse_addresses("host:1", Some(vec![])), vec![]);
    assert_eq!(parse_addresses("host", Some(vec![v4(1, 1)])), vec![]);
    assert_eq!(first_address(&vec![]), None);
    assert_eq!(first_address(&vec![v4(1, 2), v4(3, 4)]), Some(v4(1, 2)));
    assert_eq!(first_port(&vec![]), None);
    assert_eq!(first_port(&parse_ports("10003,10001")), Some(10003));
}

#[test]
fn every_address_of_a_host_is_chosen_at_times() {
    let mut seen = [false; 3];
    for _ in 0..1000 {
        let addresses =
            parse_addresses("host:8,9", Some(vec![v4(10, 8), v4(11, 8), v4(12, 8)]));
        assert_eq!(addresses.len(), 2);
        match addresses[0] {
            SocketAddress::V4 { ip, port } => {
                assert_eq!(port, 8);
                assert_eq!(addresses[1], v4(ip, 9));
                seen[(ip - 10) as usize] = true;
            }
            SocketAddress::V6 { .. } => panic!("not among the addresses"),
        }
    }
    assert_eq!(seen, [true; 3]);
}

#[test]
fn ports_are_set_and_hosts_are_told() {
    let six = SocketAddress::V6 { ip: 1, port: 2, flowinfo: 3, scope_id: 4 };
    assert_eq!(
        six.with_port(9),
        SocketAddress::V6 { ip: 1, port: 9, flowinfo: 3, scope_id: 4 }
    );
    assert_eq!(six.ip(), IpAddress::V6(1));
    assert_eq!(v4(1, 2).ip(), IpAddress::V4(1));
    assert_ne!(v4(1, 2).ip(), six.ip());
    assert_eq!(v4(1, 2).with_port(3), v4(1, 3));
}

#[test]
fn modes_are_told_apart() {
    assert_eq!(args(true, false, false).mode(), Ok(Mode::Server));
    assert_eq!(args(false, true, false).mode(), Ok(Mode::Client));
    assert_eq!(args(false, false, true).mode(), Ok(Mode::Singular));
    assert_eq!(args(true, false, true).mode(), Ok(Mode::Singular));
    assert_eq!(args(false, true, true).mode(), Ok(Mode::Singular));
    assert_eq!(args(true, true, false).mode(), Err(ModeError::ServerAndClient));
    assert_eq!(args(true, true, true).mode(), Err(ModeError::ServerAndClient));
    assert_eq!(args(false, false, false).mode(), Err(ModeError::NeitherServerNorClient));
}
