use xorion::packet::{
    obfuscation_in_place, pad_package, unpad_package, RND_BUF_SIZE,
};
use xorion::tunnel::Tunnel;

const TEST_PAD_SIZE: usize = 30;
const TEST_OBFUSCATION_SIZE: usize = 20;

fn counting_key() -> [u8; RND_BUF_SIZE] {
    let mut key_bytes = [0xFF; RND_BUF_SIZE];
    for i in 0..RND_BUF_SIZE {
        key_bytes[i] = (i + 1) as u8;
    }
    key_bytes
}

#[test]
fn test_obfuscation_in_place() {
    let key_bytes = counting_key();

    for i in 1..20 {
        let test_size: usize = i * i * 3;
        let mut buf = vec![0; test_size];
        for j in 0..test_size {
            buf[j] = j as u8;
        }

        obfuscation_in_place(&mut buf, &key_bytes, TEST_OBFUSCATION_SIZE);
        let mut is_same = true;
        for j in 0..test_size {
            is_same = is_same && buf[j] == (j as u8);
        }
        assert!(!is_same, "buf after: {:?}", buf);

        obfuscation_in_place(&mut buf, &key_bytes, TEST_OBFUSCATION_SIZE);
        let mut is_same = true;
        for j in 0..test_size {
            is_same = is_same && buf[j] == (j as u8);
        }
        assert!(is_same, "buf again: {:?}", buf);
    }
}

#[test]
fn test_pad_package() {
    let mut buf = vec![0u8; 65535];
    let key_bytes = [1u8; RND_BUF_SIZE];
    let package = b"Hello, world!";
    buf[..package.len()].copy_from_slice(package);

    let padded_size = pad_package(&mut buf, package.len(), &key_bytes, TEST_PAD_SIZE);
    assert_eq!(padded_size, TEST_PAD_SIZE);
    assert_eq!(
        buf[package.len()..TEST_PAD_SIZE - 1],
        key_bytes[..TEST_PAD_SIZE - 1 - package.len()]
    );
    assert_eq!(buf[TEST_PAD_SIZE - 1], package.len() as u8);
}

#[test]
fn test_unpad_package() {
    let mut buf = vec![0u8; 65535];
    let key_bytes = [1u8; RND_BUF_SIZE];
    let package = b"Hello, world!";
    buf[..package.len()].copy_from_slice(package);

    let padded_size = pad_package(&mut buf, package.len(), &key_bytes, TEST_PAD_SIZE);
    let unpadded_size = unpad_package(&mut buf, padded_size, TEST_PAD_SIZE);
    assert_eq!(unpadded_size, package.len());
    assert_eq!(&buf[..unpadded_size], package);
}

#[test]
fn test_pad_package_larger_than_pad_size() {
    let mut buf = vec![0u8; 65535];
    let key_bytes = [1u8; RND_BUF_SIZE];
    let package = vec![0u8; TEST_PAD_SIZE + 10];
    buf[..package.len()].copy_from_slice(&package);

    let padded_size = pad_package(&mut buf, package.len(), &key_bytes, TEST_PAD_SIZE);
    assert_eq!(padded_size, TEST_PAD_SIZE + 10);
    assert_eq!(&buf[..padded_size], &package);
}

#[test]
fn test_pad_unpad() {
    let key_bytes = counting_key();

    let mut buf = vec![0u8; 65535];
    for i in 1..20 {
        let test_size: usize = i * i * 3;
        for j in 0..test_size {
            buf[j] = j as u8;
        }
        let pad_size = pad_package(&mut buf, test_size, &key_bytes, TEST_PAD_SIZE);
        assert_eq!(pad_size, TEST_PAD_SIZE.max(test_size));
        let unpad_size = unpad_package(&mut buf, pad_size, TEST_PAD_SIZE);
        assert_eq!(unpad_size, test_size);
        for j in 0..test_size {
            assert_eq!(buf[j], j as u8);
        }
    }
}

#[test]
fn short_packets_are_masked_from_the_start_of_the_key() {
    let key_bytes = counting_key();
    let mut buf = [0x10u8, 0x20, 0x30];
    obfuscation_in_place(&mut buf, &key_bytes, 20);
    assert_eq!(buf, [0x11, 0x22, 0x33]);
    // Here too no byte beyond the obfuscation size is masked.
    let mut buf = [0x10u8, 0x20, 0x30];
    obfuscation_in_place(&mut buf, &key_bytes, 1);
    assert_eq!(buf, [0x11, 0x20, 0x30]);
    obfuscation_in_place(&mut buf, &key_bytes, 1);
    assert_eq!(buf, [0x10, 0x20, 0x30]);
    obfuscation_in_place(&mut buf, &key_bytes, 0);
    assert_eq!(buf, [0x10, 0x20, 0x30]);
    let mut empty: [u8; 0] = [];
    obfuscation_in_place(&mut empty, &key_bytes, 5);
    assert_eq!(empty, []);
}

#[test]
fn the_last_four_bytes_pick_the_key_position() {
    let key_bytes = counting_key();
    // 4097 picks the last key position but one; the third byte wraps round.
    let mut buf = [0u8, 0, 0, 0, 0x01, 0x10, 0, 0];
    obfuscation_in_place(&mut buf, &key_bytes, 20);
    assert_eq!(buf, [2, 3, 1, 2, 0x01, 0x10, 0, 0]);
    // The highest number there is: 0xffff_ffff modulo 4099 is 995.
    let mut buf = [0u8, 0xff, 0xff, 0xff, 0xff];
    obfuscation_in_place(&mut buf, &key_bytes, 20);
    assert_eq!(buf[0], ((0xffff_ffffu64 % 4099) + 1) as u8);
    // No byte beyond the obfuscation size is masked.
    let mut buf = [0u8; 12];
    obfuscation_in_place(&mut buf, &key_bytes, 2);
    assert_eq!(buf, [1, 2, 0, 0, 0, 0, 0, 0, 0, 0, 0, 0]);
    // A packet of nothing but the pick stays as it is.
    let mut buf = [9u8, 8, 7, 6];
    obfuscation_in_place(&mut buf, &key_bytes, 20);
    assert_eq!(buf, [9, 8, 7, 6]);
}

#[test]
fn filler_bytes_are_masked_by_their_own_value() {
    let key_bytes = counting_key();
    let mut buf = [7u8, 5, 0, 0xff, 9, 9];
    let size = pad_package(&mut buf, 1, &key_bytes, 5);
    assert_eq!(size, 5);
    assert_eq!(buf, [7, 5 ^ 6, 1, 0xff, 1, 9]);
}

#[test]
fn padding_records_sizes_modulo_256() {
    let key_bytes = counting_key();
    let mut buf = vec![0u8; 400];
    assert_eq!(pad_package(&mut buf, 260, &key_bytes, 300), 300);
    assert_eq!(buf[299], 4);
    assert_eq!(unpad_package(&buf, 300, 300), 4);
    let mut buf = vec![0u8; 400];
    assert_eq!(pad_package(&mut buf, 255, &key_bytes, 300), 300);
    assert_eq!(unpad_package(&buf, 300, 300), 255);
}

#[test]
fn only_packets_of_the_pad_size_are_unpadded() {
    let mut buf = vec![3u8; 64];
    assert_eq!(unpad_package(&buf, 31, 30), 31);
    assert_eq!(unpad_package(&buf, 29, 30), 29);
    assert_eq!(unpad_package(&buf, 30, 30), 3);
    buf[29] = 30;
    assert_eq!(unpad_package(&buf, 30, 30), 30);
    buf[29] = 0;
    assert_eq!(unpad_package(&buf, 30, 30), 0);
}

#[test]
fn padding_to_nothing_changes_nothing() {
    let key_bytes = counting_key();
    let mut buf = [1u8, 2, 3];
    assert_eq!(pad_package(&mut buf, 0, &key_bytes, 0), 0);
    assert_eq!(pad_package(&mut buf, 3, &key_bytes, 3), 3);
    assert_eq!(buf, [1, 2, 3]);
}

#[test]
fn sealed_packets_are_opened_at_the_far_end() {
    let near = Tunnel::new(0x12345678, TEST_OBFUSCATION_SIZE, TEST_PAD_SIZE);
    let far = Tunnel::new(0x12345678, TEST_OBFUSCATION_SIZE, TEST_PAD_SIZE);
    for size in 0..200usize {
        let mut buf = vec![0xa5u8; 1000];
        for i in 0..size {
            buf[i] = (0x80 | i) as u8;
        }
        let packet = buf[..size].to_vec();
        let on_wire = near.seal(&mut buf, size);
        assert_eq!(on_wire, size.max(TEST_PAD_SIZE));
        if size >= 5 {
            assert_ne!(&buf[..size], &packet[..]);
        }
        let mut received = vec![0x5au8; 2000];
        received[..on_wire].copy_from_slice(&buf[..on_wire]);
        let inner = far.accept(&mut received, on_wire).unwrap();
        assert_eq!(&received[..inner], &packet[..]);
    }
}

#[test]
fn another_key_does_not_open_a_packet() {
    let near = Tunnel::new(1, 20, 30);
    let far = Tunnel::new(2, 20, 30);
    let mut buf = vec![0u8; 100];
    buf[..13].copy_from_slice(b"Hello, world!");
    let on_wire = near.seal(&mut buf, 13);
    let inner = far.open(&mut buf, on_wire);
    assert_eq!(inner, 13);
    assert_ne!(&buf[..13], b"Hello, world!");
}

#[test]
fn packets_of_the_pad_size_may_be_cut() {
    let tunnel = Tunnel::new(7, 20, 30);
    let mut buf = vec![5u8; 100];
    let on_wire = tunnel.seal(&mut buf, 30);
    assert_eq!(on_wire, 30);
    assert_eq!(tunnel.open(&mut buf, on_wire), 5);
    let mut buf = vec![200u8; 100];
    let on_wire = tunnel.seal(&mut buf, 30);
    assert_eq!(tunnel.open(&mut buf, on_wire), 30);
    assert_eq!(buf, vec![200u8; 100]);
}

#[test]
fn packets_below_the_pad_size_are_not_accepted() {
    let tunnel = Tunnel::new(7, 20, 30);
    let mut buf = vec![1u8; 100];
    assert_eq!(tunnel.accept(&mut buf, 29), None);
    assert_eq!(tunnel.accept(&mut buf, 0), None);
    assert_eq!(buf, vec![1u8; 100]);
    assert_eq!(tunnel.accept(&mut buf, 31), Some(31));
    assert_ne!(buf, vec![1u8; 100]);
}

#[test]
fn masking_touches_the_packet_alone() {
    let mut tunnel = Tunnel::new(7, 20, 30);
    tunnel.key_bytes = [0xff; RND_BUF_SIZE];
    let mut buf = vec![0u8; 10];
    tunnel.mask(&mut buf, 6);
    assert_eq!(buf, vec![0xff, 0xff, 0, 0, 0, 0, 0, 0, 0, 0]);
}
