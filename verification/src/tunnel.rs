//! A tunnel end: what both ends of a tunnel agree on, and packets on their way in and out.
use vstd::prelude::*;

use crate::key::{generate_random_buf, key_stream, std_rng_fill};
use crate::packet::{
    obfuscated, obfuscation_in_place, obfuscation_is_an_involution, obfuscation_masks_byte_by_byte,
    pad_package, padded, padded_size, padding_fills_byte_by_byte, unpad_package, unpadded_size,
    unpadding_reads_the_last_byte, RND_BUF_SIZE, SEED_SIZE,
};

verus! {

/// What the two ends of a tunnel have in common.
pub struct Tunnel {
    pub key_bytes: [u8; RND_BUF_SIZE],
    pub obfuscation_size: usize,
    pub pad_size: usize,
}

impl Tunnel {
    /// The contents of `buf` after the packet in its first `size` bytes was obfuscated.
    pub open spec fn masked(&self, buf: Seq<u8>, size: nat) -> Seq<u8> {
        obfuscated(buf.take(size as int), self.key_bytes@, self.obfuscation_size as nat) + buf.skip(
            size as int,
        )
    }

    /// The contents of `buf` after the packet in its first `size` bytes was sealed.
    pub open spec fn sealed(&self, buf: Seq<u8>, size: nat) -> Seq<u8> {
        padded(self.masked(buf, size), size, self.key_bytes@, self.pad_size as nat)
    }

    /// The size of a packet of `size` bytes once sealed.
    pub open spec fn sealed_size(&self, size: nat) -> nat {
        padded_size(size, self.pad_size as nat)
    }

    /// The size of the packet inside a sealed packet of `size` bytes.
    pub open spec fn opened_size(&self, buf: Seq<u8>, size: nat) -> nat {
        unpadded_size(buf, size, self.pad_size as nat)
    }

    /// The contents of `buf` after the sealed packet in its first `size` bytes was opened.
    pub open spec fn opened(&self, buf: Seq<u8>, size: nat) -> Seq<u8> {
        self.masked(buf, self.opened_size(buf, size))
    }

    /// Whether the format can tell the size of a packet after sealing.
    pub open spec fn can_restore(&self, packet: Seq<u8>) -> bool {
        ||| packet.len() > self.pad_size
        ||| packet.len() < self.pad_size && packet.len() < 256
        ||| packet.len() == self.pad_size && obfuscated(
            packet,
            self.key_bytes@,
            self.obfuscation_size as nat,
        ).last() >= self.pad_size
    }

    /// A tunnel end for a key and the two sizes.
    pub fn new(obfuscation_key: u64, obfuscation_size: usize, pad_size: usize) -> (tunnel: Self)
        ensures
            tunnel.key_bytes@ == key_stream(obfuscation_key),
            tunnel.key_bytes@.take(4096) == std_rng_fill(obfuscation_key, seq![], 4096),
            tunnel.key_bytes@.skip(4096) == std_rng_fill(obfuscation_key, seq![4096nat], 3),
            tunnel.obfuscation_size == obfuscation_size,
            tunnel.pad_size == pad_size,
    {
        Tunnel { key_bytes: generate_random_buf(obfuscation_key), obfuscation_size, pad_size }
    }

    /// Obfuscates the packet in the first `size` bytes of `buf`.
    pub fn mask(&self, buf: &mut [u8], size: usize)
        requires
            size <= old(buf)@.len(),
        ensures
            final(buf)@ == self.masked(old(buf)@, size as nat),
    {
        let (packet, _rest) = buf.split_at_mut(size);
        obfuscation_in_place(packet, &self.key_bytes, self.obfuscation_size);
        assert(old(buf)@.subrange(0, size as int) =~= old(buf)@.take(size as int));
        assert(old(buf)@.subrange(size as int, old(buf)@.len() as int) =~= old(buf)@.skip(
            size as int,
        ));
    }

    /// Obfuscates and pads the packet in the first `size` bytes of `buf`, and returns
    /// how many bytes of `buf` go on the wire.
    pub fn seal(&self, buf: &mut [u8], size: usize) -> (on_wire: usize)
        requires
            size <= old(buf)@.len(),
            size < self.pad_size ==> self.pad_size <= old(buf)@.len(),
        ensures
            on_wire == self.sealed_size(size as nat),
            on_wire <= old(buf)@.len(),
            final(buf)@ == self.sealed(old(buf)@, size as nat),
    {
        self.mask(buf, size);
        pad_package(buf, size, &self.key_bytes, self.pad_size)
    }

    /// Takes padding and obfuscation off the packet in the first `size` bytes of `buf`,
    /// and returns how many bytes of `buf` the packet inside has.
    pub fn open(&self, buf: &mut [u8], size: usize) -> (inner: usize)
        requires
            size <= old(buf)@.len(),
            0 < self.pad_size <= old(buf)@.len(),
        ensures
            inner == self.opened_size(old(buf)@, size as nat),
            inner <= size,
            final(buf)@ == self.opened(old(buf)@, size as nat),
    {
        let inner: usize = unpad_package(buf, size, self.pad_size);
        self.mask(buf, inner);
        inner
    }

    /// Opens a packet that came over the tunnel, unless it is too short to have been
    /// sealed: such a packet is dropped.
    pub fn accept(&self, buf: &mut [u8], size: usize) -> (inner: Option<usize>)
        requires
            size <= old(buf)@.len(),
            0 < self.pad_size,
        ensures
            inner is None <==> size < self.pad_size,
            inner is None ==> final(buf)@ == old(buf)@,
            inner matches Some(n) ==> {
                &&& n == self.opened_size(old(buf)@, size as nat)
                &&& n <= size
                &&& final(buf)@ == self.opened(old(buf)@, size as nat)
            },
    {
        if size < self.pad_size {
            return None;
        }
        Some(self.open(buf, size))
    }
}

/// What one end of a tunnel seals, the other end accepts and opens to the same packet:
/// the far end gets the size right exactly when the format can restore the packet, and
/// then it gets every byte back, whatever its own buffer held behind what arrived.
pub proof fn sealed_packets_come_back(
    near: Tunnel,
    far: Tunnel,
    buf: Seq<u8>,
    size: nat,
    received: Seq<u8>,
)
    requires
        near.key_bytes@ == far.key_bytes@,
        near.obfuscation_size == far.obfuscation_size,
        near.pad_size == far.pad_size,
        0 < near.pad_size,
        size <= buf.len(),
        size < near.pad_size ==> near.pad_size <= buf.len(),
        near.sealed_size(size) <= received.len(),
        received.take(near.sealed_size(size) as int) == near.sealed(buf, size).take(
            near.sealed_size(size) as int,
        ),
    ensures
        near.sealed_size(size) >= far.pad_size,
        far.opened_size(received, near.sealed_size(size)) == size <==> near.can_restore(
            buf.take(size as int),
        ),
        near.can_restore(buf.take(size as int)) ==> far.opened(
            received,
            near.sealed_size(size),
        ).take(size as int) == buf.take(size as int),
{
    let packet = buf.take(size as int);
    let limit = near.obfuscation_size as nat;
    let masked = obfuscated(packet, near.key_bytes@, limit);
    let on_wire = near.sealed_size(size) as int;
    let sealed = near.sealed(buf, size);
    assert forall|i: int| 0 <= i < on_wire implies received[i] == sealed[i] by {
        assert(received.take(on_wire)[i] == sealed.take(on_wire)[i]);
    }
    assert forall|i: int| 0 <= i < size implies received[i] == masked[i] by {}
    if near.can_restore(packet) {
        assert(received.take(size as int) =~= masked);
        obfuscation_is_an_involution(packet, near.key_bytes@, limit);
        assert(far.opened(received, near.sealed_size(size)).take(size as int) =~= packet);
    }
}

/// With a pad size of up to 256 bytes, packets of every other size come back. A packet of
/// just the pad size, if it has bytes that are never masked, comes back exactly if its
/// last byte is no smaller than the pad size.
pub proof fn most_packets_come_back(tunnel: Tunnel, packet: Seq<u8>)
    ensures
        tunnel.pad_size <= 256 && packet.len() != tunnel.pad_size ==> tunnel.can_restore(packet),
        packet.len() == tunnel.pad_size && packet.len() >= SEED_SIZE ==> (tunnel.can_restore(packet)
            <==> packet.last() >= tunnel.pad_size),
{
}

/// Masking a packet in a buffer XORs each of its first `obfuscation_size` bytes, but for
/// its last four, with the key, from where those four say. A packet of fewer than four
/// bytes is masked from the start of the key. Nothing else in the buffer changes.
pub proof fn masking_byte_by_byte(tunnel: Tunnel, buf: Seq<u8>, size: nat, i: int)
    requires
        size <= buf.len(),
        0 <= i < buf.len(),
    ensures
        tunnel.masked(buf, size).len() == buf.len(),
        size >= 4 && i < tunnel.obfuscation_size && i < size - 4 ==> tunnel.masked(buf, size)[i]
            == buf[i] ^ tunnel.key_bytes@[(buf[size - 4] + 0x100 * buf[size - 3] + 0x1_0000
            * buf[size - 2] + 0x100_0000 * buf[size - 1] + i) % 4099],
        size < 4 && i < tunnel.obfuscation_size && i < size ==> tunnel.masked(buf, size)[i]
            == buf[i] ^ tunnel.key_bytes@[i],
        i >= tunnel.obfuscation_size || i >= size || (size >= 4 && i >= size - 4)
            ==> tunnel.masked(buf, size)[i] == buf[i],
{
    let packet = buf.take(size as int);
    if i < size {
        obfuscation_masks_byte_by_byte(
            packet,
            tunnel.key_bytes@,
            tunnel.obfuscation_size as nat,
            i,
        );
        assert(packet[i] == buf[i]);
        assert(tunnel.masked(buf, size)[i] == obfuscated(
            packet,
            tunnel.key_bytes@,
            tunnel.obfuscation_size as nat,
        )[i]);
        if size >= 4 {
            assert(packet[size - 4] == buf[size - 4]);
            assert(packet[size - 3] == buf[size - 3]);
            assert(packet[size - 2] == buf[size - 2]);
            assert(packet[size - 1] == buf[size - 1]);
        }
    }
}

/// A sealed packet goes on the wire with its masked bytes first. A packet that is too
/// short goes with the pad size: what was in the buffer follows, each byte masked with the
/// key byte at its own value, and the size of the packet, modulo 256, comes last.
pub proof fn sealing_byte_by_byte(tunnel: Tunnel, buf: Seq<u8>, size: nat, i: int)
    requires
        size <= buf.len(),
        0 <= i < buf.len(),
    ensures
        size >= tunnel.pad_size ==> tunnel.sealed_size(size) == size,
        size < tunnel.pad_size ==> tunnel.sealed_size(size) == tunnel.pad_size,
        tunnel.sealed(buf, size).len() == buf.len(),
        size >= 4 && i < tunnel.obfuscation_size && i < size - 4 ==> tunnel.sealed(buf, size)[i]
            == buf[i] ^ tunnel.key_bytes@[(buf[size - 4] + 0x100 * buf[size - 3] + 0x1_0000
            * buf[size - 2] + 0x100_0000 * buf[size - 1] + i) % 4099],
        size < 4 && i < tunnel.obfuscation_size && i < size ==> tunnel.sealed(buf, size)[i]
            == buf[i] ^ tunnel.key_bytes@[i],
        i < size && (i >= tunnel.obfuscation_size || (size >= 4 && i >= size - 4))
            ==> tunnel.sealed(buf, size)[i] == buf[i],
        size <= i && i + 1 < tunnel.pad_size ==> tunnel.sealed(buf, size)[i] == buf[i]
            ^ tunnel.key_bytes@[buf[i] as int],
        size <= i && i + 1 == tunnel.pad_size ==> tunnel.sealed(buf, size)[i] == size % 256,
        size <= i && i >= tunnel.pad_size ==> tunnel.sealed(buf, size)[i] == buf[i],
{
    masking_byte_by_byte(tunnel, buf, size, i);
    padding_fills_byte_by_byte(
        tunnel.masked(buf, size),
        size,
        tunnel.key_bytes@,
        tunnel.pad_size as nat,
        i,
    );
}

/// The packet inside a received packet has as many bytes as the last byte says, if the
/// received packet has just the pad size and that is fewer; else it is all of the received
/// packet. Opening takes the mask off as many bytes.
pub proof fn opening_byte_by_byte(tunnel: Tunnel, buf: Seq<u8>, size: nat, inner: nat, i: int)
    requires
        size <= buf.len(),
        0 < tunnel.pad_size <= buf.len(),
        0 <= i < buf.len(),
        size == tunnel.pad_size && buf[tunnel.pad_size - 1] < tunnel.pad_size ==> inner
            == buf[tunnel.pad_size - 1],
        size != tunnel.pad_size || buf[tunnel.pad_size - 1] >= tunnel.pad_size ==> inner == size,
    ensures
        tunnel.opened_size(buf, size) == inner,
        tunnel.opened(buf, size).len() == buf.len(),
        inner >= 4 && i < tunnel.obfuscation_size && i < inner - 4 ==> tunnel.opened(buf, size)[i]
            == buf[i] ^ tunnel.key_bytes@[(buf[inner - 4] + 0x100 * buf[inner - 3] + 0x1_0000
            * buf[inner - 2] + 0x100_0000 * buf[inner - 1] + i) % 4099],
        inner < 4 && i < tunnel.obfuscation_size && i < inner ==> tunnel.opened(buf, size)[i]
            == buf[i] ^ tunnel.key_bytes@[i],
        i >= tunnel.obfuscation_size || i >= inner || (inner >= 4 && i >= inner - 4)
            ==> tunnel.opened(buf, size)[i] == buf[i],
{
    unpadding_reads_the_last_byte(buf, size, tunnel.pad_size as nat);
    masking_byte_by_byte(tunnel, buf, inner, i);
}

} // verus!
