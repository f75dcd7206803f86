//! The wire format: XOR obfuscation and padding of packets.
use vstd::prelude::*;

verus! {

/// Number of key bytes the obfuscation draws from.
pub const RND_BUF_SIZE: usize = 4099;

/// Number of trailing bytes of a packet that pick where in the key to start.
pub const SEED_SIZE: usize = 4;

/// The trailing bytes of a packet read as a little-endian number.
pub open spec fn seed_of(data: Seq<u8>) -> nat {
    let at = data.len() - SEED_SIZE;
    (data[at] + 0x100 * data[at + 1] + 0x1_0000 * data[at + 2] + 0x100_0000 * data[at + 3]) as nat
}

/// How many leading bytes of a packet of `len` bytes are obfuscated: at most
/// `obfuscation_size`, and none of those that pick the key position.
pub open spec fn obfuscated_len(len: nat, obfuscation_size: nat) -> nat {
    let reach = if len < SEED_SIZE {
        len
    } else {
        (len - SEED_SIZE) as nat
    };
    if obfuscation_size < reach {
        obfuscation_size
    } else {
        reach
    }
}

/// The key position whose byte masks byte `i` of `data`.
pub open spec fn key_index(data: Seq<u8>, i: int) -> int {
    if data.len() < SEED_SIZE {
        i
    } else {
        (seed_of(data) + i) % (RND_BUF_SIZE as int)
    }
}

/// A packet after obfuscation. The bytes that pick the key position are never masked.
pub open spec fn obfuscated(data: Seq<u8>, key: Seq<u8>, obfuscation_size: nat) -> Seq<u8> {
    Seq::new(
        data.len(),
        |i: int|
            if i < obfuscated_len(data.len(), obfuscation_size) {
                data[i] ^ key[key_index(data, i)]
            } else {
                data[i]
            },
    )
}

/// XORs at most `obfuscation_size` leading bytes of `buf` with the key, from a key
/// position that the last bytes of `buf` pick. A buffer too short to hold such a pick is
/// masked from the start of the key.
pub fn obfuscation_in_place(
    buf: &mut [u8],
    key_bytes: &[u8; RND_BUF_SIZE],
    obfuscation_size: usize,
)
    ensures
        final(buf)@ == obfuscated(old(buf)@, key_bytes@, obfuscation_size as nat),
        final(buf)@.len() == old(buf)@.len(),
        forall|i: int|
            old(buf)@.len() >= 4 && 0 <= i < obfuscation_size && i < old(buf)@.len() - 4 ==> (
            #[trigger] final(buf)@[i]) == old(buf)@[i] ^ key_bytes@[(old(buf)@[old(buf)@.len() - 4]
                + 0x100 * old(buf)@[old(buf)@.len() - 3] + 0x1_0000 * old(buf)@[old(buf)@.len() - 2]
                + 0x100_0000 * old(buf)@[old(buf)@.len() - 1] + i) % 4099],
        forall|i: int|
            old(buf)@.len() < 4 && 0 <= i < obfuscation_size && i < old(buf)@.len() ==> (
            #[trigger] final(buf)@[i]) == old(buf)@[i] ^ key_bytes@[i],
        forall|i: int|
            0 <= i < old(buf)@.len() && (i >= obfuscation_size || (old(buf)@.len() >= 4 && i
                >= old(buf)@.len() - 4)) ==> (#[trigger] final(buf)@[i]) == old(buf)@[i],
{
    let len = buf.len();
    let ghost before = buf@;
    if len < SEED_SIZE {
        let end: usize = if obfuscation_size < len {
            obfuscation_size
        } else {
            len
        };
        for i in 0..end
            invariant
                len == before.len(),
                buf@.len() == len,
                len < SEED_SIZE,
                end <= len,
                key_bytes@.len() == RND_BUF_SIZE,
                forall|j: int| 0 <= j < i ==> buf@[j] == before[j] ^ key_bytes@[j],
                forall|j: int| i <= j < len ==> buf@[j] == before[j],
        {
            buf[i] = buf[i] ^ key_bytes[i];
        }
        assert(buf@ =~= obfuscated(before, key_bytes@, obfuscation_size as nat));
        return ;
    }
    let seed: u32 = buf[len - 4] as u32 + 0x100 * (buf[len - 3] as u32) + 0x1_0000 * (buf[len
        - 2] as u32) + 0x100_0000 * (buf[len - 1] as u32);
    assert(seed == seed_of(before));
    let mut ki: usize = (seed % (RND_BUF_SIZE as u32)) as usize;
    let end: usize = if obfuscation_size < len - SEED_SIZE {
        obfuscation_size
    } else {
        len - SEED_SIZE
    };
    for i in 0..end
        invariant
            len == before.len(),
            buf@.len() == len,
            SEED_SIZE <= len,
            end == obfuscated_len(before.len(), obfuscation_size as nat),
            key_bytes@.len() == RND_BUF_SIZE,
            ki == (seed_of(before) + i) % (RND_BUF_SIZE as int),
            ki < RND_BUF_SIZE,
            forall|j: int|
                0 <= j < i ==> buf@[j] == before[j] ^ key_bytes@[key_index(before, j)],
            forall|j: int| i <= j < len ==> buf@[j] == before[j],
    {
        buf[i] = buf[i] ^ key_bytes[ki];
        ki = ki + 1;
        if ki >= RND_BUF_SIZE {
            ki = 0;
        }
    }
    assert(buf@ =~= obfuscated(before, key_bytes@, obfuscation_size as nat));
}

/// The size of a packet of `size` bytes once padded.
pub open spec fn padded_size(size: nat, pad_size: nat) -> nat {
    if size >= pad_size {
        size
    } else {
        pad_size
    }
}

/// A buffer whose first `size` bytes are the packet, after padding. Filler bytes are
/// masked with the key byte at their own value, and the last byte of a padded packet
/// records the size it had, modulo 256.
pub open spec fn padded(buf: Seq<u8>, size: nat, key: Seq<u8>, pad_size: nat) -> Seq<u8> {
    Seq::new(
        buf.len(),
        |i: int|
            if size <= i < pad_size - 1 {
                buf[i] ^ key[buf[i] as int]
            } else if size < pad_size && i == pad_size - 1 {
                (size % 256) as u8
            } else {
                buf[i]
            },
    )
}

/// The size of the packet inside a received packet of `size` bytes. Only packets of
/// exactly `pad_size` bytes are taken to be padded.
pub open spec fn unpadded_size(buf: Seq<u8>, size: nat, pad_size: nat) -> nat {
    if size == pad_size && buf[pad_size - 1] < pad_size {
        buf[pad_size - 1] as nat
    } else {
        size
    }
}

/// Pads the packet in the first `size` bytes of `buf` up to `pad_size` bytes and
/// returns its new size. A packet that is large enough is left alone.
pub fn pad_package(
    buf: &mut [u8],
    size: usize,
    key_bytes: &[u8; RND_BUF_SIZE],
    pad_size: usize,
) -> (padded_to: usize)
    requires
        size < pad_size ==> pad_size <= old(buf)@.len(),
    ensures
        padded_to == padded_size(size as nat, pad_size as nat),
        padded_to >= size && padded_to >= pad_size && (padded_to == size || padded_to == pad_size),
        final(buf)@ == padded(old(buf)@, size as nat, key_bytes@, pad_size as nat),
{
    let ghost before = buf@;
    if size >= pad_size {
        assert(buf@ =~= padded(before, size as nat, key_bytes@, pad_size as nat));
        return size;
    }
    for i in size..pad_size - 1
        invariant
            buf@.len() == before.len(),
            pad_size <= before.len(),
            size < pad_size,
            key_bytes@.len() == RND_BUF_SIZE,
            forall|j: int| size <= j < i ==> buf@[j] == before[j] ^ key_bytes@[before[j] as int],
            forall|j: int|
                0 <= j < size || i <= j < before.len() ==> buf@[j] == before[j],
    {
        buf[i] = buf[i] ^ key_bytes[buf[i] as usize];
    }
    buf[pad_size - 1] = (size % 256) as u8;
    assert(buf@ =~= padded(before, size as nat, key_bytes@, pad_size as nat));
    pad_size
}

/// Returns the size of the packet inside a received packet of `size` bytes.
pub fn unpad_package(buf: &[u8], size: usize, pad_size: usize) -> (unpadded_to: usize)
    requires
        0 < pad_size <= buf@.len(),
    ensures
        unpadded_to == unpadded_size(buf@, size as nat, pad_size as nat),
        size != pad_size || buf@[pad_size - 1] >= pad_size ==> unpadded_to == size,
        size == pad_size && buf@[pad_size - 1] < pad_size ==> unpadded_to == buf@[pad_size - 1],
{
    let original_size: usize = buf[pad_size - 1] as usize;
    if size != pad_size || original_size >= pad_size {
        return size;
    }
    original_size
}

/// Obfuscating a packet twice gives the packet back.
pub proof fn obfuscation_is_an_involution(data: Seq<u8>, key: Seq<u8>, obfuscation_size: nat)
    ensures
        obfuscated(obfuscated(data, key, obfuscation_size), key, obfuscation_size) == data,
{
    let once = obfuscated(data, key, obfuscation_size);
    if data.len() >= SEED_SIZE {
        assert(seed_of(once) == seed_of(data));
    }
    assert forall|x: u8, y: u8| #[trigger] ((x ^ y) ^ y) == x by {
        assert((x ^ y) ^ y == x) by (bit_vector);
    }
    assert(obfuscated(once, key, obfuscation_size) =~= data);
}

/// Obfuscation keeps the size of a packet, every byte from `obfuscation_size` on, and
/// the last `SEED_SIZE` bytes of a packet that has as many.
pub proof fn obfuscation_keeps_the_rest(
    data: Seq<u8>,
    key: Seq<u8>,
    obfuscation_size: nat,
    i: int,
)
    requires
        0 <= i < data.len(),
        i >= obfuscation_size || (data.len() >= SEED_SIZE && i >= data.len() - SEED_SIZE),
    ensures
        obfuscated(data, key, obfuscation_size).len() == data.len(),
        obfuscated(data, key, obfuscation_size)[i] == data[i],
{
}

/// Unpadding a padded packet gives its size back, and the packet itself was never
/// touched, exactly when the packet is longer than `pad_size`, or shorter and below
/// 256 bytes, or of `pad_size` bytes with a last byte that is not a smaller size.
pub proof fn unpad_undoes_pad(buf: Seq<u8>, size: nat, key: Seq<u8>, pad_size: nat)
    requires
        size <= buf.len(),
        0 < pad_size <= buf.len(),
    ensures
        padded(buf, size, key, pad_size).take(size as int) == buf.take(size as int),
        unpadded_size(padded(buf, size, key, pad_size), padded_size(size, pad_size), pad_size)
            == size <==> {
            ||| size > pad_size
            ||| size < pad_size && size < 256
            ||| size == pad_size && buf[pad_size - 1] >= pad_size
        },
{
    assert(padded(buf, size, key, pad_size).take(size as int) =~= buf.take(size as int));
}

/// Each of the first `obfuscation_size` bytes of a packet is masked, but for the last
/// four, which say as a little-endian number where in the 4099 key bytes the mask
/// starts. A packet of fewer than four bytes is masked from the start of the key. All
/// other bytes go as they are.
pub proof fn obfuscation_masks_byte_by_byte(
    data: Seq<u8>,
    key: Seq<u8>,
    obfuscation_size: nat,
    i: int,
)
    requires
        0 <= i < data.len(),
    ensures
        obfuscated(data, key, obfuscation_size).len() == data.len(),
        data.len() >= 4 && i < obfuscation_size && i < data.len() - 4 ==> obfuscated(
            data,
            key,
            obfuscation_size,
        )[i] == data[i] ^ key[(data[data.len() - 4] + 0x100 * data[data.len() - 3] + 0x1_0000
            * data[data.len() - 2] + 0x100_0000 * data[data.len() - 1] + i) % 4099],
        data.len() < 4 && i < obfuscation_size ==> obfuscated(data, key, obfuscation_size)[i]
            == data[i] ^ key[i],
        i >= obfuscation_size || (data.len() >= 4 && i >= data.len() - 4) ==> obfuscated(
            data,
            key,
            obfuscation_size,
        )[i] == data[i],
{
}

/// What a masked byte and the byte it was differ by is the key byte alone: two packets
/// that end in the same four bytes are masked alike, and a key of zeros masks nothing.
pub proof fn masks_depend_on_key_and_tail_only(
    data: Seq<u8>,
    other: Seq<u8>,
    key: Seq<u8>,
    obfuscation_size: nat,
    i: int,
)
    requires
        data.len() >= 4,
        other.len() >= 4,
        data.skip(data.len() - 4) == other.skip(other.len() - 4),
        0 <= i < data.len() - 4,
        i < other.len() - 4,
    ensures
        obfuscated(data, key, obfuscation_size)[i] ^ data[i] == obfuscated(
            other,
            key,
            obfuscation_size,
        )[i] ^ other[i],
        (forall|j: int| 0 <= j < 4099 ==> (#[trigger] key[j]) == 0) ==> obfuscated(
            data,
            key,
            obfuscation_size,
        ) == data,
{
    let (tail, other_tail) = (data.skip(data.len() - 4), other.skip(other.len() - 4));
    assert(tail[0] == other_tail[0]);
    assert(tail[1] == other_tail[1]);
    assert(tail[2] == other_tail[2]);
    assert(tail[3] == other_tail[3]);
    obfuscation_masks_byte_by_byte(data, key, obfuscation_size, i);
    obfuscation_masks_byte_by_byte(other, key, obfuscation_size, i);
    let (x, y, k) = (data[i], other[i], key[key_index(data, i)]);
    assert((x ^ k) ^ x == (y ^ k) ^ y) by (bit_vector);
    assert(x ^ x == y ^ y) by (bit_vector);
    if forall|j: int| 0 <= j < 4099 ==> (#[trigger] key[j]) == 0 {
        assert forall|j: int| 0 <= j < data.len() implies obfuscated(data, key, obfuscation_size)[j]
            == data[j] by {
            obfuscation_masks_byte_by_byte(data, key, obfuscation_size, j);
            let x = data[j];
            assert(x ^ 0 == x) by (bit_vector);
            assert(0 <= key_index(data, j) < 4099);
        }
        assert(obfuscated(data, key, obfuscation_size) =~= data);
    }
}

/// A packet that is too short is padded to just the pad size: its own bytes stay, its
/// last byte becomes the size it had, modulo 256, and each byte between is masked with
/// the key byte at its own value. A packet that is long enough, and all that stands in
/// the buffer behind the padding, stay as they are.
pub proof fn padding_fills_byte_by_byte(
    buf: Seq<u8>,
    size: nat,
    key: Seq<u8>,
    pad_size: nat,
    i: int,
)
    requires
        0 <= i < buf.len(),
    ensures
        size < pad_size ==> padded_size(size, pad_size) == pad_size,
        size >= pad_size ==> padded_size(size, pad_size) == size,
        padded(buf, size, key, pad_size).len() == buf.len(),
        i < size || i >= pad_size ==> padded(buf, size, key, pad_size)[i] == buf[i],
        size <= i && i + 1 < pad_size ==> padded(buf, size, key, pad_size)[i] == buf[i]
            ^ key[buf[i] as int],
        size <= i && i + 1 == pad_size ==> padded(buf, size, key, pad_size)[i] == size % 256,
{
}

/// A packet of just the pad size holds as many bytes as its last byte says, if that is
/// less than the pad size. Every other packet is taken as it is.
pub proof fn unpadding_reads_the_last_byte(buf: Seq<u8>, size: nat, pad_size: nat)
    requires
        0 < pad_size <= buf.len(),
    ensures
        size != pad_size ==> unpadded_size(buf, size, pad_size) == size,
        buf[pad_size - 1] >= pad_size ==> unpadded_size(buf, size, pad_size) == size,
        size == pad_size && buf[pad_size - 1] < pad_size ==> unpadded_size(buf, size, pad_size)
            == buf[pad_size - 1],
{
}

} // verus!
