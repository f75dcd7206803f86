# Xorion

A multi-path UDP proxy that obfuscates packets by XOR, with its decisions verified in
[Verus](https://github.com/verus-lang/verus).

A client end listens on one UDP port and spreads the packets it gets over several paths
to a server end. The server end listens on several ports and forwards what it gets to
one upstream; replies take the way back. In singular mode each peer has one socket of
its own to the far end.

## Layout

- `src/` is the verified library.
  - `packet`: XOR obfuscation and padding of packets.
  - `tunnel`: packets on their way into and out of a tunnel, and that they come back
    as they were.
  - `key`: the key of the command line and the key bytes it stands for.
  - `text`, `address`, `args`: the command line.
  - `rotation`: how packets are spread over paths.
  - `registry`, `clock`: the peers that are known, and when they are forgotten.
  - `client`, `server`, `singular`: what each mode does with each packet.
- `app/` is the program: command line, sockets, tasks and timers.
- `tests/` holds the tests of the library.

## Running

A server that listens on three ports and forwards to `192.168.1.1:4567`:

```bash
xorion --server --bind 10001,10002,10003 --upstream 192.168.1.1:4567 \
  --obfuscation-key 0x7f8c1a44
```

A client for it:

```bash
xorion --client --bind 4567 --upstream 192.168.1.1:10001,10002,10003 \
  --obfuscation-key 0x7f8c1a44
```

## What the format cannot carry

The size of a padded packet is kept in one byte. With a pad size above 256, packets of
256 bytes and more that need padding lose their size. A packet of just the pad size
whose last byte is below the pad size is taken to be padded, and is cut.
