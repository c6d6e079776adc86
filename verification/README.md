# cm108

A userspace driver daemon (`cm108d`) for CM108/CM119 USB audio interfaces
used in ham-radio repeater controllers, with its client library.

`src/` is the verified core, checked with Verus:

- `types` — USB constants, audio frames, GPIO state, radio events, stream
  flags and the IPC messages.
- `codec` — the binary wire format (tag byte, little-endian integers,
  length-prefixed UTF-8 strings) with a proof, per type, that decoding an
  encoded value gives it back; length-prefixed framing.
- `framing` — packets on the daemon's socket and the 64 KiB read limit.
- `latency` — the power-of-two latency histogram and its 99th percentile.
- `registry` — connected clients, their subscriptions, and which client is
  handed which message.
- `server` — the daemon's decisions: request handling, GPIO event
  broadcast, statistics every 5000 frames, the heartbeat LED.
- `gpio`, `iso`, `seqlock`, `client` — HID reports, USB audio packets, the
  shared-buffer sequence lock and the client-side conversions.

`app/` holds what touches the operating system and the hardware: libusb
(`rusb`), the lock-free audio rings (`rtrb`), shared memory and socket
plumbing (`libc`), threads, the command line and the C interface.
