# common

The library of a vsock bridge between an AWS Nitro enclave and its host,
verified with Verus.

- `ip_frame`: the size of the IP frame that starts a buffer (through
  etherparse's lax parser).
- `relay`: the two relays that forward bytes between the tun interface and
  the vsock connection, as state machines whose caller performs the reads and
  writes; proved to forward every byte once and in order.
- `framing`: the message protocol of the stream sockets (an 8-byte
  little-endian length, then the payload), with the receiving side as a state
  machine; the header is proved to decode to the length it encodes.
- `stream`: stream handles and socket addresses, with the decisions of
  connect, reconnect and call.
- `egress`: the host side's retry policy while it waits for the enclave.
- `command`, `tun`, `vsock`, `boot`: the command lines, ioctl requests,
  socket addresses and tables with which the enclave is set up.
- `hex`, `digest`: hexadecimal rendering and SHA-256.

`app/` holds the programs (`sender`, `init`, `downer`), which perform the
I/O that the library decides on.
