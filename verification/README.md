# xarxa

A small TCP/IP network stack, verified with Verus.

The stack owns its interfaces, its sockets and its routing table. Frames enter and leave
through per-interface queues, so that every decision the stack takes is a function of the
state it holds and of the frames it is given. The contracts say which function.

- `src/wire` reads and writes packet headers: Ethernet, ARP, IPv4, IPv6 and its extension
  headers, ICMPv4, ICMPv6, neighbor discovery, UDP, TCP, DNS, and the fragment and
  next-header compression formats of 6LoWPAN.
- `src/stack` is the stack itself: interfaces and their addresses, source address
  selection, routing, neighbor resolution, ingress and polling.
- `src/udp`, `src/raw.rs` and `src/tcp` are the sockets.
- `src/neighbor.rs`, `src/pending.rs` and `src/route.rs` are the tables the stack keeps.
- `src/packet_log` decodes packets for the log.
- `app` runs the stack on a host operating system: drivers for TUN/TAP interfaces and
  packet sockets, and the loop that moves frames between devices and stack.

Proof functions whose names begin with `law_` state what holds of several functions
together: that a ping is answered, that a datagram one stack sends is received by another,
that two hosts resolve each other's addresses, that an error reaches the socket it is about.
