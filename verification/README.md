# guardi_vpn

A peer-to-peer VPN node and its terminal chat client, with the logic written
in Verus and proved against its contracts.

## Layout

- `src/` — the verified library:
  - `interceptor/` — reading a destination description out of a captured
    packet, and packet capture;
  - `constructors/node.rs` — the datagram protocol between nodes
    (`SECRET:TOPIC:BODY` messages: announcements, host queries and reports,
    traffic replay), the peer registry and the host availability table;
  - `constructors/stun.rs` — the STUN binding request and the reading of the
    public address from the answer;
  - `constructors/sniffer.rs` — routing of intercepted traffic through peers;
  - `network/` — route selection, discovery beacons, the overlay engine's
    decisions and the events it publishes;
  - `terminal/` — the state of the terminal client and how keys and engine
    events change it;
  - `text.rs`, `assoc.rs`, `ids.rs` — text handling, association lists read
    as maps, and fresh identifiers.
- `tests/` — tests of the library on concrete values.
- `app/` — the program around the library: sockets, threads, the libp2p
  swarm, the TUN device, XML serialisation and the ratatui interface.
