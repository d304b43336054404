# proto

Wire formats and protocol logic for a set of network protocols (LDAP, NTLM, Redis,
MQTT, TDS, MySQL, NTP, NAT-PMP, MS-DNSP, Quake status queries and others), written in
Verus and verified against their contracts.

- `src/` is the verified library: codecs with their encode/decode laws, the state of
  servers (directories, keyspaces, brokers, zones, lease tables) as types with
  invariants, and the decisions of clients and servers as functions from state and
  message to next state and reply. Outside crates (hashes, randomness, the clock) are
  reached through a few trusted wrappers whose contracts are stated beside them.
- `tests/` runs the library on concrete values.
- `app/` holds the network drivers: sockets, timeouts and the loops that hand received
  bytes to the library and send back what it returns.
