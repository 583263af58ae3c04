# xarxa

A small TCP/IP network stack whose behaviour is stated in contracts and proved
with Verus.

- `src/iface/`: interfaces, their addresses, source address selection, IPv6
  stateless address autoconfiguration, and a DHCPv4 server.
- `src/raw.rs`: raw sockets, for whole Ethernet frames or whole IP packets.
- `src/tcp/`: TCP listeners and their accept queues.
- `src/stack.rs`, `src/route.rs`: what interfaces and sockets share, and routing.
- `src/wire/`: addresses, headers and messages.
- `src/storage/`: tables and queues of bounded size.
- `src/driver.rs`: packet buffers, and the trait a device driver implements.
- `src/ping.rs`: pacing and timing of echo requests.

What holds of several functions together stands in the modules whose names end in
`laws`, and at the end of the module it is about elsewhere.

What the library relies on without proof: the waker of the standard library and
its reference counts (`src/waker.rs`, `src/driver.rs`), the list of `heapless`
that the lease table and the DNS servers are kept in
(`src/iface/dhcpv4_leases.rs`, `src/iface/dhcpv4_server.rs`), and reading an
integer with `byteorder` (`src/wire/bytes.rs`). The driver is the user's: the
calls made to it are on record, and nothing is claimed of what it answers.

`app/` holds a ping program and a DHCP server over a Unix datagram socket.
