# ultinet

A small networking library on top of UDP. Packets of any size are split into parts that fit into a
datagram, sent until the other side has acked every part, and put together again by the receiver.
Servers keep track of listeners and connected clients, clients keep track of the servers they listen
to and of the one they are connected to.

- `src/` is the protocol, verified with [Verus](https://github.com/verus-lang/verus). It decides
  what is sent and what a received datagram means, but never touches a socket, a clock or a thread.
  - `packet` has everything about a single peer: the layout of datagrams (`wire`), splitting packets
    (`parts`, `serialize`), sending them (`queue`, `send`, `send_buffer`, `round`) and receiving them
    (`receive`, `receive_buffer`).
  - `net` has the server and the client that check their compatibility first.
  - `client` and `server` are simpler ones that do not.
  - The functions that start with `law_` state what holds across several functions.
- `tests/` runs the library.
- `app/` adds sockets, threads and the archiving of packets.
