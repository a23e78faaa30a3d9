//! The protocol of a small networking library on top of UDP.
//!
//! Packets of any size are split into parts that fit into a datagram, sent until the other side
//! has acked every part, and put together again by the receiver. On top of that a server keeps
//! track of listeners and connected clients, and a client keeps track of the servers it listens to.
//!
//! Nothing in here touches a socket, a clock or a thread. Functions that decide what has to be sent
//! hand out datagrams, and functions that depend on what came of sending them take the outcome as an
//! argument. The moment at which something happens is always passed in.

pub mod bytes;
pub mod client;
pub mod config;
pub mod net;
pub mod nonzero;
pub mod packet;
pub mod server;
pub mod sorted;
pub mod time;
