//! Verified core of a round-robin load balancer made of a manager, servers
//! that register with it, and clients that ask it for a server.
//!
//! The library holds what the three programs decide: which message a
//! received text is, how each node's state changes on it, the texts the
//! nodes send, the command lines they accept, and the rhythm of a client's
//! connect/disconnect cycle. Sockets, timers and logging stay with the
//! programs that drive these functions.

pub mod cli;
pub mod client;
pub mod json;
pub mod manager;
pub mod protocol;
pub mod server;
pub mod table;
