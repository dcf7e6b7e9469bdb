//! Request/reply calls over an AMQP broker: the decisions of the client and
//! of a replying consumer, verified; connections and I/O stay with the caller.

pub mod pending;
pub mod reply;
pub mod publish;
pub mod client;
pub mod responder;
