//! Verified core of a network throughput tester: test configuration, the
//! control-channel framing, the data-stream packet layout and accounting,
//! result bookkeeping, and the decisions taken by the client and server loops.

pub mod args;
pub mod bytes;
pub mod client;
pub mod clock;
pub mod protocol;
pub mod server;
pub mod stream;
pub mod text;
pub mod utils;
