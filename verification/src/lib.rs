//! The logic of an actor-style TCP client: commands queued on a bounded channel, a writer that
//! carries them out in order, and the rules by which calls on the client succeed or fail.
pub mod call;
pub mod channel;
pub mod client;
pub mod connect;
pub mod crowd;
pub mod error;
pub mod payload;
pub mod phase;
pub mod reader;
pub mod session;
pub mod state;
pub mod wire;
pub mod writer;

pub use client::TcpClient;
pub use error::Result;
pub use state::State;
