//! A small in-memory key-value store that speaks a line-oriented wire
//! protocol: the frame codec, the command dispatcher and the store with its
//! expiry policy, each stated over mathematical models and proved.

pub mod clock;
pub mod codec;
pub mod dispatch;
pub mod server;
pub mod store;
pub mod text;
