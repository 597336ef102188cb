//! The logic of a process server: a peer asks, over one byte stream, for
//! programs to be started and fed, and is told what they print and how they
//! end.

pub mod course;
pub mod endpoint;
pub mod message;
pub mod monitor;
pub mod order;
pub mod proto;
pub mod request;
pub mod session;
pub mod sharing;
pub mod state;
pub mod text;
