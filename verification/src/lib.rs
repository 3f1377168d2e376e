//! A real-time multi-user chat: the wire codec, the per-connection reader and
//! the broadcast hub, with the decisions of the terminal client.

pub mod address;
pub mod codec;
pub mod event;
pub mod frame;
pub mod handler;
pub mod hub;
pub mod inbox;
pub mod input;
pub mod json;
pub mod laws;
pub mod listener;
pub mod message;
pub mod mode;
pub mod registry;
pub mod session;
pub mod widgets;
