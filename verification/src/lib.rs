//! A small framed-message client/server toolkit: the bookkeeping a server keeps
//! about its connected clients, and the decisions that a server and a client take
//! on every network event, written so that a thin asynchronous driver only has to
//! move bytes.
mod addr;
pub mod client;
mod outside;
mod protocol;
pub mod server;

pub use addr::SocketAddress;
pub use client::{ClientError, Event as ClientEvent};
pub use protocol::{Message, MessageError};
pub use server::{ClientId, Event as ServerEvent, ForeverPending, Server, ServerError};
