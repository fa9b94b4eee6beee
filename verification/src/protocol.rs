//! The user-defined protocol: how messages become frames and back.
use bytes::Bytes;
use vstd::prelude::*;

verus! {

/// Why a message could not be turned into a frame, or a frame into a message.
#[derive(Debug, Clone, Copy, PartialEq, Eq, Structural)]
pub enum MessageError {
    /// The message could not be serialized.
    Serialize,
    /// The bytes of a frame do not form a message.
    Deserialize,
}

/// A network protocol: implement both directions of the conversion between
/// your message type and the bytes of one frame.
pub trait Message {
    /// Turns this message into the payload of one frame.
    fn serialize(&self) -> Result<Bytes, MessageError>;

    /// Reads a message back from the payload of one frame.
    fn deserialize(bytes: Bytes) -> Result<Self, MessageError>
        where Self: Sized
    ;
}

} // verus!
