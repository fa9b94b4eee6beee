//! The client side: what a client decides on each network event.
use crate::addr::SocketAddress;
use crate::protocol::{Message, MessageError};
use bytes::Bytes;
use vstd::prelude::*;

verus! {

/// What went wrong on the client side.
#[derive(Debug)]
pub enum ClientError {
    /// Receiving a frame from the server failed.
    ReadFrame(std::io::Error),
    /// Sending a frame to the server failed.
    SendFrame(std::io::Error),
    /// Connecting to the server at this address failed.
    Connect(SocketAddress, std::io::Error),
    /// The server closed the connection.
    ServerDisconnect,
    /// A message could not be converted to or from a frame.
    Message(MessageError),
}

impl From<MessageError> for ClientError {
    fn from(e: MessageError) -> (err: ClientError) {
        ClientError::Message(e)
    }
}

impl vstd::std_specs::convert::FromSpecImpl<MessageError> for ClientError {
    open spec fn obeys_from_spec() -> bool {
        true
    }

    open spec fn from_spec(e: MessageError) -> ClientError {
        ClientError::Message(e)
    }
}

/// An inbound network event, as the client reports it.
#[derive(Debug)]
pub enum Event<T> where T: Message {
    /// The server sent a message.
    Message(T),
    /// The connection is gone: the server closed it (`None`) or reading from
    /// it failed.
    Disconnect(Option<ClientError>),
}

/// What the read of the next frame from the server comes to: a message, or
/// the end of the connection.
///
/// A frame's payload is handed to `T::deserialize`, and the event is what
/// `message_event` makes of its outcome.
pub fn frame_event<T: Message>(frame: Option<Result<Bytes, std::io::Error>>) -> (res: Result<
    Event<T>,
    ClientError,
>)
    ensures
        match frame {
            Some(Ok(b)) => exists|p: Result<T, MessageError>|
                #[trigger] call_ensures(T::deserialize, (b,), p) && res == message_event_result(p),
            Some(Err(e)) => res == Ok::<Event<T>, ClientError>(
                Event::Disconnect(Some(ClientError::ReadFrame(e))),
            ),
            None => res == Ok::<Event<T>, ClientError>(Event::Disconnect(None)),
        },
{
    match frame {
        Some(Ok(bytes)) => {
            let parsed = T::deserialize(bytes);
            message_event(parsed)
        },
        Some(Err(e)) => Ok(Event::Disconnect(Some(ClientError::ReadFrame(e)))),
        None => Ok(Event::Disconnect(None)),
    }
}

/// The event that a frame's payload gives once `T::deserialize` has read it:
/// the message, or the reason it could not be read.
pub fn message_event<T: Message>(parsed: Result<T, MessageError>) -> (res: Result<Event<T>, ClientError>)
    ensures
        res == message_event_result(parsed),
{
    match parsed {
        Ok(m) => Ok(Event::Message(m)),
        Err(e) => Err(ClientError::from(e)),
    }
}

/// What a deserialization outcome gives: the message event, or a `Message`
/// error.
pub open spec fn message_event_result<T: Message>(parsed: Result<T, MessageError>) -> Result<
    Event<T>,
    ClientError,
> {
    match parsed {
        Ok(m) => Ok(Event::Message(m)),
        Err(e) => Err(ClientError::Message(e)),
    }
}

/// Turns a message into the payload of a frame to send: the message is handed
/// to `T::serialize`, and the result is what `serialized_frame` makes of its
/// outcome.
pub fn message_frame<T: Message>(message: &T) -> (res: Result<Bytes, ClientError>)
    ensures
        exists|r: Result<Bytes, MessageError>|
            #[trigger] call_ensures(T::serialize, (message,), r) && res == serialized_frame_result(r),
{
    let serialized = message.serialize();
    serialized_frame(serialized)
}

/// What a serialization outcome gives: the frame's payload, or a `Message`
/// error.
pub open spec fn serialized_frame_result(serialized: Result<Bytes, MessageError>) -> Result<
    Bytes,
    ClientError,
> {
    match serialized {
        Ok(b) => Ok(b),
        Err(e) => Err(ClientError::Message(e)),
    }
}

/// The frame to send once `T::serialize` has run: its payload, or the reason
/// the message could not be serialized.
pub fn serialized_frame(serialized: Result<Bytes, MessageError>) -> (res: Result<Bytes, ClientError>)
    ensures
        res == serialized_frame_result(serialized),
{
    match serialized {
        Ok(b) => Ok(b),
        Err(e) => Err(ClientError::from(e)),
    }
}

/// What sending a frame to the server comes to.
pub fn on_sent(sent: Result<(), std::io::Error>) -> (res: Result<(), ClientError>)
    ensures
        match sent {
            Ok(_) => res is Ok,
            Err(e) => res == Err::<(), ClientError>(ClientError::SendFrame(e)),
        },
{
    match sent {
        Ok(()) => Ok(()),
        Err(e) => Err(ClientError::SendFrame(e)),
    }
}

} // verus!
