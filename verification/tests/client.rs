use bytes::Bytes;
use std::io::{Error, ErrorKind};
use zwiesel::client::{frame_event, message_event, message_frame, on_sent, serialized_frame};
use zwiesel::{ClientError, ClientEvent, Message, MessageError};

/// A message of one byte.
#[derive(Debug, PartialEq)]
struct Byte(u8);

impl Message for Byte {
    fn serialize(&self) -> Result<Bytes, MessageError> {
        Ok(Bytes::from(vec![self.0]))
    }

    fn deserialize(bytes: Bytes) -> Result<Self, MessageError> {
        if bytes.len() == 1 {
            Ok(Byte(bytes[0]))
        } else {
            Err(MessageError::Deserialize)
        }
    }
}

#[test]
fn frame_becomes_message() {
    match frame_event::<Byte>(Some(Ok(Bytes::from_static(&[42])))) {
        Ok(ClientEvent::Message(m)) => assert_eq!(m, Byte(42)),
        other => panic!("unexpected outcome: {:?}", other),
    }
}

#[test]
fn unreadable_frame_is_a_message_error() {
    let res = frame_event::<Byte>(Some(Ok(Bytes::from_static(&[1, 2]))));
    assert!(matches!(res, Err(ClientError::Message(MessageError::Deserialize))));
}

#[test]
fn read_error_is_a_disconnect() {
    let res = frame_event::<Byte>(Some(Err(Error::new(ErrorKind::Other, "reset"))));
    match res {
        Ok(ClientEvent::Disconnect(Some(ClientError::ReadFrame(e)))) => assert_eq!(e.to_string(), "reset"),
        other => panic!("unexpected outcome: {:?}", other),
    }
}

#[test]
fn end_of_stream_is_a_clean_disconnect() {
    assert!(matches!(frame_event::<Byte>(None), Ok(ClientEvent::Disconnect(None))));
}

#[test]
fn client_message_event_maps_each_outcome() {
    assert!(matches!(message_event(Ok(Byte(3))), Ok(ClientEvent::Message(Byte(3)))));
    let res = message_event::<Byte>(Err(MessageError::Deserialize));
    assert!(matches!(res, Err(ClientError::Message(MessageError::Deserialize))));
}

#[test]
fn message_frame_serializes() {
    assert_eq!(message_frame(&Byte(9)).unwrap(), Bytes::from_static(&[9]));
    let res = serialized_frame(Err(MessageError::Serialize));
    assert!(matches!(res, Err(ClientError::Message(MessageError::Serialize))));
}

#[test]
fn send_outcome_is_mapped() {
    assert!(on_sent(Ok(())).is_ok());
    match on_sent(Err(Error::new(ErrorKind::Other, "broken pipe"))) {
        Err(ClientError::SendFrame(e)) => assert_eq!(e.to_string(), "broken pipe"),
        other => panic!("unexpected outcome: {:?}", other),
    }
}
