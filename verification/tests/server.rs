use bytes::Bytes;
use std::io::{Error, ErrorKind};
use zwiesel::server::{message_event, message_frame, serialized_frame};
use zwiesel::{ClientId, ForeverPending, Message, MessageError, Server, ServerError, ServerEvent};

/// A text message: its frame is the UTF-8 encoding of the text; empty text
/// cannot be sent.
#[derive(Debug, PartialEq)]
struct Text(String);

impl Message for Text {
    fn serialize(&self) -> Result<Bytes, MessageError> {
        if self.0.is_empty() {
            Err(MessageError::Serialize)
        } else {
            Ok(Bytes::from(self.0.clone().into_bytes()))
        }
    }

    fn deserialize(bytes: Bytes) -> Result<Self, MessageError> {
        String::from_utf8(bytes.to_vec()).map(Text).map_err(|_| MessageError::Deserialize)
    }
}

fn io_error(text: &str) -> Error {
    Error::new(ErrorKind::Other, text.to_string())
}

fn connect(server: &mut Server<&'static str>, conn: &'static str) -> ClientId {
    match server.on_connection::<Text>(Ok(conn)) {
        Ok(ServerEvent::NewConnection(id)) => id,
        other => panic!("unexpected outcome: {:?}", other),
    }
}

fn sorted(mut ids: Vec<ClientId>) -> Vec<u64> {
    let mut raw: Vec<u64> = ids.drain(..).map(|id| id.0).collect();
    raw.sort();
    raw
}

#[test]
fn client_id_is_written_in_hex_with_prefix() {
    assert_eq!(ClientId(0).to_string(), "0x0");
    assert_eq!(ClientId(9).to_string(), "0x9");
    assert_eq!(ClientId(255).to_string(), "0xff");
    assert_eq!(ClientId(0x1234_abcd).to_string(), "0x1234abcd");
    assert_eq!(ClientId(u64::MAX).to_string(), "0xffffffffffffffff");
    for n in [1u64, 16, 17, 4096, 0xdead_beef, 1 << 63] {
        assert_eq!(ClientId(n).to_string(), format!("{:#x}", n));
    }
}

#[test]
fn new_server_has_no_clients() {
    let server: Server<&'static str> = Server::new();
    assert!(server.clients().is_empty());
}

#[test]
fn accepted_connection_is_registered() {
    let mut server: Server<&'static str> = Server::new();
    let id = connect(&mut server, "a");
    assert_eq!(server.clients(), vec![id]);
    assert_eq!(*server.connection(id).unwrap(), "a");
}

#[test]
fn failed_accept_is_reported_and_changes_nothing() {
    let mut server: Server<&'static str> = Server::new();
    let id = connect(&mut server, "a");
    let res = server.on_connection::<Text>(Err(io_error("refused")));
    match res {
        Err(ServerError::Accept(e)) => assert_eq!(e.to_string(), "refused"),
        other => panic!("unexpected outcome: {:?}", other),
    }
    assert_eq!(server.clients(), vec![id]);
}

#[test]
fn connected_clients_get_distinct_ids() {
    let mut server: Server<&'static str> = Server::new();
    let mut ids = Vec::new();
    for _ in 0..500 {
        ids.push(connect(&mut server, "c"));
    }
    let mut raw = sorted(ids);
    raw.dedup();
    assert_eq!(raw.len(), 500);
    assert_eq!(sorted(server.clients()), raw);
}

#[test]
fn frame_becomes_message_event() {
    let mut server: Server<&'static str> = Server::new();
    let id = connect(&mut server, "a");
    let res = server.on_frame::<Text>(id, Some(Ok(Bytes::from_static(b"hello"))));
    match res {
        Ok(ServerEvent::Message(from, Text(t))) => {
            assert_eq!(from, id);
            assert_eq!(t, "hello");
        }
        other => panic!("unexpected outcome: {:?}", other),
    }
    assert_eq!(server.clients(), vec![id]);
}

#[test]
fn unreadable_frame_is_an_error_and_client_stays() {
    let mut server: Server<&'static str> = Server::new();
    let id = connect(&mut server, "a");
    let res = server.on_frame::<Text>(id, Some(Ok(Bytes::from_static(&[0xff, 0xfe]))));
    assert!(matches!(res, Err(ServerError::Message(MessageError::Deserialize))));
    assert_eq!(server.clients(), vec![id]);
}

#[test]
fn closed_connection_disconnects_client() {
    let mut server: Server<&'static str> = Server::new();
    let a = connect(&mut server, "a");
    let b = connect(&mut server, "b");
    let res = server.on_frame::<Text>(a, None);
    match res {
        Ok(ServerEvent::Disconnect(id, None)) => assert_eq!(id, a),
        other => panic!("unexpected outcome: {:?}", other),
    }
    assert_eq!(server.clients(), vec![b]);
}

#[test]
fn read_error_disconnects_client() {
    let mut server: Server<&'static str> = Server::new();
    let a = connect(&mut server, "a");
    let res = server.on_frame::<Text>(a, Some(Err(io_error("reset"))));
    match res {
        Ok(ServerEvent::Disconnect(id, Some(ServerError::ReadFrame(e)))) => {
            assert_eq!(id, a);
            assert_eq!(e.to_string(), "reset");
        }
        other => panic!("unexpected outcome: {:?}", other),
    }
    assert!(server.clients().is_empty());
}

#[test]
fn connection_of_unknown_client_is_refused() {
    let server: Server<&'static str> = Server::new();
    match server.connection(ClientId(42)) {
        Err(ServerError::ClientDoesNotExist(id)) => assert_eq!(id, ClientId(42)),
        other => panic!("unexpected outcome: {:?}", other),
    }
}

#[test]
fn failed_send_disconnects_client() {
    let mut server: Server<&'static str> = Server::new();
    let a = connect(&mut server, "a");
    let b = connect(&mut server, "b");
    assert!(server.on_sent(a, Ok(())).is_ok());
    assert_eq!(sorted(server.clients()), sorted(vec![a, b]));
    match server.on_sent(a, Err(io_error("broken pipe"))) {
        Err(ServerError::SendFrame(e)) => assert_eq!(e.to_string(), "broken pipe"),
        other => panic!("unexpected outcome: {:?}", other),
    }
    assert_eq!(server.clients(), vec![b]);
    assert!(matches!(server.connection(a), Err(ServerError::ClientDoesNotExist(_))));
}

#[test]
fn broadcast_without_failures_keeps_everyone() {
    let mut server: Server<&'static str> = Server::new();
    let a = connect(&mut server, "a");
    let b = connect(&mut server, "b");
    assert!(server.on_broadcast(vec![(a, Ok(())), (b, Ok(()))]).is_ok());
    assert_eq!(sorted(server.clients()), sorted(vec![a, b]));
}

#[test]
fn broadcast_failures_are_reported_and_disconnected() {
    let mut server: Server<&'static str> = Server::new();
    let a = connect(&mut server, "a");
    let b = connect(&mut server, "b");
    let c = connect(&mut server, "c");
    let res = server.on_broadcast(vec![
        (a, Err(io_error("first"))),
        (b, Ok(())),
        (c, Err(io_error("third"))),
    ]);
    let errs = res.unwrap_err();
    assert_eq!(errs.len(), 2);
    match &errs[0] {
        (id, ServerError::SendFrame(e)) => {
            assert_eq!(*id, a);
            assert_eq!(e.to_string(), "first");
        }
        other => panic!("unexpected error: {:?}", other),
    }
    match &errs[1] {
        (id, ServerError::SendFrame(e)) => {
            assert_eq!(*id, c);
            assert_eq!(e.to_string(), "third");
        }
        other => panic!("unexpected error: {:?}", other),
    }
    assert_eq!(server.clients(), vec![b]);
}

#[test]
fn disconnect_twice_is_refused_the_second_time() {
    let mut server: Server<&'static str> = Server::new();
    let a = connect(&mut server, "a");
    let b = connect(&mut server, "b");
    assert!(server.disconnect(a).is_ok());
    assert_eq!(server.clients(), vec![b]);
    match server.disconnect(a) {
        Err(ServerError::ClientDoesNotExist(id)) => assert_eq!(id, a),
        other => panic!("unexpected outcome: {:?}", other),
    }
    assert_eq!(server.clients(), vec![b]);
}

#[test]
fn disconnect_undoes_connection() {
    let mut server: Server<&'static str> = Server::new();
    let a = connect(&mut server, "a");
    let before = server.clients();
    let b = connect(&mut server, "b");
    assert!(server.disconnect(b).is_ok());
    assert_eq!(server.clients(), before);
    assert_eq!(*server.connection(a).unwrap(), "a");
}

#[test]
fn disconnect_all_leaves_no_client() {
    let mut server: Server<&'static str> = Server::new();
    connect(&mut server, "a");
    connect(&mut server, "b");
    server.disconnect_all();
    assert!(server.clients().is_empty());
}

#[test]
fn server_message_event_maps_each_outcome() {
    let id = ClientId(7);
    match message_event(id, Ok(Text("hi".to_string()))) {
        Ok(ServerEvent::Message(from, m)) => {
            assert_eq!(from, id);
            assert_eq!(m, Text("hi".to_string()));
        }
        other => panic!("unexpected outcome: {:?}", other),
    }
    let res = message_event::<Text>(id, Err(MessageError::Deserialize));
    assert!(matches!(res, Err(ServerError::Message(MessageError::Deserialize))));
}

#[test]
fn message_frame_serializes_or_reports() {
    assert_eq!(message_frame(&Text("hey".to_string())).unwrap(), Bytes::from_static(b"hey"));
    let res = message_frame(&Text(String::new()));
    assert!(matches!(res, Err(ServerError::Message(MessageError::Serialize))));
    let res = serialized_frame(Err(MessageError::Serialize));
    assert!(matches!(res, Err(ServerError::Message(MessageError::Serialize))));
    assert_eq!(serialized_frame(Ok(Bytes::from_static(b"x"))).unwrap(), Bytes::from_static(b"x"));
}

#[test]
fn forever_pending_is_never_ready() {
    assert!(!ForeverPending.poll_ready());
}

#[test]
fn outgoing_frame_is_the_serialized_message() {
    let mut server: Server<&'static str> = Server::new();
    let a = connect(&mut server, "a");
    assert_eq!(server.outgoing_frame(a, &Text("hi".to_string())).unwrap(), Bytes::from_static(b"hi"));
    assert_eq!(server.clients(), vec![a]);
}

#[test]
fn unserializable_message_is_reported_and_disconnects() {
    let mut server: Server<&'static str> = Server::new();
    let a = connect(&mut server, "a");
    let b = connect(&mut server, "b");
    let res = server.outgoing_frame(a, &Text(String::new()));
    assert!(matches!(res, Err(ServerError::Message(MessageError::Serialize))));
    assert_eq!(server.clients(), vec![b]);
}

#[test]
fn client_id_text_reads_back() {
    for n in [0u64, 1, 15, 16, 255, 0xabc, 0x1234_5678_9abc_def0, u64::MAX] {
        let text = ClientId(n).to_string();
        assert!(text.starts_with("0x"));
        let digits = &text[2..];
        assert!(n == 0 || !digits.starts_with('0'));
        assert_eq!(u64::from_str_radix(digits, 16), Ok(n));
    }
    assert_ne!(ClientId(0x10).to_string(), ClientId(0x1).to_string());
}

#[test]
fn clients_join_only_by_new_connection() {
    let mut server: Server<&'static str> = Server::new();
    let a = connect(&mut server, "a");
    let _ = server.on_connection::<Text>(Err(io_error("refused")));
    let _ = server.on_frame::<Text>(a, Some(Ok(Bytes::from_static(b"x"))));
    let _ = server.on_sent(a, Ok(()));
    let _ = server.on_broadcast(vec![(a, Ok(()))]);
    assert_eq!(server.clients(), vec![a]);
    let b = connect(&mut server, "b");
    let _ = server.disconnect(a);
    assert_eq!(server.clients(), vec![b]);
}
