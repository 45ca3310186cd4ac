//! End-to-end scenarios over the server core and the client core, with
//! every message passed through the real wire encoding.

use lagnet::client::ClientData;
use lagnet::frame::{Message, ToFrame};
use lagnet::server::authoritative::AuthoritativeServerState;
use lagnet::state::{ClientState, Position, Rotation, Transform};

/// Encode a message into its frame bytes and decode it back, as the
/// peer at the other end of the socket would see it.
fn over_wire(message: &Message) -> Message {
    let bytes = message.to_frame().to_bytes();
    Message::read_slice(bytes.as_slice()).unwrap()
}

/// Drain every message the server owes to `token`, decoded off the wire.
fn drain_server_queue(server: &mut AuthoritativeServerState, token: u32) -> Vec<Message> {
    let mut out = Vec::new();
    while let Some(message) = server.pop_send_message(token) {
        out.push(over_wire(&message));
    }
    out
}

/// Feed a client's next outbound frame to the server as its socket
/// bytes, dispatching it under the client's token.
fn client_writes_to_server(
    client: &mut ClientData,
    server: &mut AuthoritativeServerState,
    token: u32,
) {
    let frame = client.pop_send_frame().expect("client had nothing to send");
    let message = Message::read_slice(frame.to_bytes().as_slice()).unwrap();
    server.handle_message(token, message);
}

#[test]
fn solo_connect() {
    let mut server = AuthoritativeServerState::new();
    let token = server.allocate_client().unwrap();
    assert_eq!(token, 2);
    server.on_new_client_registered(token);
    server.tick();

    let mut client = ClientData::new();
    let delivered = drain_server_queue(&mut server, token);
    assert_eq!(delivered.len(), 2);
    // The first frame is the id assignment; the second the first
    // broadcast snapshot.
    assert_eq!(
        delivered[0],
        Message::ClientUpdate(ClientState::new(2))
    );
    for message in delivered {
        client.on_message_received(message);
    }
    assert_eq!(client.id, 2);

    client.set_position(Position(1, 2, 3));
    client.tick();
    client_writes_to_server(&mut client, &mut server, token);
    server.tick();

    let delivered = drain_server_queue(&mut server, token);
    assert_eq!(
        delivered,
        vec![Message::GameStateUpdate(vec![ClientState {
            id: 2,
            position: Position(1, 2, 3),
            rotation: Rotation(0),
        }])]
    );
}

#[test]
fn two_clients_one_moves() {
    let mut server = AuthoritativeServerState::new();
    let t1 = server.allocate_client().unwrap();
    server.on_new_client_registered(t1);
    let t2 = server.allocate_client().unwrap();
    server.on_new_client_registered(t2);
    assert_eq!((t1, t2), (2, 3));
    server.tick();
    let mut c1 = ClientData::new();
    let mut c2 = ClientData::new();
    for m in drain_server_queue(&mut server, t1) {
        c1.on_message_received(m);
    }
    for m in drain_server_queue(&mut server, t2) {
        c2.on_message_received(m);
    }
    assert_eq!(c1.id, 2);
    assert_eq!(c2.id, 3);

    c1.set_transform(Transform {
        position: Position(10, 0, 0),
        rotation: Rotation(90),
    });
    c1.tick();
    client_writes_to_server(&mut c1, &mut server, t1);
    server.tick();

    let expected = Message::GameStateUpdate(vec![
        ClientState {
            id: 2,
            position: Position(10, 0, 0),
            rotation: Rotation(90),
        },
        ClientState {
            id: 3,
            position: Position(0, 0, 0),
            rotation: Rotation(0),
        },
    ]);
    assert_eq!(drain_server_queue(&mut server, t1), vec![expected.clone()]);
    assert_eq!(drain_server_queue(&mut server, t2), vec![expected]);
}

#[test]
fn imposter() {
    let mut server = AuthoritativeServerState::new();
    let t1 = server.allocate_client().unwrap();
    server.on_new_client_registered(t1);
    let t2 = server.allocate_client().unwrap();
    server.on_new_client_registered(t2);
    server.tick();
    drain_server_queue(&mut server, t1);
    drain_server_queue(&mut server, t2);

    // Client 2 forges an update under client 3's id.
    let forged = Message::ClientUpdate(ClientState {
        id: 3,
        position: Position(99, 99, 99),
        rotation: Rotation(0),
    });
    server.handle_message(t1, over_wire(&forged));
    server.tick();

    // The forged record was dropped: id 3 keeps its last legitimate
    // value and no broadcast was emitted for the frame.
    assert_eq!(
        server.get_game_state_entry(3),
        Some(ClientState::new(3))
    );
    assert_eq!(drain_server_queue(&mut server, t1), vec![]);
    assert_eq!(drain_server_queue(&mut server, t2), vec![]);
}

#[test]
fn departure() {
    let mut server = AuthoritativeServerState::new();
    let t1 = server.allocate_client().unwrap();
    server.on_new_client_registered(t1);
    let t2 = server.allocate_client().unwrap();
    server.on_new_client_registered(t2);
    server.tick();
    drain_server_queue(&mut server, t1);
    drain_server_queue(&mut server, t2);

    // Client 3's socket closes.
    server.on_hangup(t2);
    server.tick();

    let delivered = drain_server_queue(&mut server, t1);
    assert_eq!(
        delivered,
        vec![Message::GameStateUpdate(vec![ClientState::new(2)])]
    );
    match &delivered[0] {
        Message::GameStateUpdate(entries) => {
            assert!(entries.iter().all(|e| e.id != 3));
        }
        _ => panic!(),
    }
    // The departed client is owed nothing.
    assert_eq!(drain_server_queue(&mut server, t2), vec![]);
}

#[test]
fn text_broadcast() {
    let mut server = AuthoritativeServerState::new();
    let mut tokens = Vec::new();
    for _ in 0..3 {
        let t = server.allocate_client().unwrap();
        server.on_new_client_registered(t);
        tokens.push(t);
    }
    server.tick();
    for &t in &tokens {
        drain_server_queue(&mut server, t);
    }

    let text = Message::new_text_message(String::from("hi"));
    server.handle_message(tokens[0], over_wire(&text));
    server.tick();

    // Every client, the sender included, receives the line exactly once.
    for &t in &tokens {
        let delivered = drain_server_queue(&mut server, t);
        assert_eq!(
            delivered,
            vec![Message::new_text_message(String::from("hi"))]
        );
    }
    // The broadcast mailbox was cleared: the next tick delivers nothing.
    server.tick();
    for &t in &tokens {
        assert_eq!(drain_server_queue(&mut server, t), vec![]);
    }
}

#[test]
fn malformed_frame_rejected() {
    // A peer opens with zeroes: the codec reports the bad magic word and
    // the orchestrator drops the connection; the other stays untouched.
    let mut server = AuthoritativeServerState::new();
    let t1 = server.allocate_client().unwrap();
    server.on_new_client_registered(t1);
    let t2 = server.allocate_client().unwrap();
    server.on_new_client_registered(t2);
    server.tick();
    drain_server_queue(&mut server, t1);
    drain_server_queue(&mut server, t2);

    let mut garbage = vec![0x00, 0x00, 0x00, 0x00];
    garbage.extend_from_slice(&[0x17, 0x2A, 0x00, 0x31, 0x09, 0x44]);
    let decode = Message::read_slice(garbage.as_slice());
    assert_eq!(decode, Err(lagnet::frame::DecodeError::BadMagic));
    server.on_hangup(t1);
    assert!(!server.is_client_connected(t1));
    assert!(server.is_client_connected(t2));

    server.tick();
    let delivered = drain_server_queue(&mut server, t2);
    assert_eq!(
        delivered,
        vec![Message::GameStateUpdate(vec![ClientState::new(3)])]
    );
}

#[test]
fn slab_is_capped() {
    let mut server = AuthoritativeServerState::new();
    for expected in 2..130u32 {
        assert_eq!(server.allocate_client(), Some(expected));
    }
    assert_eq!(server.allocate_client(), None);
    server.on_hangup(77);
    assert_eq!(server.allocate_client(), Some(77));
}

#[test]
fn ping_is_dropped() {
    let mut server = AuthoritativeServerState::new();
    let t = server.allocate_client().unwrap();
    server.on_new_client_registered(t);
    server.tick();
    drain_server_queue(&mut server, t);

    server.handle_message(t, over_wire(&Message::Ping));
    server.tick();
    assert_eq!(drain_server_queue(&mut server, t), vec![]);
}

#[test]
fn game_state_update_from_client_is_dropped() {
    let mut server = AuthoritativeServerState::new();
    let t = server.allocate_client().unwrap();
    server.on_new_client_registered(t);
    server.tick();
    drain_server_queue(&mut server, t);

    let forged = Message::GameStateUpdate(vec![ClientState {
        id: 50,
        position: Position(1, 1, 1),
        rotation: Rotation(0),
    }]);
    server.handle_message(t, over_wire(&forged));
    server.tick();
    assert_eq!(server.get_game_state_entry(50), None);
    assert_eq!(drain_server_queue(&mut server, t), vec![]);
}

#[test]
fn tick_reports_writable_interest() {
    let mut server = AuthoritativeServerState::new();
    let t = server.allocate_client().unwrap();
    server.on_new_client_registered(t);
    let dirs = server.tick();
    // One connected client with pending frames: readable and writable.
    assert_eq!(dirs.len(), 1);
    assert_eq!(dirs[0], (t, true));
    drain_server_queue(&mut server, t);
    let dirs = server.tick();
    assert_eq!(dirs, vec![(t, false)]);
}

#[test]
fn unwritten_message_is_retried_first() {
    let mut server = AuthoritativeServerState::new();
    let t = server.allocate_client().unwrap();
    server.on_new_client_registered(t);
    server.tick();

    // The write of the first frame would block: it goes back to the
    // front of the queue and comes out first next time.
    let first = server.pop_send_message(t).unwrap();
    let copy = over_wire(&first);
    server.push_front_send_message(t, first);
    let again = server.pop_send_message(t).unwrap();
    assert_eq!(over_wire(&again), copy);
}

#[test]
fn client_data_intercepts_id_assignment() {
    let mut client = ClientData::new();
    assert_eq!(client.id, 0);
    assert!(client.pop_received_messages().is_none());

    client.on_message_received(Message::ClientUpdate(ClientState::new(5)));
    // The id latch is not surfaced to the application.
    assert_eq!(client.id, 5);
    assert!(client.pop_received_messages().is_none());

    client.on_message_received(Message::new_text_message(String::from("hello")));
    let received = client.pop_received_messages().unwrap();
    assert_eq!(
        received,
        vec![Message::new_text_message(String::from("hello"))]
    );
    // The queue was swapped out whole.
    assert!(client.pop_received_messages().is_none());
}

#[test]
fn client_data_reports_transform_once() {
    let mut client = ClientData::new();
    client.on_message_received(Message::ClientUpdate(ClientState::new(2)));
    client.set_rotation(Rotation(45));
    assert_eq!(client.get_rotation(), Rotation(45));
    assert_eq!(client.get_position(), Position(0, 0, 0));
    client.tick();
    assert!(client.has_messages_to_send());

    let frame = client.pop_send_frame().unwrap();
    let message = Message::read_slice(frame.to_bytes().as_slice()).unwrap();
    assert_eq!(
        message,
        Message::ClientUpdate(ClientState {
            id: 2,
            position: Position(0, 0, 0),
            rotation: Rotation(45),
        })
    );
    // The dirty flag was cleared: a second tick queues nothing.
    client.tick();
    assert!(client.pop_send_frame().is_none());
}

#[test]
fn client_send_message_queues_frame() {
    let mut client = ClientData::new();
    let text = Message::new_text_message(String::from("Hello, world!"));
    client.send_message(&text);
    let frame = client.pop_send_frame().unwrap();
    let message = Message::read_slice(frame.to_bytes().as_slice()).unwrap();
    assert_eq!(message, text);
}

#[test]
fn client_reconstructs_game_state_from_broadcast() {
    let mut server = AuthoritativeServerState::new();
    let t = server.allocate_client().unwrap();
    server.on_new_client_registered(t);
    server.tick();

    let mut client = ClientData::new();
    for m in drain_server_queue(&mut server, t) {
        client.on_message_received(m);
    }
    let received = client.pop_received_messages().unwrap();
    let mut local = lagnet::state::GameState::new();
    for message in received {
        if let Message::GameStateUpdate(entries) = message {
            local.update_from_vec(&entries);
        }
    }
    assert_eq!(local.get(2), Some(ClientState::new(2)));
}
