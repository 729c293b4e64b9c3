use semver::Version;
use tipt_node::client::{
    accept, answer_handshake, is_acceptable, AcceptStep, Accepted, Client, ClientAccept, Outgoing,
    Received, Timer, CLIENT_HANDSHAKE_TIMEOUT_SECS,
};
use tipt_node::protocol::{NodePacket, NodeResponse};
use websocket::{CloseData, OwnedMessage};

fn binary(data: &[u8]) -> OwnedMessage {
    OwnedMessage::Binary(data.to_vec())
}

fn queue(client: &mut Client) -> Vec<OwnedMessage> {
    match client.poll() {
        Outgoing::Queue(messages) => messages,
        _ => unreachable!(),
    }
}

fn close_message(status_code: u16, reason: &str) -> OwnedMessage {
    OwnedMessage::Close(Some(CloseData {
        status_code,
        reason: reason.to_string(),
    }))
}

fn closing(client: &mut Client) -> OwnedMessage {
    match client.poll() {
        Outgoing::Close(message) => message,
        _ => unreachable!(),
    }
}

#[test]
fn messages_are_sent_in_order() {
    let mut client = Client::new(100);
    assert!(!client.has_outgoing());
    assert_eq!(queue(&mut client), vec![]);
    client.send_msg(OwnedMessage::Text("a".to_string()));
    client.send(Some(vec![1, 2]));
    client.send(None);
    assert_eq!(
        client.receive(Some(OwnedMessage::Ping(vec![9]))),
        Received::Continue
    );
    client.send(Some(vec![3]));
    assert!(client.has_outgoing());
    assert_eq!(
        queue(&mut client),
        vec![
            OwnedMessage::Text("a".to_string()),
            binary(&[1, 2]),
            OwnedMessage::Pong(vec![9]),
            binary(&[3]),
        ]
    );
    assert!(!client.has_outgoing());
    client.send(Some(vec![4]));
    assert_eq!(queue(&mut client), vec![binary(&[4])]);
    assert_eq!(queue(&mut client), vec![]);
}

#[test]
fn a_closed_client_sends_one_close_message() {
    let mut client = Client::new(100);
    assert!(!client.is_closed());
    client.send(Some(vec![1]));
    client.close(1000, "bye".to_string());
    assert!(client.is_closed());
    assert!(client.has_outgoing());
    client.send(Some(vec![2]));
    assert_eq!(closing(&mut client), close_message(1000, "bye"));
    client.send_msg(OwnedMessage::Text("a".to_string()));
    assert!(!client.has_outgoing());
    assert!(matches!(client.poll(), Outgoing::Flush));
    client.close(1001, "gone".to_string());
    assert!(!client.has_outgoing());
    assert!(matches!(client.poll(), Outgoing::Flush));
    assert!(client.is_closed());
}

#[test]
fn the_latest_close_counts() {
    let mut client = Client::new(100);
    client.close(1000, "bye".to_string());
    client.close(1001, "gone".to_string());
    assert_eq!(closing(&mut client), close_message(1001, "gone"));
    assert!(matches!(client.poll(), Outgoing::Flush));
}

#[test]
fn a_closed_client_receives_no_messages() {
    let mut client = Client::new(3);
    client.close(1000, "bye".to_string());
    let messages = vec![
        OwnedMessage::Ping(vec![1]),
        OwnedMessage::Text("a".to_string()),
        binary(&[0; 9]),
    ];
    for message in messages {
        let message = Some(message);
        assert!(client.handles(&message));
        assert_eq!(client.receive(message), Received::Wait);
    }
    assert_eq!(closing(&mut client), close_message(1000, "bye"));
    assert_eq!(client.receive(None), Received::Finished);
}

#[test]
fn packets_that_are_too_large_close_the_connection() {
    let mut client = Client::new(120);
    let large = Some(binary(&[0; 121]));
    assert!(client.handles(&large));
    assert_eq!(client.receive(large), Received::Wait);
    assert!(client.is_closed());
    assert_eq!(
        closing(&mut client),
        close_message(1009, "Packet too large (exceeds 120 bytes)")
    );
    let mut client = Client::new(0);
    assert_eq!(client.receive(Some(binary(&[0]))), Received::Wait);
    assert_eq!(
        closing(&mut client),
        close_message(1009, "Packet too large (exceeds 0 bytes)")
    );
}

#[test]
fn the_end_of_the_socket_ends_the_client() {
    let mut client = Client::new(100);
    assert!(client.handles(&None));
    assert_eq!(client.receive(None), Received::Finished);
    assert!(!client.is_closed());
}

#[test]
fn messages_without_a_rule() {
    let client = Client::new(3);
    assert!(client.handles(&Some(OwnedMessage::Ping(vec![]))));
    assert!(client.handles(&Some(binary(&[1, 2, 3, 4]))));
    assert!(!client.handles(&Some(binary(&[1, 2, 3]))));
    assert!(!client.handles(&Some(OwnedMessage::Text("a".to_string()))));
    assert!(!client.handles(&Some(OwnedMessage::Pong(vec![]))));
    assert!(!client.handles(&Some(OwnedMessage::Close(None))));
}

fn handshake(id: u8, version: &str) -> OwnedMessage {
    let mut data = vec![0x84, 0xa4];
    data.extend(b"body");
    data.extend([0x81, 0xa3]);
    data.extend(b"ver");
    data.push(0xa0 + version.len() as u8);
    data.extend(version.as_bytes());
    data.push(0xa2);
    data.extend(b"id");
    data.extend([0xcc, id]);
    data.push(0xa4);
    data.extend(b"pakt");
    data.push(0);
    data.push(0xa4);
    data.extend(b"reqt");
    data.push(0);
    OwnedMessage::Binary(data)
}

fn reply(packet: NodePacket) -> (u8, String, bool) {
    match packet {
        NodePacket::Response(id, Ok(NodeResponse::Handshake { version, compatible })) => {
            (id, version.to_string(), compatible)
        }
        NodePacket::Response(_, Err(_)) => unreachable!(),
    }
}

#[test]
fn a_compatible_client_is_accepted() {
    let mut state = ClientAccept::new();
    let message = Some(handshake(200, "1.4.2"));
    assert!(is_acceptable(&message));
    match accept(&mut state, message, 50) {
        Accepted::Client(mut client, packet) => {
            assert_eq!(reply(packet), (200, "1.0.0".to_string(), true));
            assert!(!client.is_closed());
            assert_eq!(queue(&mut client), vec![]);
            assert!(client.handles(&Some(binary(&[0; 51]))));
            assert!(!client.handles(&Some(binary(&[0; 50]))));
        }
        _ => unreachable!(),
    }
    assert_eq!(state, ClientAccept { timeout: true, did_accept: true });
}

#[test]
fn an_incompatible_client_is_told_so() {
    for version in ["2.0.0", "0.9.0", "1.0.0-beta"] {
        let mut state = ClientAccept::new();
        match accept(&mut state, Some(handshake(3, version)), 50) {
            Accepted::Rejected(packet) => {
                assert_eq!(reply(packet), (3, "1.0.0".to_string(), false));
            }
            _ => unreachable!(),
        }
        assert_eq!(state, ClientAccept { timeout: true, did_accept: false });
    }
}

#[test]
fn handshakes_are_answered_by_their_version() {
    let answer = answer_handshake(5, &Version::parse("1.1.0").unwrap(), 9);
    assert!(matches!(answer, Accepted::Client(..)));
    let answer = answer_handshake(5, &Version::parse("3.1.0").unwrap(), 9);
    assert!(matches!(answer, Accepted::Rejected(..)));
}

#[test]
fn anything_else_is_ignored() {
    let messages = vec![
        None,
        Some(OwnedMessage::Text("hello".to_string())),
        Some(OwnedMessage::Ping(vec![])),
        Some(OwnedMessage::Close(None)),
        Some(binary(&[])),
        Some(binary(&[0x80])),
        Some(handshake(3, "one")),
    ];
    for message in messages {
        let mut state = ClientAccept::new();
        assert!(is_acceptable(&message));
        assert!(matches!(accept(&mut state, message, 50), Accepted::Ignored));
        assert_eq!(state, ClientAccept::new());
    }
    // a sign-in request
    let mut data = vec![0x84, 0xa2];
    data.extend(b"id\x00\xa4pakt\x00\xa4reqt\x02\xa4body\xc0");
    assert!(!is_acceptable(&Some(binary(&data))));
}

#[test]
fn late_handshakes() {
    assert_eq!(CLIENT_HANDSHAKE_TIMEOUT_SECS, 3);
    let mut state = ClientAccept::new();
    assert_eq!(state, ClientAccept { timeout: true, did_accept: false });
    assert_eq!(state.poll(Timer::NotReady), AcceptStep::Proceed);
    assert_eq!(state.poll(Timer::Elapsed), AcceptStep::Drop);
    let mut state = ClientAccept::new();
    assert_eq!(state.poll(Timer::Failed), AcceptStep::Fail);
}

#[test]
fn handshakes_in_time() {
    let mut state = ClientAccept::new();
    accept(&mut state, Some(handshake(3, "1.0.0")), 50);
    assert_eq!(state.poll(Timer::NotReady), AcceptStep::Proceed);
    assert_eq!(state, ClientAccept { timeout: true, did_accept: true });
    assert_eq!(state.poll(Timer::Elapsed), AcceptStep::Proceed);
    assert_eq!(state, ClientAccept { timeout: false, did_accept: true });
    assert_eq!(state.poll(Timer::Elapsed), AcceptStep::Proceed);
    assert_eq!(state.poll(Timer::Failed), AcceptStep::Proceed);
}
