use hmac::{Hmac, Mac};
use sha2::Sha256;
use velocity_proxy::connection::{shutdown_actions, Action, Connection, Event, Phase};
use velocity_proxy::io::ByteReader;
use velocity_proxy::packets::id::Managed;
use velocity_proxy::packets::packet_read::ReadPacketExt;
use velocity_proxy::packets::VelocityLoginPluginResponse;
use velocity_proxy::types::{MCData, VarInt};

fn varint(value: i32) -> Vec<u8> {
    let mut out = Vec::new();
    VarInt::new(value).unwrap().write(&mut out).unwrap();
    out
}

fn string(text: &str) -> Vec<u8> {
    let mut out = varint(text.len() as i32);
    out.extend_from_slice(text.as_bytes());
    out
}

fn frame(id: u8, body: &[u8]) -> Vec<u8> {
    let mut out = varint(body.len() as i32 + 1);
    out.push(id);
    out.extend_from_slice(body);
    out
}

fn handshake_frame(protocol: i32, address: &str, port: u16, next: i32) -> Vec<u8> {
    let mut body = varint(protocol);
    body.extend(string(address));
    body.extend_from_slice(&port.to_be_bytes());
    body.extend(varint(next));
    frame(0x00, &body)
}

fn login_start_frame(name: &str) -> Vec<u8> {
    frame(0x00, &string(name))
}

fn request_frame(message_id: i32) -> Vec<u8> {
    let mut body = varint(message_id);
    body.extend(string("velocity:player_info"));
    body.push(0x01);
    frame(0x04, &body)
}

fn disconnect_frame(id: u8, reason: &str) -> Vec<u8> {
    frame(id, &string(&format!("{{\"text\":\"{reason}\",\"color\":\"red\"}}")))
}

fn payload(address: &str, uuid: u128, name: &str, properties: &[(&str, &str, Option<&str>)]) -> Vec<u8> {
    let mut raw = varint(1);
    raw.extend(string(address));
    raw.extend_from_slice(&uuid.to_be_bytes());
    raw.extend(string(name));
    raw.extend(varint(properties.len() as i32));
    for (name, value, signature) in properties {
        raw.extend(string(name));
        raw.extend(string(value));
        match signature {
            Some(signature) => {
                raw.push(0x01);
                raw.extend(string(signature));
            }
            None => raw.push(0x00),
        }
    }
    raw
}

fn sign(secret: &str, raw: &[u8]) -> [u8; 32] {
    let mut mac = Hmac::<Sha256>::new_from_slice(secret.as_bytes()).unwrap();
    mac.update(raw);
    let tag = mac.finalize().into_bytes();
    let mut out = [0u8; 32];
    out.copy_from_slice(&tag);
    out
}

fn response_frame(message_id: i32, signature: &[u8; 32], raw: &[u8]) -> Vec<u8> {
    let mut body = varint(message_id);
    body.push(0x01);
    body.extend_from_slice(signature);
    body.extend_from_slice(raw);
    frame(0x02, &body)
}

fn signed_response(secret: &str, message_id: i32) -> Vec<u8> {
    let raw = payload(
        "10.0.0.1",
        0x0123456789abcdef_0123456789abcdef,
        "Alice",
        &[("textures", "VAL", None)],
    );
    response_frame(message_id, &sign(secret, &raw), &raw)
}

fn paired(connection_id: i32) -> Connection {
    Connection::initiate().with_backend(connection_id)
}

fn to_client(actions: &[Action]) -> Vec<Vec<u8>> {
    actions
        .iter()
        .filter_map(|a| match a {
            Action::SendClient(bytes) => Some(bytes.clone()),
            Action::SendBackend(_) => None,
        })
        .collect()
}

fn to_backend(actions: &[Action]) -> Vec<Vec<u8>> {
    actions
        .iter()
        .filter_map(|a| match a {
            Action::SendBackend(bytes) => Some(bytes.clone()),
            Action::SendClient(_) => None,
        })
        .collect()
}

const REWRITTEN: &str =
    "p.ex\010.0.0.1\0123456789abcdef0123456789abcdef\0[{\"name\":\"textures\",\"value\":\"VAL\"}]";

#[test]
fn status_passthrough() {
    let mut conn = paired(1);
    assert_eq!(conn.phase(), Phase::Paired);
    let handshake = handshake_frame(765, "proxy.example", 25565, 1);
    let mut sent = handshake.clone();
    sent.extend_from_slice(&[0x01, 0x00]);
    let actions = conn.handle("secret", Event::Received(sent));
    assert_eq!(conn.phase(), Phase::StatusForwarding);
    assert!(to_client(&actions).is_empty());
    assert_eq!(to_backend(&actions), vec![handshake, vec![0x01, 0x00]]);
}

#[test]
fn status_passthrough_in_two_reads() {
    let mut conn = paired(1);
    let handshake = handshake_frame(765, "proxy.example", 25565, 1);
    let actions = conn.handle("secret", Event::Received(handshake.clone()));
    assert_eq!(conn.phase(), Phase::StatusForwarding);
    assert_eq!(actions.len(), 1);
    assert_eq!(to_backend(&actions), vec![handshake]);
    let actions = conn.handle("secret", Event::Received(vec![0x01, 0x00]));
    assert_eq!(conn.phase(), Phase::StatusForwarding);
    assert!(to_client(&actions).is_empty());
    assert_eq!(to_backend(&actions), vec![vec![0x01, 0x00]]);
    let actions = conn.handle("secret", Event::Finished);
    assert!(actions.is_empty());
    assert_eq!(conn.phase(), Phase::Terminated);
}

#[test]
fn successful_login() {
    let mut conn = paired(42);
    let actions = conn.handle("secret", Event::Received(handshake_frame(765, "p.ex", 25565, 2)));
    assert!(actions.is_empty());
    assert_eq!(conn.phase(), Phase::AwaitLoginStart);
    let actions = conn.handle("secret", Event::Received(login_start_frame("Guest")));
    assert_eq!(conn.phase(), Phase::AwaitPluginResponse);
    assert!(to_backend(&actions).is_empty());
    assert_eq!(to_client(&actions), vec![request_frame(42)]);
    let actions = conn.handle("secret", Event::Received(signed_response("secret", 42)));
    assert_eq!(conn.phase(), Phase::Splicing);
    assert!(to_client(&actions).is_empty());
    assert_eq!(
        to_backend(&actions),
        vec![handshake_frame(765, REWRITTEN, 25565, 2), login_start_frame("Alice")]
    );
    let actions = conn.handle("secret", Event::Received(vec![9, 9, 9]));
    assert_eq!(to_backend(&actions), vec![vec![9, 9, 9]]);
    assert_eq!(conn.phase(), Phase::Splicing);
}

#[test]
fn successful_login_byte_by_byte() {
    let mut all = handshake_frame(765, "p.ex", 25565, 2);
    all.extend(login_start_frame("Guest"));
    all.extend(signed_response("secret", 42));
    let mut conn = paired(42);
    let mut client = Vec::new();
    let mut backend = Vec::new();
    for byte in all {
        let actions = conn.handle("secret", Event::Received(vec![byte]));
        client.extend(to_client(&actions));
        backend.extend(to_backend(&actions));
    }
    assert_eq!(conn.phase(), Phase::Splicing);
    assert_eq!(client, vec![request_frame(42)]);
    assert_eq!(
        backend,
        vec![handshake_frame(765, REWRITTEN, 25565, 2), login_start_frame("Alice")]
    );
}

#[test]
fn hmac_failure() {
    let mut conn = paired(42);
    let mut sent = handshake_frame(765, "p.ex", 25565, 2);
    sent.extend(login_start_frame("Guest"));
    conn.handle("secret", Event::Received(sent));
    let raw = payload(
        "10.0.0.1",
        0x0123456789abcdef_0123456789abcdef,
        "Alice",
        &[("textures", "VAL", None)],
    );
    let actions = conn.handle("secret", Event::Received(response_frame(42, &[0u8; 32], &raw)));
    assert_eq!(conn.phase(), Phase::Terminated);
    assert!(to_backend(&actions).is_empty());
    let expected = "{\"text\":\"Failed to verify your identity, please rejoin the server\",\"color\":\"red\"}";
    assert_eq!(to_client(&actions), vec![frame(0x00, &string(expected))]);
    assert_eq!(
        to_client(&actions),
        vec![disconnect_frame(0x00, "Failed to verify your identity, please rejoin the server")]
    );
    assert!(conn.handle("secret", Event::Received(vec![1, 2, 3])).is_empty());
    assert_eq!(conn.phase(), Phase::Terminated);
}

#[test]
fn signature_under_another_secret_is_refused() {
    let mut conn = paired(42);
    let mut sent = handshake_frame(765, "p.ex", 25565, 2);
    sent.extend(login_start_frame("Guest"));
    sent.extend(signed_response("other", 42));
    let actions = conn.handle("secret", Event::Received(sent));
    assert_eq!(conn.phase(), Phase::Terminated);
    assert!(to_backend(&actions).is_empty());
    assert_eq!(to_client(&actions).len(), 2);
    assert_eq!(to_client(&actions)[0], request_frame(42));
}

#[test]
fn transfer_refused() {
    let mut conn = paired(1);
    let actions = conn.handle("secret", Event::Received(handshake_frame(765, "p.ex", 25565, 3)));
    assert!(actions.is_empty());
    assert_eq!(conn.phase(), Phase::Terminated);
}

#[test]
fn unknown_next_state_ends_the_connection() {
    for next in [0, 4, -1, 100] {
        let mut conn = paired(1);
        let actions =
            conn.handle("secret", Event::Received(handshake_frame(765, "p.ex", 25565, next)));
        assert!(actions.is_empty());
        assert_eq!(conn.phase(), Phase::Terminated);
    }
}

#[test]
fn untrusted_peer() {
    let mut client = Connection::initiate();
    let actions = client.reject_untrusted(&handshake_frame(765, "p.ex", 25565, 2)).unwrap();
    let expected = "{\"text\":\"You are not allowed to connect to this server directly!\",\"color\":\"red\"}";
    assert_eq!(to_client(&actions), vec![frame(0x00, &string(expected))]);
    assert!(to_backend(&actions).is_empty());
}

#[test]
fn untrusted_peer_that_asks_for_status_or_transfer_gets_nothing() {
    for next in [1, 3, 7] {
        let mut client = Connection::initiate();
        let actions = client.reject_untrusted(&handshake_frame(765, "p.ex", 25565, next)).unwrap();
        assert!(actions.is_empty());
    }
    let mut client = Connection::initiate();
    assert!(client.reject_untrusted(&[1, 0x05]).unwrap().is_empty());
}

#[test]
fn untrusted_peer_in_pieces() {
    let frame = handshake_frame(765, "p.ex", 25565, 2);
    let mut client = Connection::initiate();
    assert!(client.reject_untrusted(&frame[..3]).is_none());
    assert!(client.reject_untrusted(&frame[3..frame.len() - 1]).is_none());
    let actions = client.reject_untrusted(&frame[frame.len() - 1..]).unwrap();
    assert_eq!(
        to_client(&actions),
        vec![disconnect_frame(0x00, "You are not allowed to connect to this server directly!")]
    );
}

#[test]
fn shutdown_mid_play_without_an_id_sends_nothing() {
    let mut conn = paired(42);
    let mut sent = handshake_frame(765, "p.ex", 25565, 2);
    sent.extend(login_start_frame("Guest"));
    sent.extend(signed_response("secret", 42));
    conn.handle("secret", Event::Received(sent));
    assert_eq!(conn.phase(), Phase::Splicing);
    let actions = conn.handle("secret", Event::Cancelled);
    assert!(actions.is_empty());
    assert_eq!(conn.phase(), Phase::Terminated);
}

#[test]
fn shutdown_mid_play() {
    let mut conn = paired(42);
    let mut sent = handshake_frame(340, "p.ex", 25565, 2);
    sent.extend(login_start_frame("Guest"));
    sent.extend(signed_response("secret", 42));
    conn.handle("secret", Event::Received(sent));
    assert_eq!(conn.phase(), Phase::Splicing);
    let actions = conn.handle("secret", Event::Cancelled);
    assert_eq!(conn.phase(), Phase::Terminated);
    assert!(to_backend(&actions).is_empty());
    let expected = "{\"text\":\"The Proxy is shutting down\",\"color\":\"red\"}";
    assert_eq!(to_client(&actions), vec![frame(0x1a, &string(expected))]);
}

#[test]
fn shutdown_disconnect_by_protocol() {
    for (protocol, id) in [(0, 0x40u8), (47, 0x40), (67, 0x19), (80, 0x1a), (318, 0x1b), (332, 0x1a)] {
        let actions = shutdown_actions(protocol);
        assert_eq!(to_client(&actions), vec![disconnect_frame(id, "The Proxy is shutting down")]);
    }
    for protocol in [341, 765, -1] {
        assert!(shutdown_actions(protocol).is_empty());
    }
}

#[test]
fn shutdown_before_forwarding_changes_nothing() {
    let mut conn = paired(42);
    assert!(conn.handle("secret", Event::Cancelled).is_empty());
    assert_eq!(conn.phase(), Phase::Paired);
    conn.handle("secret", Event::Received(handshake_frame(340, "p.ex", 25565, 2)));
    assert!(conn.handle("secret", Event::Cancelled).is_empty());
    assert_eq!(conn.phase(), Phase::AwaitLoginStart);
    conn.handle("secret", Event::Received(login_start_frame("Guest")));
    assert!(conn.handle("secret", Event::Cancelled).is_empty());
    assert_eq!(conn.phase(), Phase::AwaitPluginResponse);
}

#[test]
fn shutdown_during_status() {
    let mut conn = paired(1);
    conn.handle("secret", Event::Received(handshake_frame(340, "p.ex", 25565, 1)));
    assert_eq!(conn.phase(), Phase::StatusForwarding);
    let actions = conn.handle("secret", Event::Cancelled);
    assert_eq!(conn.phase(), Phase::Terminated);
    assert_eq!(to_client(&actions), vec![disconnect_frame(0x1a, "The Proxy is shutting down")]);
    assert!(to_backend(&actions).is_empty());
    let mut conn = paired(1);
    conn.handle("secret", Event::Received(handshake_frame(765, "p.ex", 25565, 1)));
    assert!(conn.handle("secret", Event::Cancelled).is_empty());
    assert_eq!(conn.phase(), Phase::Terminated);
}

#[test]
fn kept_packets_go_out_in_the_order_they_came() {
    let x = frame(0x05, &[1, 2, 3]);
    let y = frame(0x00, &[]);
    let z = frame(0x7f, &[0xff; 200]);
    let mut conn = paired(42);
    let mut sent = handshake_frame(765, "p.ex", 25565, 2);
    sent.extend(login_start_frame("Guest"));
    sent.extend(x.clone());
    let actions = conn.handle("secret", Event::Received(sent));
    assert_eq!(actions.len(), 1);
    assert_eq!(conn.phase(), Phase::AwaitPluginResponse);
    let mut sent = y.clone();
    sent.extend(z.clone());
    sent.extend(signed_response("secret", 42));
    sent.extend_from_slice(&[0xca, 0xfe]);
    let actions = conn.handle("secret", Event::Received(sent));
    assert_eq!(conn.phase(), Phase::Splicing);
    assert!(to_client(&actions).is_empty());
    assert_eq!(
        to_backend(&actions),
        vec![
            handshake_frame(765, REWRITTEN, 25565, 2),
            login_start_frame("Alice"),
            x,
            y,
            z,
            vec![0xca, 0xfe],
        ]
    );
}

#[test]
fn response_to_another_request_ends_without_a_packet() {
    let mut conn = paired(42);
    let mut sent = handshake_frame(765, "p.ex", 25565, 2);
    sent.extend(login_start_frame("Guest"));
    sent.extend(signed_response("secret", 43));
    let actions = conn.handle("secret", Event::Received(sent));
    assert_eq!(conn.phase(), Phase::Terminated);
    assert_eq!(actions.len(), 1);
    assert_eq!(to_client(&actions), vec![request_frame(42)]);
}

#[test]
fn request_carries_the_connection_id() {
    for id in [0, 1, 127, 128, i32::MAX, -1, i32::MIN] {
        let mut conn = paired(id);
        assert_eq!(conn.connection_id(), id);
        let mut sent = handshake_frame(765, "p.ex", 25565, 2);
        sent.extend(login_start_frame("Guest"));
        let actions = conn.handle("secret", Event::Received(sent));
        assert_eq!(to_client(&actions), vec![request_frame(id)]);
        let actions = conn.handle("secret", Event::Received(signed_response("secret", id)));
        assert_eq!(conn.phase(), Phase::Splicing);
        assert_eq!(actions.len(), 2);
    }
}

#[test]
fn unreadable_frames_end_the_connection() {
    let mut conn = paired(1);
    let actions = conn.handle("secret", Event::Received(frame(0x01, &[1, 2])));
    assert!(actions.is_empty());
    assert_eq!(conn.phase(), Phase::Terminated);
    let mut conn = paired(1);
    conn.handle("secret", Event::Received(vec![0x80, 0x80, 0x80, 0x80, 0x80, 0x00]));
    assert_eq!(conn.phase(), Phase::Terminated);
    let mut conn = paired(1);
    conn.handle("secret", Event::Received(handshake_frame(765, "p.ex", 25565, 2)));
    conn.handle("secret", Event::Received(frame(0x03, &[1, 2])));
    assert_eq!(conn.phase(), Phase::Terminated);
    let mut conn = paired(1);
    let mut sent = handshake_frame(765, "p.ex", 25565, 2);
    sent.extend(login_start_frame("Guest"));
    let mut body = varint(1);
    body.push(0x00);
    sent.extend(frame(0x02, &body));
    let actions = conn.handle("secret", Event::Received(sent));
    assert_eq!(actions.len(), 1);
    assert_eq!(conn.phase(), Phase::Terminated);
}

#[test]
fn body_larger_than_announced_ends_the_connection() {
    let mut conn = paired(1);
    let mut sent = vec![3u8, 0x00];
    sent.extend(varint(765));
    sent.extend(string("p.ex"));
    sent.extend_from_slice(&[0x63, 0xdd, 0x02]);
    let actions = conn.handle("secret", Event::Received(sent));
    assert!(actions.is_empty());
    assert_eq!(conn.phase(), Phase::Terminated);
}

#[test]
fn failure_ends_the_connection() {
    for events in 0..4 {
        let mut conn = paired(42);
        let frames = [
            handshake_frame(340, "p.ex", 25565, 2),
            login_start_frame("Guest"),
            signed_response("secret", 42),
        ];
        for frame in frames.iter().take(events) {
            conn.handle("secret", Event::Received(frame.clone()));
        }
        assert!(conn.handle("secret", Event::Failed).is_empty());
        assert_eq!(conn.phase(), Phase::Terminated);
        assert!(conn.handle("secret", Event::Cancelled).is_empty());
        assert!(conn.handle("secret", Event::Finished).is_empty());
        assert_eq!(conn.phase(), Phase::Terminated);
    }
}

#[test]
fn forwarding_data_that_is_too_long_ends_the_connection() {
    let mut conn = paired(42);
    let mut sent = handshake_frame(765, &"a".repeat(32760), 25565, 2);
    sent.extend(login_start_frame("Guest"));
    sent.extend(signed_response("secret", 42));
    let actions = conn.handle("secret", Event::Received(sent));
    assert_eq!(conn.phase(), Phase::Terminated);
    assert_eq!(actions.len(), 1);
    assert_eq!(to_client(&actions), vec![request_frame(42)]);
}

#[test]
fn complete_login_takes_the_verdict_as_given() {
    let response = |message_id: i32| -> VelocityLoginPluginResponse {
        let frame = signed_response("secret", message_id);
        let mut reader = ByteReader::new(&frame);
        ReadPacketExt::<Managed>::read_packet::<VelocityLoginPluginResponse>(&mut reader).unwrap()
    };
    let awaiting = || {
        let mut conn = paired(42);
        let mut sent = handshake_frame(765, "p.ex", 25565, 2);
        sent.extend(login_start_frame("Guest"));
        conn.handle("secret", Event::Received(sent));
        conn
    };
    let mut conn = awaiting();
    let actions = conn.complete_login(response(42), true);
    assert_eq!(conn.phase(), Phase::Splicing);
    assert_eq!(
        to_backend(&actions),
        vec![handshake_frame(765, REWRITTEN, 25565, 2), login_start_frame("Alice")]
    );
    let mut conn = awaiting();
    let actions = conn.complete_login(response(42), false);
    assert_eq!(conn.phase(), Phase::Terminated);
    assert_eq!(
        to_client(&actions),
        vec![disconnect_frame(0x00, "Failed to verify your identity, please rejoin the server")]
    );
    let mut conn = awaiting();
    assert!(conn.complete_login(response(41), true).is_empty());
    assert_eq!(conn.phase(), Phase::Terminated);
    let mut conn = paired(42);
    assert!(conn.complete_login(response(42), true).is_empty());
    assert_eq!(conn.phase(), Phase::Paired);
}

fn bytes_of(sent: Vec<Vec<u8>>) -> Vec<u8> {
    sent.into_iter().flatten().collect()
}

#[test]
fn pieces_do_not_matter() {
    let mut all = handshake_frame(340, "p.ex", 25565, 2);
    all.extend(login_start_frame("Guest"));
    all.extend(frame(0x05, &[1, 2, 3]));
    all.extend(signed_response("secret", 42));
    all.extend_from_slice(&[0xca, 0xfe, 0xba, 0xbe]);
    let mut whole = paired(42);
    let actions = whole.handle("secret", Event::Received(all.clone()));
    let client = bytes_of(to_client(&actions));
    let backend = bytes_of(to_backend(&actions));
    assert_eq!(whole.phase(), Phase::Splicing);
    for cut in 0..=all.len() {
        let mut conn = paired(42);
        let mut actions = conn.handle("secret", Event::Received(all[..cut].to_vec()));
        actions.extend(conn.handle("secret", Event::Received(all[cut..].to_vec())));
        assert_eq!(conn.phase(), Phase::Splicing, "cut at {cut}");
        assert_eq!(bytes_of(to_client(&actions)), client, "cut at {cut}");
        assert_eq!(bytes_of(to_backend(&actions)), backend, "cut at {cut}");
    }
}

#[test]
fn pieces_do_not_matter_for_a_refused_login() {
    let mut all = handshake_frame(765, "p.ex", 25565, 2);
    all.extend(login_start_frame("Guest"));
    all.extend(signed_response("wrong", 42));
    all.extend_from_slice(&[1, 2, 3]);
    let mut whole = paired(42);
    let actions = whole.handle("secret", Event::Received(all.clone()));
    let client = bytes_of(to_client(&actions));
    assert!(to_backend(&actions).is_empty());
    for cut in 0..=all.len() {
        let mut conn = paired(42);
        let mut actions = conn.handle("secret", Event::Received(all[..cut].to_vec()));
        actions.extend(conn.handle("secret", Event::Received(all[cut..].to_vec())));
        assert_eq!(conn.phase(), Phase::Terminated, "cut at {cut}");
        assert_eq!(bytes_of(to_client(&actions)), client, "cut at {cut}");
        assert!(to_backend(&actions).is_empty(), "cut at {cut}");
    }
}
