use hmac::{Hmac, Mac};
use sha2::Sha256;
use velocity_proxy::io::{ByteReader, IoError};
use velocity_proxy::packets::generic::InterpretError;
use velocity_proxy::packets::id::{Managed, Manual, VersionDependent};
use velocity_proxy::packets::packet_read::{ReadPacketError, ReadPacketExt};
use velocity_proxy::packets::packet_write::{
    write_packet_general, WritePacketExt, WriteVersionedPacketError, WriteVersionedPacketExt,
};
use velocity_proxy::packets::velocity_plugin_response::Property;
use velocity_proxy::packets::{
    Disconnect, GenericPacket, Handshake, LoginStart, Packet, PlayDisconnect,
    VelocityLoginPluginRequest, VelocityLoginPluginResponse,
};
use velocity_proxy::types::{MCData, MCString, Uuid, VarInt};

fn varint(value: i32) -> Vec<u8> {
    let mut out = Vec::new();
    VarInt::new(value).unwrap().write(&mut out).unwrap();
    out
}

fn string(text: &str) -> Vec<u8> {
    let mut out = varint(text.len() as i32);
    out.extend_from_slice(text.as_bytes());
    out
}

fn handshake(protocol: i32, address: &str, port: u16, next: i32) -> Handshake {
    Handshake {
        protocol_version: VarInt::new(protocol).unwrap(),
        server_address: MCString::new(address.to_string()).unwrap(),
        server_port: port,
        next_state: VarInt::new(next).unwrap(),
    }
}

fn handshake_frame(protocol: i32, address: &str, port: u16, next: i32) -> Vec<u8> {
    let mut body = vec![0x00];
    body.extend(varint(protocol));
    body.extend(string(address));
    body.extend_from_slice(&port.to_be_bytes());
    body.extend(varint(next));
    let mut frame = varint(body.len() as i32);
    frame.extend(body);
    frame
}

fn payload(address: &str, uuid: u128, name: &str, properties: &[(&str, &str, Option<&str>)]) -> Vec<u8> {
    let mut raw = varint(1);
    raw.extend(string(address));
    raw.extend_from_slice(&uuid.to_be_bytes());
    raw.extend(string(name));
    raw.extend(varint(properties.len() as i32));
    for (name, value, signature) in properties {
        raw.extend(string(name));
        raw.extend(string(value));
        match signature {
            Some(signature) => {
                raw.push(0x01);
                raw.extend(string(signature));
            }
            None => raw.push(0x00),
        }
    }
    raw
}

fn sign(secret: &str, raw: &[u8]) -> [u8; 32] {
    let mut mac = Hmac::<Sha256>::new_from_slice(secret.as_bytes()).unwrap();
    mac.update(raw);
    let tag = mac.finalize().into_bytes();
    let mut out = [0u8; 32];
    out.copy_from_slice(&tag);
    out
}

fn response_frame(message_id: i32, signature: &[u8; 32], raw: &[u8]) -> Vec<u8> {
    let mut body = vec![0x02];
    body.extend(varint(message_id));
    body.push(0x01);
    body.extend_from_slice(signature);
    body.extend_from_slice(raw);
    let mut frame = varint(body.len() as i32);
    frame.extend(body);
    frame
}

fn read_response(frame: &[u8]) -> VelocityLoginPluginResponse {
    let mut reader = ByteReader::new(frame);
    ReadPacketExt::<Managed>::read_packet::<VelocityLoginPluginResponse>(&mut reader).unwrap()
}

#[test]
fn handshake_is_written_as_one_frame() {
    let packet = handshake(765, "proxy.example", 25565, 1);
    let mut out = Vec::new();
    WritePacketExt::<Managed, Handshake>::write_packet(&mut out, &packet).unwrap();
    let mut expected = vec![20u8, 0x00, 0xfd, 0x05, 13];
    expected.extend_from_slice(b"proxy.example");
    expected.extend_from_slice(&[0x63, 0xdd, 0x01]);
    assert_eq!(out, expected);
    assert_eq!(out, handshake_frame(765, "proxy.example", 25565, 1));
}

#[test]
fn frame_length_is_varint_plus_id_plus_body() {
    for address in ["", "a", &"x".repeat(200), &"y".repeat(20000)] {
        let packet = handshake(47, address, 1, 2);
        let n = packet.byte_size();
        let mut out = Vec::new();
        WritePacketExt::<Managed, Handshake>::write_packet(&mut out, &packet).unwrap();
        let total = VarInt::new((n + 1) as i32).unwrap();
        assert_eq!(out.len(), total.byte_size() + 1 + n);
        assert_eq!(&out[..total.byte_size()], &varint((n + 1) as i32)[..]);
    }
    let generic = GenericPacket { data: vec![7u8; 300].into() };
    let mut out = Vec::new();
    WritePacketExt::<Manual, GenericPacket>::write_packet(&mut out, &generic).unwrap();
    assert_eq!(out.len(), 2 + 300);
    assert_eq!(&out[..2], &varint(300)[..]);
    assert_eq!(&out[2..], &generic.data[..]);
}

#[test]
fn writes_append_to_what_is_there() {
    let mut out = vec![0xaa, 0xbb];
    let packet = LoginStart { username: MCString::new("Guest".to_string()).unwrap() };
    WritePacketExt::<Managed, LoginStart>::write_packet(&mut out, &packet).unwrap();
    assert_eq!(out, vec![0xaa, 0xbb, 7, 0x00, 5, b'G', b'u', b'e', b's', b't']);
}

#[test]
fn general_write_takes_the_announced_size() {
    let generic = GenericPacket::new(vec![1, 2, 3]);
    let mut out = Vec::new();
    write_packet_general(&mut out, &generic, 4, Some(0x09)).unwrap();
    assert_eq!(out, vec![4, 0x09, 1, 2, 3]);
    let mut out = Vec::new();
    write_packet_general(&mut out, &generic, 3, None).unwrap();
    assert_eq!(out, vec![3, 1, 2, 3]);
    let mut out = vec![5];
    assert_eq!(
        write_packet_general(&mut out, &generic, 0x8000_0000, None),
        Err(IoError::InvalidData)
    );
    assert_eq!(out, vec![5]);
}

#[test]
fn handshake_round_trip() {
    let frame = handshake_frame(765, "p.ex", 25565, 2);
    let mut reader = ByteReader::new(&frame);
    let packet = ReadPacketExt::<Managed>::read_packet::<Handshake>(&mut reader).unwrap();
    assert_eq!(packet.protocol_version.get(), 765);
    assert_eq!(packet.server_address.as_str(), "p.ex");
    assert_eq!(packet.server_port, 25565);
    assert_eq!(packet.next_state.get(), 2);
    assert_eq!(reader.remaining(), 0);
    let mut out = Vec::new();
    WritePacketExt::<Managed, Handshake>::write_packet(&mut out, &packet).unwrap();
    assert_eq!(out, frame);
}

#[test]
fn reader_stands_behind_the_frame() {
    let mut bytes = handshake_frame(5, "a", 2, 1);
    bytes.extend_from_slice(&[0x01, 0x00]);
    let mut reader = ByteReader::new(&bytes);
    ReadPacketExt::<Managed>::read_packet::<Handshake>(&mut reader).unwrap();
    assert_eq!(reader.remaining(), 2);
    assert_eq!(reader.read_u8(), Ok(0x01));
}

#[test]
fn incomplete_frame_is_unexpected_eof() {
    let frame = handshake_frame(765, "proxy.example", 25565, 1);
    for cut in 0..frame.len() {
        let mut reader = ByteReader::new(&frame[..cut]);
        match ReadPacketExt::<Managed>::read_packet::<Handshake>(&mut reader) {
            Err(ReadPacketError::Io(IoError::UnexpectedEof)) => {}
            other => panic!("cut at {cut}: {other:?}"),
        }
    }
}

#[test]
fn other_id_is_handed_back_whole() {
    let bytes = [4u8, 0x07, 0xaa, 0xbb, 0xcc, 0x99];
    let mut reader = ByteReader::new(&bytes);
    match ReadPacketExt::<Managed>::read_packet::<VelocityLoginPluginResponse>(&mut reader) {
        Err(ReadPacketError::InvalidPacketId { expected, got, packet }) => {
            assert_eq!(expected, 0x02);
            assert_eq!(got, 0x07);
            assert_eq!(&packet.data[..], &[0x07, 0xaa, 0xbb, 0xcc]);
            assert_eq!(packet.byte_size(), 4);
        }
        other => panic!("{other:?}"),
    }
    assert_eq!(reader.remaining(), 1);
    let bytes = [1u8, 0x01];
    let mut reader = ByteReader::new(&bytes);
    match ReadPacketExt::<Managed>::read_packet::<Handshake>(&mut reader) {
        Err(ReadPacketError::InvalidPacketId { expected: 0x00, got: 0x01, packet }) => {
            assert_eq!(&packet.data[..], &[0x01]);
        }
        other => panic!("{other:?}"),
    }
}

#[test]
fn other_id_written_again_is_the_same_frame() {
    let bytes = [4u8, 0x07, 0xaa, 0xbb, 0xcc];
    let mut reader = ByteReader::new(&bytes);
    let packet = match ReadPacketExt::<Managed>::read_packet::<LoginStart>(&mut reader) {
        Err(ReadPacketError::InvalidPacketId { packet, .. }) => packet,
        other => panic!("{other:?}"),
    };
    let mut out = Vec::new();
    WritePacketExt::<Manual, GenericPacket>::write_packet(&mut out, &packet).unwrap();
    assert_eq!(out, bytes.to_vec());
}

#[test]
fn smaller_body_is_accepted_and_the_rest_skipped() {
    let mut body = vec![0x00u8];
    body.extend(string("Guest"));
    body.extend_from_slice(&[0xde, 0xad, 0xbe]);
    let mut bytes = varint(body.len() as i32);
    bytes.extend(body);
    bytes.push(0x55);
    let mut reader = ByteReader::new(&bytes);
    let packet = ReadPacketExt::<Managed>::read_packet::<LoginStart>(&mut reader).unwrap();
    assert_eq!(packet.username.as_str(), "Guest");
    assert_eq!(reader.remaining(), 1);
    assert_eq!(reader.read_u8(), Ok(0x55));
}

#[test]
fn larger_body_is_a_size_mismatch() {
    let mut bytes = vec![3u8, 0x00];
    bytes.extend(string("Guest"));
    let mut reader = ByteReader::new(&bytes);
    match ReadPacketExt::<Managed>::read_packet::<LoginStart>(&mut reader) {
        Err(ReadPacketError::PacketSizeMismatch { expected, got }) => {
            assert_eq!(expected, 2);
            assert_eq!(got, 6);
        }
        other => panic!("{other:?}"),
    }
}

#[test]
fn length_too_small_for_the_id_is_invalid_data() {
    let bytes = [0u8, 0x00, 0x00];
    let mut reader = ByteReader::new(&bytes);
    match ReadPacketExt::<Managed>::read_packet::<LoginStart>(&mut reader) {
        Err(ReadPacketError::Io(IoError::InvalidData)) => {}
        other => panic!("{other:?}"),
    }
    let bytes = [0xffu8, 0xff, 0xff, 0xff, 0x0f, 0x00];
    let mut reader = ByteReader::new(&bytes);
    match ReadPacketExt::<Manual>::read_packet::<GenericPacket>(&mut reader) {
        Err(ReadPacketError::Io(IoError::InvalidData)) => {}
        other => panic!("{other:?}"),
    }
}

#[test]
fn generic_packet_takes_the_whole_payload() {
    let bytes = [3u8, 9, 8, 7, 6];
    let mut reader = ByteReader::new(&bytes);
    let packet = ReadPacketExt::<Manual>::read_packet::<GenericPacket>(&mut reader).unwrap();
    assert_eq!(&packet.data[..], &[9, 8, 7]);
    assert_eq!(reader.remaining(), 1);
}

#[test]
fn generic_packet_read_as_a_packet() {
    let mut data = vec![0x00u8];
    data.extend(string("Guest"));
    let generic = GenericPacket::new(data);
    let packet = generic.try_interpret_as::<LoginStart>().unwrap();
    assert_eq!(packet.username.as_str(), "Guest");
    assert_eq!(
        generic.try_interpret_as::<VelocityLoginPluginResponse>().err(),
        Some(InterpretError::PacketIdMismatch(0x00))
    );
    let mut data = vec![0x00u8];
    data.extend(string("Guest"));
    data.push(0);
    assert_eq!(
        GenericPacket::new(data).try_interpret_as::<LoginStart>().err(),
        Some(InterpretError::PacketLengthMismatch)
    );
    assert_eq!(
        GenericPacket::new(vec![]).try_interpret_as::<LoginStart>().err(),
        Some(InterpretError::IoError(IoError::UnexpectedEof))
    );
    assert_eq!(
        GenericPacket::new(vec![0x00, 5, b'a']).try_interpret_as::<LoginStart>().err(),
        Some(InterpretError::IoError(IoError::UnexpectedEof))
    );
}

#[test]
fn login_start_name_is_limited_to_sixteen_bytes() {
    let mut body = vec![0x00u8];
    body.extend(string(&"n".repeat(17)));
    let mut bytes = varint(body.len() as i32);
    bytes.extend(body);
    let mut reader = ByteReader::new(&bytes);
    match ReadPacketExt::<Managed>::read_packet::<LoginStart>(&mut reader) {
        Err(ReadPacketError::Io(IoError::InvalidData)) => {}
        other => panic!("{other:?}"),
    }
}

#[test]
fn plugin_request_bytes() {
    let request = VelocityLoginPluginRequest::new(42);
    let mut out = Vec::new();
    WritePacketExt::<Managed, VelocityLoginPluginRequest>::write_packet(&mut out, &request).unwrap();
    let mut expected = vec![24u8, 0x04, 42, 20];
    expected.extend_from_slice(b"velocity:player_info");
    expected.push(0x01);
    assert_eq!(out, expected);
    assert_eq!(request.byte_size(), 23);
    let request = VelocityLoginPluginRequest::new(-1);
    assert_eq!(request.byte_size(), 27);
}

#[test]
fn disconnect_is_a_red_chat_component() {
    let packet = Disconnect::reason("bye");
    assert_eq!(packet.reason.as_str(), r#"{"text":"bye","color":"red"}"#);
    let mut out = Vec::new();
    WritePacketExt::<Managed, Disconnect>::write_packet(&mut out, &packet).unwrap();
    let mut expected = vec![30u8, 0x00, 28];
    expected.extend_from_slice(br#"{"text":"bye","color":"red"}"#);
    assert_eq!(out, expected);
}

#[test]
fn play_disconnect_id_by_protocol() {
    let expected: [(i32, Option<u8>); 13] = [
        (0, Some(0x40)),
        (47, Some(0x40)),
        (66, Some(0x40)),
        (67, Some(0x19)),
        (79, Some(0x19)),
        (80, Some(0x1a)),
        (317, Some(0x1a)),
        (318, Some(0x1b)),
        (331, Some(0x1b)),
        (332, Some(0x1a)),
        (340, Some(0x1a)),
        (341, None),
        (-1, None),
    ];
    for (protocol, id) in expected {
        assert_eq!(PlayDisconnect::protocol_id(protocol), id, "protocol {protocol}");
        let table: VersionDependent = PlayDisconnect::packet_id();
        assert_eq!(table.get(protocol), id, "protocol {protocol}");
    }
    assert_eq!(PlayDisconnect::protocol_id(765), None);
    assert_eq!(PlayDisconnect::protocol_id(i32::MAX), None);
    assert_eq!(PlayDisconnect::protocol_id(i32::MIN), None);
}

#[test]
fn play_disconnect_is_written_with_the_id_of_the_protocol() {
    let packet = PlayDisconnect::reason("x");
    let mut out = Vec::new();
    out.write_packet_versioned(&packet, 340).unwrap();
    let mut expected = vec![28u8, 0x1a, 26];
    expected.extend_from_slice(br#"{"text":"x","color":"red"}"#);
    assert_eq!(out, expected);
    let mut out = Vec::new();
    out.write_packet_versioned(&packet, 47).unwrap();
    assert_eq!(out[1], 0x40);
    let mut out = vec![1u8];
    assert_eq!(
        out.write_packet_versioned(&packet, 765),
        Err(WriteVersionedPacketError::InvalidPacketId { protocol: 765 })
    );
    assert_eq!(out, vec![1u8]);
}

#[test]
fn response_fields_are_what_the_payload_spells() {
    let raw = payload(
        "10.0.0.1",
        0x0123456789abcdef_0123456789abcdef,
        "Alice",
        &[("textures", "VAL", None), ("cape", "C", Some("SIG"))],
    );
    let signature = sign("secret", &raw);
    let frame = response_frame(42, &signature, &raw);
    let response = read_response(&frame);
    assert_eq!(response.connection_id().get(), 42);
    assert_eq!(response.version().get(), 1);
    assert_eq!(response.signature(), &signature);
    assert_eq!(response.raw_payload(), &raw[..]);
    assert_eq!(response.client_address().as_str(), "10.0.0.1");
    assert_eq!(response.player_uuid().0, 0x0123456789abcdef_0123456789abcdef);
    assert_eq!(response.username().as_str(), "Alice");
    assert_eq!(response.properties_length().get(), 2);
    let properties: &Vec<Property> = response.properties();
    assert_eq!(properties.len(), 2);
    assert_eq!(properties[0].name.as_str(), "textures");
    assert_eq!(properties[0].value.as_str(), "VAL");
    assert!(properties[0].signature.is_none());
    assert_eq!(properties[1].signature.as_ref().unwrap().as_str(), "SIG");
    assert_eq!(properties[0].byte_size(), 9 + 4 + 1);
    assert_eq!(properties[1].byte_size(), 5 + 2 + 1 + 4);
    assert_eq!(response.byte_size(), frame.len() - 2);
}

#[test]
fn hmac_of_the_payload_as_it_came() {
    let raw = payload("127.0.0.1", 0, "player", &[]);
    assert_eq!(raw.len(), 35);
    let signature = sign("mysecret", &raw);
    let response = read_response(&response_frame(7, &signature, &raw));
    assert!(response.validate("mysecret"));
    assert!(!response.validate("mysecreT"));
    assert!(!response.validate(""));
    for i in 0..32 {
        let mut wrong = signature;
        wrong[i] ^= 0x01;
        let response = read_response(&response_frame(7, &wrong, &raw));
        assert!(!response.validate("mysecret"));
    }
    let response = read_response(&response_frame(7, &[0u8; 32], &raw));
    assert!(!response.validate("mysecret"));
}

#[test]
fn hmac_covers_bytes_behind_the_fields() {
    let mut raw = payload("127.0.0.1", 0, "player", &[]);
    raw.extend_from_slice(&[1, 2, 3]);
    let signature = sign("mysecret", &raw);
    let response = read_response(&response_frame(7, &signature, &raw));
    assert_eq!(response.raw_payload(), &raw[..]);
    assert!(response.validate("mysecret"));
    let short = sign("mysecret", &raw[..35]);
    let response = read_response(&response_frame(7, &short, &raw));
    assert!(!response.validate("mysecret"));
}

#[test]
fn hmac_known_answer() {
    let raw = b"what do ya want for nothing?";
    let mut body = vec![0x02u8, 0x00, 0x01];
    let tag: [u8; 32] = [
        0x5b, 0xdc, 0xc1, 0x46, 0xbf, 0x60, 0x75, 0x4e, 0x6a, 0x04, 0x24, 0x26, 0x08, 0x95, 0x75,
        0xc7, 0x5a, 0x00, 0x3f, 0x08, 0x9d, 0x27, 0x39, 0x83, 0x9d, 0xec, 0x58, 0xb9, 0x64, 0xec,
        0x38, 0x43,
    ];
    assert_eq!(sign("Jefe", raw), tag);
    body.extend_from_slice(&tag);
    let mut bytes = varint(body.len() as i32 + raw.len() as i32);
    bytes.extend(body);
    bytes.extend_from_slice(raw);
    let mut reader = ByteReader::new(&bytes);
    match ReadPacketExt::<Managed>::read_packet::<VelocityLoginPluginResponse>(&mut reader) {
        Err(ReadPacketError::Io(IoError::InvalidData)) => {}
        other => panic!("{other:?}"),
    }
}

#[test]
fn response_without_payload_flag_is_invalid_data() {
    let raw = payload("127.0.0.1", 0, "player", &[]);
    let mut frame = response_frame(7, &[0u8; 32], &raw);
    assert_eq!(frame[3], 0x01);
    frame[3] = 0x00;
    let mut reader = ByteReader::new(&frame);
    match ReadPacketExt::<Managed>::read_packet::<VelocityLoginPluginResponse>(&mut reader) {
        Err(ReadPacketError::Io(IoError::InvalidData)) => {}
        other => panic!("{other:?}"),
    }
}

#[test]
fn response_with_a_cut_payload_is_invalid_data() {
    let raw = payload("127.0.0.1", 0, "player", &[("a", "b", None)]);
    for cut in 0..raw.len() {
        let frame = response_frame(7, &[0u8; 32], &raw[..cut]);
        let mut reader = ByteReader::new(&frame);
        match ReadPacketExt::<Managed>::read_packet::<VelocityLoginPluginResponse>(&mut reader) {
            Err(ReadPacketError::Io(IoError::InvalidData)) => {}
            other => panic!("cut at {cut}: {other:?}"),
        }
    }
}

#[test]
fn response_too_short_for_its_signature_is_invalid_data() {
    let mut bytes = vec![34u8, 0x02, 0x07, 0x01];
    bytes.extend_from_slice(&[0u8; 32]);
    bytes.extend_from_slice(&[0u8; 8]);
    let mut reader = ByteReader::new(&bytes);
    match ReadPacketExt::<Managed>::read_packet::<VelocityLoginPluginResponse>(&mut reader) {
        Err(ReadPacketError::Io(IoError::InvalidData)) => {}
        other => panic!("{other:?}"),
    }
}

#[test]
fn response_with_a_negative_number_of_properties_is_invalid_data() {
    let mut raw = payload("127.0.0.1", 0, "player", &[]);
    raw.pop();
    raw.extend(varint(-1));
    let frame = response_frame(7, &[0u8; 32], &raw);
    let mut reader = ByteReader::new(&frame);
    match ReadPacketExt::<Managed>::read_packet::<VelocityLoginPluginResponse>(&mut reader) {
        Err(ReadPacketError::Io(IoError::InvalidData)) => {}
        other => panic!("{other:?}"),
    }
}

#[test]
fn response_name_is_limited_to_sixteen_bytes() {
    let raw = payload("127.0.0.1", 0, &"n".repeat(17), &[]);
    let frame = response_frame(7, &[0u8; 32], &raw);
    let mut reader = ByteReader::new(&frame);
    match ReadPacketExt::<Managed>::read_packet::<VelocityLoginPluginResponse>(&mut reader) {
        Err(ReadPacketError::Io(IoError::InvalidData)) => {}
        other => panic!("{other:?}"),
    }
}

#[test]
fn forwarding_data_without_properties() {
    let mut packet = handshake(765, "p.ex", 25565, 2);
    packet
        .insert_forwarding_data(
            MCString::new("10.0.0.1".to_string()).unwrap(),
            Uuid(0x0123456789abcdef_0123456789abcdef),
            &[],
        )
        .unwrap();
    assert_eq!(
        packet.server_address.as_str(),
        "p.ex\010.0.0.1\0123456789abcdef0123456789abcdef"
    );
    assert_eq!(packet.protocol_version.get(), 765);
    assert_eq!(packet.server_port, 25565);
    assert_eq!(packet.next_state.get(), 2);
}

#[test]
fn forwarding_data_with_properties() {
    let text = |s: &str| MCString::<32767>::new(s.to_string()).unwrap();
    let properties = vec![
        Property { name: text("textures"), value: text("VAL"), signature: None },
        Property { name: text("cape"), value: text("C"), signature: Some(text("SIG")) },
    ];
    let mut packet = handshake(765, "p.ex", 25565, 2);
    packet.insert_forwarding_data(text("10.0.0.1"), Uuid(0xabc), &properties[..1]).unwrap();
    assert_eq!(
        packet.server_address.as_str(),
        "p.ex\010.0.0.1\0abc\0[{\"name\":\"textures\",\"value\":\"VAL\"}]"
    );
    let mut packet = handshake(765, "p.ex", 25565, 2);
    packet.insert_forwarding_data(text("10.0.0.1"), Uuid(0), &properties).unwrap();
    assert_eq!(
        packet.server_address.as_str(),
        "p.ex\010.0.0.1\00\0[{\"name\":\"textures\",\"value\":\"VAL\"},{\"name\":\"cape\",\"value\":\"C\",\"signature\":\"SIG\"}]"
    );
}

#[test]
fn forwarding_data_uuid_is_lower_case_hex_without_leading_zeros() {
    for (uuid, hex) in [
        (0u128, "0"),
        (0xf, "f"),
        (0x10, "10"),
        (0xDEADBEEF, "deadbeef"),
        (u128::MAX, "ffffffffffffffffffffffffffffffff"),
        (0x0123456789abcdef_0123456789abcdef, "123456789abcdef0123456789abcdef"),
    ] {
        let mut packet = handshake(1, "s", 1, 2);
        packet
            .insert_forwarding_data(MCString::new("c".to_string()).unwrap(), Uuid(uuid), &[])
            .unwrap();
        assert_eq!(packet.server_address.as_str(), format!("s\0c\0{hex}"));
        assert_eq!(hex, format!("{uuid:x}"));
    }
}

#[test]
fn forwarding_data_that_is_too_long_is_refused() {
    let mut packet = handshake(765, &"a".repeat(32767), 25565, 2);
    let result = packet.insert_forwarding_data(
        MCString::new("10.0.0.1".to_string()).unwrap(),
        Uuid(1),
        &[],
    );
    assert!(result.is_err());
    assert_eq!(packet.server_address.as_str(), "a".repeat(32767));
    let mut packet = handshake(765, &"a".repeat(32767 - 4), 25565, 2);
    packet
        .insert_forwarding_data(MCString::new("b".to_string()).unwrap(), Uuid(1), &[])
        .unwrap();
    assert_eq!(packet.server_address.as_str().len(), 32767);
}

#[test]
fn errors_wrap_the_error_below() {
    match ReadPacketError::from(IoError::InvalidData) {
        ReadPacketError::Io(IoError::InvalidData) => {}
        other => panic!("{other:?}"),
    }
    assert_eq!(
        WriteVersionedPacketError::from(IoError::UnexpectedEof),
        WriteVersionedPacketError::Io(IoError::UnexpectedEof)
    );
    assert_eq!(
        InterpretError::from(IoError::UnexpectedEof),
        InterpretError::IoError(IoError::UnexpectedEof)
    );
    assert_eq!(*Managed(4), 4);
}
