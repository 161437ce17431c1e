//! The first packet of every connection, and the forwarding data that the proxy puts into it.

use crate::io::{
    append_be, be_bytes, lemma_be_roundtrip, lemma_fixed_stable, lemma_pow256_16, parse_u16,
    ByteReader, IoError,
};
use crate::packets::id::Managed;
use crate::packets::packet_read::ReadPacket;
use crate::packets::packet_write::WritePacket;
use crate::packets::velocity_plugin_response::{property_views, Property, PropertyView};
use crate::packets::{Packet, PacketBody};
use crate::types::{
    fits, lemma_string_roundtrip, lemma_string_stable, lemma_varint_roundtrip, lemma_varint_size,
    lemma_varint_stable, lemma_varint_takes_bytes, parse_string, parse_varint, string_bytes,
    varint_bytes, MCData, MCString, Uuid, VarInt,
};
use vstd::prelude::*;
use vstd::string::StringExecFns;
use vstd::utf8::encode_utf8;

verus! {

/// The handshake: the protocol version, the address and port that the client dialled, and what
/// it wants next (1 status, 2 login, 3 transfer).
#[derive(Debug)]
pub struct Handshake {
    pub protocol_version: VarInt,
    pub server_address: MCString<32767>,
    pub server_port: u16,
    pub next_state: VarInt,
}

/// What a `Handshake` holds.
pub struct HandshakeView {
    pub protocol_version: i32,
    pub server_address: Seq<char>,
    pub server_port: u16,
    pub next_state: i32,
}

impl View for Handshake {
    type V = HandshakeView;

    open spec fn view(&self) -> HandshakeView {
        HandshakeView {
            protocol_version: self.protocol_version@,
            server_address: self.server_address@,
            server_port: self.server_port,
            next_state: self.next_state@,
        }
    }
}

impl PacketBody for Handshake {
    /// The four fields in their order; the port as two bytes, highest first.
    open spec fn body(v: HandshakeView) -> Seq<u8> {
        varint_bytes(v.protocol_version) + string_bytes(v.server_address) + be_bytes(
            v.server_port as nat,
            2,
        ) + varint_bytes(v.next_state)
    }
}

impl Packet<Managed> for Handshake {
    open spec fn spec_packet_id() -> u8 {
        0x00
    }

    fn packet_id() -> (id: Managed) {
        Managed(0x00)
    }

    fn byte_size(&self) -> (n: usize) {
        proof {
            lemma_varint_size(self.protocol_version@);
            lemma_varint_size(self.next_state@);
            crate::io::lemma_be_length(self.server_port as nat, 2);
        }
        let address_size = self.server_address.byte_size();
        self.protocol_version.byte_size() + address_size + 2 + self.next_state.byte_size()
    }
}

impl ReadPacket for Handshake {
    /// The four fields in their order. The announced length is not looked at.
    open spec fn spec_read(input: Seq<u8>, expected_length: i32) -> Result<
        (HandshakeView, nat),
        IoError,
    > {
        match parse_varint(input) {
            Err(e) => Err(e),
            Ok((protocol_version, n1)) => match parse_string(input.skip(n1 as int), 32767) {
                Err(e) => Err(e),
                Ok((server_address, n2)) => match parse_u16(input.skip(n1 as int).skip(n2 as int)) {
                    Err(e) => Err(e),
                    Ok((server_port, n3)) => match parse_varint(
                        input.skip(n1 as int).skip(n2 as int).skip(n3 as int),
                    ) {
                        Err(e) => Err(e),
                        Ok((next_state, n4)) => Ok(
                            (
                                HandshakeView {
                                    protocol_version,
                                    server_address,
                                    server_port,
                                    next_state,
                                },
                                n1 + n2 + n3 + n4,
                            ),
                        ),
                    },
                },
            },
        }
    }

    #[verifier::rlimit(30)]
    proof fn lemma_read_is_stable(input: Seq<u8>, more: Seq<u8>, expected_length: i32) {
        lemma_varint_takes_bytes(input);
        if let Ok((protocol_version, n1)) = parse_varint(input) {
            lemma_varint_stable(input, more);
            let after_version = input.skip(n1 as int);
            assert((input + more).skip(n1 as int) =~= after_version + more);
            lemma_string_stable(after_version, more, 32767);
            if let Ok((server_address, n2)) = parse_string(after_version, 32767) {
                let after_address = after_version.skip(n2 as int);
                assert((after_version + more).skip(n2 as int) =~= after_address + more);
                lemma_fixed_stable(after_address, more);
                if let Ok((server_port, n3)) = parse_u16(after_address) {
                    let after_port = after_address.skip(n3 as int);
                    assert((after_address + more).skip(n3 as int) =~= after_port + more);
                    lemma_varint_takes_bytes(after_port);
                    if parse_varint(after_port) != Err::<(i32, nat), IoError>(
                        IoError::UnexpectedEof,
                    ) {
                        lemma_varint_stable(after_port, more);
                    }
                }
            }
        } else if parse_varint(input) != Err::<(i32, nat), IoError>(IoError::UnexpectedEof) {
            lemma_varint_stable(input, more);
        }
    }

    #[verifier::rlimit(30)]
    fn read(reader: &mut ByteReader, _expected_length: VarInt) -> (r: Result<Self, IoError>) {
        let protocol_version = VarInt::read(reader)?;
        let server_address = MCString::<32767>::read(reader)?;
        let server_port = reader.read_u16()?;
        let next_state = VarInt::read(reader)?;
        proof {
            let (_, n) = Self::spec_read(old(reader)@, _expected_length@)->Ok_0;
            assert(reader@ =~= old(reader)@.skip(n as int));
        }
        Ok(Handshake { protocol_version, server_address, server_port, next_state })
    }
}

impl WritePacket for Handshake {
    fn write(&self, writer: &mut Vec<u8>) -> (r: Result<(), IoError>) {
        self.protocol_version.write(writer)?;
        self.server_address.write(writer)?;
        append_be(writer, self.server_port as u128, 2);
        self.next_state.write(writer)
    }
}

/// The body of a handshake whose address fits its string is read back as the same handshake,
/// whatever follows it and whatever length is announced.
#[verifier::rlimit(30)]
pub proof fn lemma_handshake_roundtrip(v: HandshakeView, rest: Seq<u8>, expected_length: i32)
    requires
        fits(encode_utf8(v.server_address).len(), 32767),
    ensures
        Handshake::spec_read(Handshake::body(v) + rest, expected_length) == Ok::<
            (HandshakeView, nat),
            IoError,
        >((v, Handshake::body(v).len())),
{
    let version = varint_bytes(v.protocol_version);
    let address = string_bytes(v.server_address);
    let port = be_bytes(v.server_port as nat, 2);
    let next = varint_bytes(v.next_state);
    let input = Handshake::body(v) + rest;
    lemma_varint_size(v.protocol_version);
    lemma_varint_size(v.next_state);
    lemma_varint_roundtrip(v.protocol_version, address + port + next + rest);
    assert(input =~= version + (address + port + next + rest));
    let after_version = input.skip(version.len() as int);
    assert(after_version =~= address + (port + next + rest));
    lemma_string_roundtrip(v.server_address, 32767, port + next + rest);
    let after_address = after_version.skip(address.len() as int);
    assert(after_address =~= port + (next + rest));
    lemma_pow256_16();
    lemma_be_roundtrip(v.server_port as nat, 2);
    assert(after_address.take(2) =~= port);
    let after_port = after_address.skip(2);
    assert(after_port =~= next + rest);
    lemma_varint_roundtrip(v.next_state, rest);
}

/// The hexadecimal digit for `d`, in lower case.
pub open spec fn hex_digit(d: nat) -> char {
    if d == 0 {
        '0'
    } else if d == 1 {
        '1'
    } else if d == 2 {
        '2'
    } else if d == 3 {
        '3'
    } else if d == 4 {
        '4'
    } else if d == 5 {
        '5'
    } else if d == 6 {
        '6'
    } else if d == 7 {
        '7'
    } else if d == 8 {
        '8'
    } else if d == 9 {
        '9'
    } else if d == 10 {
        'a'
    } else if d == 11 {
        'b'
    } else if d == 12 {
        'c'
    } else if d == 13 {
        'd'
    } else if d == 14 {
        'e'
    } else {
        'f'
    }
}

/// The number `u` in hexadecimal digits, in lower case and without leading zeros.
pub open spec fn hex(u: nat) -> Seq<char>
    decreases u,
{
    if u < 16 {
        seq![hex_digit(u)]
    } else {
        hex(u / 16).push(hex_digit(u % 16))
    }
}

/// One property as a JSON object. The texts are put between the quotes as they are.
pub open spec fn property_json(p: PropertyView) -> Seq<char> {
    "{\"name\":\""@ + p.name + "\",\"value\":\""@ + p.value + "\""@ + match p.signature {
        Some(signature) => ",\"signature\":\""@ + signature + "\""@,
        None => Seq::empty(),
    } + "}"@
}

/// The properties as JSON objects in their order, with a comma between two of them.
pub open spec fn properties_json(properties: Seq<PropertyView>) -> Seq<char>
    decreases properties.len(),
{
    if properties.len() == 0 {
        Seq::empty()
    } else if properties.len() == 1 {
        property_json(properties[0])
    } else {
        properties_json(properties.drop_last()) + ","@ + property_json(properties.last())
    }
}

/// The forwarding data: the server address, the client's address and the player's identifier
/// in hexadecimal, with a NUL between two of them; where there are properties, another NUL and
/// the properties as a JSON array.
pub open spec fn forwarding_data(
    server_address: Seq<char>,
    client_address: Seq<char>,
    player_uuid: u128,
    properties: Seq<PropertyView>,
) -> Seq<char> {
    let identity = server_address + "\0"@ + client_address + "\0"@ + hex(player_uuid as nat);
    if properties.len() == 0 {
        identity
    } else {
        identity + "\0["@ + properties_json(properties) + "]"@
    }
}

/// The text of one hexadecimal digit.
fn hex_digit_text(d: u8) -> (text: &'static str)
    requires
        d < 16,
    ensures
        text@ == seq![hex_digit(d as nat)],
{
    proof {
        reveal_strlit("0");
        reveal_strlit("1");
        reveal_strlit("2");
        reveal_strlit("3");
        reveal_strlit("4");
        reveal_strlit("5");
        reveal_strlit("6");
        reveal_strlit("7");
        reveal_strlit("8");
        reveal_strlit("9");
        reveal_strlit("a");
        reveal_strlit("b");
        reveal_strlit("c");
        reveal_strlit("d");
        reveal_strlit("e");
        reveal_strlit("f");
    }
    let text = if d == 0 {
        "0"
    } else if d == 1 {
        "1"
    } else if d == 2 {
        "2"
    } else if d == 3 {
        "3"
    } else if d == 4 {
        "4"
    } else if d == 5 {
        "5"
    } else if d == 6 {
        "6"
    } else if d == 7 {
        "7"
    } else if d == 8 {
        "8"
    } else if d == 9 {
        "9"
    } else if d == 10 {
        "a"
    } else if d == 11 {
        "b"
    } else if d == 12 {
        "c"
    } else if d == 13 {
        "d"
    } else if d == 14 {
        "e"
    } else {
        "f"
    };
    assert(text@ =~= seq![hex_digit(d as nat)]);
    text
}

/// Appends `u` in hexadecimal digits.
fn append_hex(text: &mut String, u: u128)
    ensures
        final(text)@ == old(text)@ + hex(u as nat),
    decreases u,
{
    if u >= 16 {
        append_hex(text, u / 16);
    }
    text.append(hex_digit_text((u % 16) as u8));
    assert(text@ =~= old(text)@ + hex(u as nat));
}

/// Appends one property as a JSON object.
fn append_property(text: &mut String, property: &Property)
    ensures
        final(text)@ == old(text)@ + property_json(property@),
{
    text.append("{\"name\":\"");
    text.append(property.name.as_str());
    text.append("\",\"value\":\"");
    text.append(property.value.as_str());
    text.append("\"");
    if let Some(signature) = &property.signature {
        text.append(",\"signature\":\"");
        text.append(signature.as_str());
        text.append("\"");
    }
    text.append("}");
    assert(text@ =~= old(text)@ + property_json(property@));
}

impl Handshake {
    /// Puts the forwarding data in the place of the server address. Forwarding data too long
    /// for a string of 32767 bytes is refused, and the handshake stays as it is.
    #[verifier::rlimit(30)]
    pub fn insert_forwarding_data(
        &mut self,
        client_address: MCString<32767>,
        player_uuid: Uuid,
        properties: &[Property],
    ) -> (r: Result<(), &'static str>)
        ensures
            ({
                let data = forwarding_data(
                    old(self)@.server_address,
                    client_address@,
                    player_uuid@,
                    property_views(properties@),
                );
                if fits(encode_utf8(data).len(), 32767) {
                    &&& r is Ok
                    &&& final(self)@ == (HandshakeView { server_address: data, ..old(self)@ })
                } else {
                    &&& r is Err
                    &&& final(self)@ == old(self)@
                }
            }),
    {
        let ghost views = property_views(properties@);
        let mut data = String::new();
        data.append(self.server_address.as_str());
        data.append("\0");
        data.append(client_address.as_str());
        data.append("\0");
        append_hex(&mut data, player_uuid.0);
        let ghost identity = data@;
        assert(identity =~= self@.server_address + "\0"@ + client_address@ + "\0"@ + hex(
            player_uuid@ as nat,
        ));
        if properties.len() > 0 {
            data.append("\0[");
            let mut i: usize = 0;
            assert(data@ =~= identity + "\0["@ + properties_json(views.take(0)));
            while i < properties.len()
                invariant
                    i <= properties.len(),
                    views == property_views(properties@),
                    data@ == identity + "\0["@ + properties_json(views.take(i as int)),
                decreases properties.len() - i,
            {
                if i > 0 {
                    data.append(",");
                }
                append_property(&mut data, &properties[i]);
                proof {
                    let next = views.take(i + 1);
                    assert(next.drop_last() =~= views.take(i as int));
                    assert(next.last() == properties@[i as int]@);
                    assert(data@ =~= identity + "\0["@ + properties_json(next));
                }
                i = i + 1;
            }
            assert(views.take(i as int) =~= views);
            data.append("]");
        }
        assert(data@ =~= forwarding_data(
            self@.server_address,
            client_address@,
            player_uuid@,
            views,
        ));
        match MCString::new(data) {
            Ok(server_address) => {
                self.server_address = server_address;
                Ok(())
            },
            Err(e) => Err(e),
        }
    }
}

} // verus!
