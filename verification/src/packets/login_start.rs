//! The packet with which a client asks to log in.

use crate::io::{ByteReader, IoError};
use crate::packets::id::Managed;
use crate::packets::packet_read::ReadPacket;
use crate::packets::packet_write::WritePacket;
use crate::packets::{Packet, PacketBody};
use crate::types::{
    fits, lemma_string_roundtrip, lemma_string_stable, parse_string, string_bytes, MCData,
    MCString, VarInt,
};
use vstd::utf8::encode_utf8;
use vstd::prelude::*;

verus! {

/// The start of a login: the name under which the player wants to join.
#[derive(Debug)]
pub struct LoginStart {
    pub username: MCString<16>,
}

/// What a `LoginStart` holds.
pub struct LoginStartView {
    pub username: Seq<char>,
}

impl View for LoginStart {
    type V = LoginStartView;

    open spec fn view(&self) -> LoginStartView {
        LoginStartView { username: self.username@ }
    }
}

impl PacketBody for LoginStart {
    open spec fn body(v: LoginStartView) -> Seq<u8> {
        string_bytes(v.username)
    }
}

impl Packet<Managed> for LoginStart {
    open spec fn spec_packet_id() -> u8 {
        0x00
    }

    fn packet_id() -> (id: Managed) {
        Managed(0x00)
    }

    fn byte_size(&self) -> (n: usize) {
        self.username.byte_size()
    }
}

impl ReadPacket for LoginStart {
    /// The name, which may have sixteen bytes at most. The announced length is not looked at.
    open spec fn spec_read(input: Seq<u8>, expected_length: i32) -> Result<
        (LoginStartView, nat),
        IoError,
    > {
        match parse_string(input, 16) {
            Ok((username, n)) => Ok((LoginStartView { username }, n)),
            Err(e) => Err(e),
        }
    }

    proof fn lemma_read_is_stable(input: Seq<u8>, more: Seq<u8>, expected_length: i32) {
        lemma_string_stable(input, more, 16);
    }

    fn read(reader: &mut ByteReader, _expected_length: VarInt) -> (r: Result<Self, IoError>) {
        match MCString::<16>::read(reader) {
            Ok(username) => Ok(LoginStart { username }),
            Err(e) => Err(e),
        }
    }
}

impl WritePacket for LoginStart {
    fn write(&self, writer: &mut Vec<u8>) -> (r: Result<(), IoError>) {
        self.username.write(writer)
    }
}

/// The body of a login start whose name fits its string is read back as the same login start,
/// whatever follows it and whatever length is announced.
pub proof fn lemma_login_start_roundtrip(v: LoginStartView, rest: Seq<u8>, expected_length: i32)
    requires
        fits(encode_utf8(v.username).len(), 16),
    ensures
        LoginStart::spec_read(LoginStart::body(v) + rest, expected_length) == Ok::<
            (LoginStartView, nat),
            IoError,
        >((v, LoginStart::body(v).len())),
{
    lemma_string_roundtrip(v.username, 16, rest);
}

} // verus!
