//! The plugin request with which the proxy asks for the player's forwarded identity.

use crate::io::IoError;
use crate::packets::id::Managed;
use crate::packets::packet_write::WritePacket;
use crate::packets::{Packet, PacketBody};
use crate::types::{lemma_varint_size, string_bytes, varint_bytes, MCData, MCString, VarInt};
use vstd::prelude::*;
use vstd::string::StringExecFns;
use vstd::utf8::{encode_utf8, is_ascii_chars, is_ascii_chars_encode_utf8};

verus! {

/// The name of the plugin channel on which the identity is asked for.
pub open spec fn channel() -> Seq<char> {
    "velocity:player_info"@
}

/// The channel's name is twenty bytes long.
pub proof fn lemma_channel_length()
    ensures
        encode_utf8(channel()).len() == 20,
{
    reveal_strlit("velocity:player_info");
    assert(is_ascii_chars(channel()));
    is_ascii_chars_encode_utf8(channel());
}

/// A login plugin request on the channel `velocity:player_info`.
#[derive(Debug)]
pub struct VelocityLoginPluginRequest {
    connection_id: VarInt,
}

impl View for VelocityLoginPluginRequest {
    type V = i32;

    /// The message ID, by which the answer is told from others.
    closed spec fn view(&self) -> i32 {
        self.connection_id@
    }
}

impl VelocityLoginPluginRequest {
    /// A request that carries `connection_id` as its message ID.
    pub fn new(connection_id: i32) -> (request: Self)
        ensures
            request@ == connection_id,
    {
        Self { connection_id: VarInt::new(connection_id).unwrap() }
    }
}

impl PacketBody for VelocityLoginPluginRequest {
    /// The message ID, the channel, and the byte `0x01` for the version of the forwarding
    /// scheme.
    open spec fn body(v: i32) -> Seq<u8> {
        varint_bytes(v) + string_bytes(channel()) + seq![0x01u8]
    }
}

impl Packet<Managed> for VelocityLoginPluginRequest {
    open spec fn spec_packet_id() -> u8 {
        0x04
    }

    fn packet_id() -> (id: Managed) {
        Managed(0x04)
    }

    fn byte_size(&self) -> (n: usize) {
        proof {
            lemma_channel_length();
            lemma_varint_size(20);
            lemma_varint_size(self@);
        }
        let channel = "velocity:player_info";
        self.connection_id.byte_size() + (VarInt::new(
            channel.as_bytes().len() as i32,
        ).unwrap().byte_size() + channel.as_bytes().len()) + 1
    }
}

impl WritePacket for VelocityLoginPluginRequest {
    fn write(&self, writer: &mut Vec<u8>) -> (r: Result<(), IoError>) {
        proof {
            lemma_channel_length();
        }
        self.connection_id.write(writer)?;
        MCString::<32767>::new(String::from_str("velocity:player_info")).unwrap().write(writer)?;
        writer.push(0x01);
        assert(writer@ =~= old(writer)@ + Self::body(self@));
        Ok(())
    }
}

} // verus!
