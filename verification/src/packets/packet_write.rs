//! Writing a packet as one frame: its length, its ID where the framing handles it, its body.

use crate::io::{append_bytes, IoError};
use crate::packets::id::{version_id, AsId, Managed, Manual, VersionDependent};
use crate::packets::{Packet, PacketBody};
use crate::types::{lemma_varint_size, varint_bytes, varint_size, MCData, VarInt};
use vstd::prelude::*;

verus! {

/// A packet that can write its body.
pub trait WritePacket: PacketBody {
    /// Appends the body to `writer`. Writing to memory does not fail.
    fn write(&self, writer: &mut Vec<u8>) -> (r: Result<(), IoError>)
        ensures
            r is Ok,
            final(writer)@ == old(writer)@ + Self::body(self@),
    ;
}

/// Writing packets whose ID is `Manual` or `Managed` onto a byte buffer.
pub trait WritePacketExt<ID: AsId, P: WritePacket + Packet<ID>> {
    /// Appends the frame of `packet`.
    fn write_packet(&mut self, packet: &P) -> Result<(), IoError>;
}

/// Writing packets whose ID depends on the protocol version onto a byte buffer.
pub trait WriteVersionedPacketExt<P: WritePacket + Packet<VersionDependent>> {
    /// Appends the frame of `packet` with the ID that it has in `protocol`.
    fn write_packet_versioned(&mut self, packet: &P, protocol: i32) -> Result<
        (),
        WriteVersionedPacketError,
    >;
}

/// Why a packet with a version-dependent ID was not written.
#[derive(Clone, Copy, Debug, PartialEq, Eq, Structural)]
pub enum WriteVersionedPacketError {
    Io(IoError),
    /// The packet has no ID in this protocol version.
    InvalidPacketId { protocol: i32 },
}

impl From<IoError> for WriteVersionedPacketError {
    fn from(e: IoError) -> (r: Self)
        ensures
            r == WriteVersionedPacketError::Io(e),
    {
        WriteVersionedPacketError::Io(e)
    }
}

impl vstd::std_specs::convert::FromSpecImpl<IoError> for WriteVersionedPacketError {
    open spec fn obeys_from_spec() -> bool {
        true
    }

    open spec fn from_spec(e: IoError) -> Self {
        WriteVersionedPacketError::Io(e)
    }
}

/// The ID byte of a frame, where the framing writes one.
pub open spec fn id_bytes(packet_id: Option<u8>) -> Seq<u8> {
    match packet_id {
        Some(id) => seq![id],
        None => Seq::empty(),
    }
}

/// One frame: the VarInt of the payload's length, then the payload, which is the ID byte, where
/// there is one, and the body.
pub open spec fn frame(packet_id: Option<u8>, body: Seq<u8>) -> Seq<u8> {
    varint_bytes((id_bytes(packet_id).len() + body.len()) as i32) + id_bytes(packet_id) + body
}

/// A frame has as many bytes as the VarInt of its payload's length, the ID and the body together,
/// and it begins with that VarInt.
pub proof fn lemma_frame_length(packet_id: Option<u8>, body: Seq<u8>)
    requires
        id_bytes(packet_id).len() + body.len() <= i32::MAX,
    ensures
        ({
            let total = (id_bytes(packet_id).len() + body.len()) as i32;
            &&& frame(packet_id, body).len() == varint_size(total) + id_bytes(packet_id).len()
                + body.len()
            &&& frame(packet_id, body).take(varint_size(total) as int) == varint_bytes(total)
        }),
{
    let total = (id_bytes(packet_id).len() + body.len()) as i32;
    lemma_varint_size(total);
    assert(frame(packet_id, body).take(varint_size(total) as int) =~= varint_bytes(total));
}

/// Appends to `writer` the frame of `packet`, announced as `byte_size` bytes of payload, in a
/// single write. A payload too long for a VarInt is refused and nothing is written.
pub fn write_packet_general<P: WritePacket>(
    writer: &mut Vec<u8>,
    packet: &P,
    byte_size: usize,
    packet_id: Option<u8>,
) -> (r: Result<(), IoError>)
    ensures
        byte_size <= i32::MAX ==> r is Ok && final(writer)@ == old(writer)@ + varint_bytes(
            byte_size as i32,
        ) + id_bytes(packet_id) + P::body(packet@),
        byte_size > i32::MAX ==> r == Err::<(), IoError>(IoError::InvalidData) && final(writer)@
            == old(writer)@,
{
    if byte_size > 0x7fff_ffff {
        return Err(IoError::InvalidData);
    }
    let packet_size = match VarInt::new(byte_size as i32) {
        Ok(size) => size,
        Err(_) => {
            return Err(IoError::InvalidData);
        },
    };
    let mut buffer: Vec<u8> = Vec::new();
    packet_size.write(&mut buffer)?;
    if let Some(id) = packet_id {
        buffer.push(id);
    }
    packet.write(&mut buffer)?;
    assert(buffer@ =~= varint_bytes(byte_size as i32) + id_bytes(packet_id) + P::body(packet@));
    append_bytes(writer, buffer.as_slice());
    Ok(())
}

impl<P: WritePacket + Packet<Manual>> WritePacketExt<Manual, P> for Vec<u8> {
    /// Appends the frame of `packet`, which has no ID of its own. A body too long for a VarInt
    /// is refused and nothing is written.
    fn write_packet(&mut self, packet: &P) -> (r: Result<(), IoError>)
        ensures
            P::body(packet@).len() <= i32::MAX ==> r is Ok && final(self)@ == old(self)@ + frame(
                None,
                P::body(packet@),
            ),
            P::body(packet@).len() > i32::MAX ==> r == Err::<(), IoError>(IoError::InvalidData)
                && final(self)@ == old(self)@,
    {
        write_packet_general(self, packet, packet.byte_size(), None)
    }
}

impl<P: WritePacket + Packet<Managed>> WritePacketExt<Managed, P> for Vec<u8> {
    /// Appends the frame of `packet` with its fixed ID. A payload too long for a VarInt is
    /// refused and nothing is written.
    fn write_packet(&mut self, packet: &P) -> (r: Result<(), IoError>)
        ensures
            1 + P::body(packet@).len() <= i32::MAX ==> r is Ok && final(self)@ == old(self)@
                + frame(Some(P::spec_packet_id()), P::body(packet@)),
            1 + P::body(packet@).len() > i32::MAX ==> r == Err::<(), IoError>(
                IoError::InvalidData,
            ) && final(self)@ == old(self)@,
    {
        let body_size = packet.byte_size();
        if body_size >= 0x7fff_ffff {
            return Err(IoError::InvalidData);
        }
        write_packet_general(self, packet, body_size + 1, Some(P::packet_id().0))
    }
}

impl<P: WritePacket + Packet<VersionDependent>> WriteVersionedPacketExt<P> for Vec<u8> {
    /// Appends the frame of `packet` with the ID that it has in `protocol`. Where it has none,
    /// or the payload is too long for a VarInt, nothing is written.
    fn write_packet_versioned(&mut self, packet: &P, protocol: i32) -> (r: Result<
        (),
        WriteVersionedPacketError,
    >)
        ensures
            match version_id(P::spec_packet_id(), protocol) {
                None => r == Err::<(), WriteVersionedPacketError>(
                    WriteVersionedPacketError::InvalidPacketId { protocol },
                ) && final(self)@ == old(self)@,
                Some(id) => if 1 + P::body(packet@).len() <= i32::MAX {
                    r is Ok && final(self)@ == old(self)@ + frame(Some(id), P::body(packet@))
                } else {
                    r == Err::<(), WriteVersionedPacketError>(
                        WriteVersionedPacketError::Io(IoError::InvalidData),
                    ) && final(self)@ == old(self)@
                },
            },
    {
        let packet_id = match P::packet_id().get(protocol) {
            Some(id) => id,
            None => {
                return Err(WriteVersionedPacketError::InvalidPacketId { protocol });
            },
        };
        let body_size = packet.byte_size();
        if body_size >= 0x7fff_ffff {
            return Err(WriteVersionedPacketError::Io(IoError::InvalidData));
        }
        match write_packet_general(self, packet, body_size + 1, Some(packet_id)) {
            Ok(()) => Ok(()),
            Err(e) => Err(WriteVersionedPacketError::from(e)),
        }
    }
}

} // verus!
