//! A packet that is kept as the bytes it came as.

use crate::io::{append_bytes, ByteReader, IoError};
use crate::packets::id::{version_id, AsId, Managed, Manual, VersionDependent};
use crate::packets::packet_read::ReadPacket;
use crate::packets::packet_write::WritePacket;
use crate::packets::{Packet, PacketBody};
use crate::types::VarInt;
use std::sync::Arc;
use vstd::prelude::*;

verus! {

/// The payload of one frame, uninterpreted: the packet ID, where there is one, and what follows.
#[derive(Debug)]
pub struct GenericPacket {
    pub data: Arc<[u8]>,
}

/// Calls `Arc::from` on a vector, which moves the bytes into shared memory as they are.
#[verifier::external_body]
fn shared(data: Vec<u8>) -> (bytes: Arc<[u8]>)
    ensures
        bytes@ == data@,
{
    Arc::from(data)
}

impl GenericPacket {
    /// The packet that holds `data`.
    pub fn new(data: Vec<u8>) -> (packet: Self)
        ensures
            packet@ == data@,
    {
        GenericPacket { data: shared(data) }
    }
}

impl View for GenericPacket {
    type V = Seq<u8>;

    open spec fn view(&self) -> Seq<u8> {
        self.data@
    }
}

impl PacketBody for GenericPacket {
    open spec fn body(v: Seq<u8>) -> Seq<u8> {
        v
    }
}

impl Packet<Manual> for GenericPacket {
    open spec fn spec_packet_id() -> () {
        ()
    }

    fn packet_id() -> (id: Manual) {
        Manual
    }

    fn byte_size(&self) -> (n: usize) {
        self.data.len()
    }
}

impl ReadPacket for GenericPacket {
    /// The next `expected_length` bytes, whatever they are.
    open spec fn spec_read(input: Seq<u8>, expected_length: i32) -> Result<
        (Seq<u8>, nat),
        IoError,
    > {
        if expected_length < 0 {
            Err(IoError::InvalidData)
        } else if input.len() < expected_length {
            Err(IoError::UnexpectedEof)
        } else {
            Ok((input.take(expected_length as int), expected_length as nat))
        }
    }

    proof fn lemma_read_is_stable(input: Seq<u8>, more: Seq<u8>, expected_length: i32) {
        if 0 <= expected_length <= input.len() {
            assert((input + more).take(expected_length as int) =~= input.take(
                expected_length as int,
            ));
        }
    }

    fn read(reader: &mut ByteReader, expected_length: VarInt) -> (r: Result<Self, IoError>) {
        let length = expected_length.get();
        if length < 0 {
            return Err(IoError::InvalidData);
        }
        match reader.read_exact(length as usize) {
            Ok(data) => Ok(GenericPacket::new(data)),
            Err(e) => Err(e),
        }
    }
}

impl WritePacket for GenericPacket {
    fn write(&self, writer: &mut Vec<u8>) -> (r: Result<(), IoError>) {
        append_bytes(writer, &self.data);
        Ok(())
    }
}

/// Why the bytes of a generic packet are not the packet that was asked for.
#[derive(Clone, Copy, Debug, PartialEq, Eq, Structural)]
pub enum InterpretError {
    /// The packet that was asked for has no ID in the protocol version.
    InvalidPacketId,
    /// The bytes begin with this ID, which is another packet's.
    PacketIdMismatch(u8),
    /// The packet that was read does not take the bytes exactly.
    PacketLengthMismatch,
    /// The bytes ended early or cannot be the packet.
    IoError(IoError),
}

impl From<IoError> for InterpretError {
    fn from(e: IoError) -> (r: Self)
        ensures
            r == InterpretError::IoError(e),
    {
        InterpretError::IoError(e)
    }
}

impl vstd::std_specs::convert::FromSpecImpl<IoError> for InterpretError {
    open spec fn obeys_from_spec() -> bool {
        true
    }

    open spec fn from_spec(e: IoError) -> Self {
        InterpretError::IoError(e)
    }
}

/// What the payload `data` is when it is read as a packet of the kind `P` with the ID
/// `packet_id`: the first byte must be the ID, and the packet that is read from the bytes
/// behind it must have as many bytes as there are.
pub open spec fn interpret<P: ReadPacket + PacketBody>(data: Seq<u8>, packet_id: u8) -> Result<
    P::V,
    InterpretError,
> {
    if data.len() == 0 {
        Err(InterpretError::IoError(IoError::UnexpectedEof))
    } else if data[0] != packet_id {
        Err(InterpretError::PacketIdMismatch(data[0]))
    } else if data.len() - 1 > i32::MAX {
        Err(InterpretError::IoError(IoError::InvalidData))
    } else {
        match P::spec_read(data.skip(1), (data.len() - 1) as i32) {
            Err(e) => Err(InterpretError::IoError(e)),
            Ok((v, n)) => {
                if P::body(v).len() == data.len() - 1 {
                    Ok(v)
                } else {
                    Err(InterpretError::PacketLengthMismatch)
                }
            },
        }
    }
}

impl GenericPacket {
    /// Reads the bytes as a packet with a fixed ID.
    pub fn try_interpret_as<P: Packet<Managed> + ReadPacket>(&self) -> (r: Result<
        P,
        InterpretError,
    >)
        ensures
            match interpret::<P>(self@, P::spec_packet_id()) {
                Ok(v) => r matches Ok(p) && p@ == v,
                Err(e) => r matches Err(x) && x == e,
            },
    {
        self.internl_interpret_as::<P, Managed>(P::packet_id().0)
    }

    /// Reads the bytes as a packet with the ID that it has in `protocol`.
    pub fn try_interpret_as_versioned<P: Packet<VersionDependent> + ReadPacket>(
        &self,
        protocol: i32,
    ) -> (r: Result<P, InterpretError>)
        ensures
            match version_id(P::spec_packet_id(), protocol) {
                None => r matches Err(x) && x == InterpretError::InvalidPacketId,
                Some(id) => match interpret::<P>(self@, id) {
                    Ok(v) => r matches Ok(p) && p@ == v,
                    Err(e) => r matches Err(x) && x == e,
                },
            },
    {
        match P::packet_id().get(protocol) {
            Some(packet_id) => self.internl_interpret_as::<P, VersionDependent>(packet_id),
            None => Err(InterpretError::InvalidPacketId),
        }
    }

    /// Reads the bytes as a packet with the ID `packet_id`.
    fn internl_interpret_as<P: ReadPacket + Packet<Id>, Id: AsId>(
        &self,
        packet_id: u8,
    ) -> (r: Result<P, InterpretError>)
        ensures
            match interpret::<P>(self@, packet_id) {
                Ok(v) => r matches Ok(p) && p@ == v,
                Err(e) => r matches Err(x) && x == e,
            },
    {
        let mut reader = ByteReader::new(&self.data);
        let read_packet_id = match reader.read_u8() {
            Ok(id) => id,
            Err(e) => {
                return Err(InterpretError::from(e));
            },
        };
        if read_packet_id != packet_id {
            return Err(InterpretError::PacketIdMismatch(read_packet_id));
        }
        let byte_size = self.data.len() - 1;
        if byte_size > 0x7fff_ffff {
            return Err(InterpretError::IoError(IoError::InvalidData));
        }
        let packet = match P::read(&mut reader, VarInt::new(byte_size as i32).unwrap()) {
            Ok(packet) => packet,
            Err(e) => {
                return Err(InterpretError::from(e));
            },
        };
        if byte_size != packet.byte_size() {
            return Err(InterpretError::PacketLengthMismatch);
        }
        Ok(packet)
    }
}

} // verus!
