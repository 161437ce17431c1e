//! Reading one frame as a packet: its length, its ID where the framing handles it, its body.

use crate::io::{append_bytes, ByteReader, IoError};
use crate::packets::generic::GenericPacket;
use crate::packets::id::{version_id, AsId, Managed, Manual, VersionDependent};
use crate::packets::{Packet, PacketBody};
use crate::packets::packet_write::frame;
use crate::types::{
    lemma_varint_roundtrip, lemma_varint_size, lemma_varint_stable, lemma_varint_takes_bytes,
    parse_varint, varint_bytes, varint_size, MCData, VarInt,
};
use vstd::prelude::*;

verus! {

/// A packet that can read its body.
pub trait ReadPacket: View + Sized {
    /// What reading a body from `input` gives when the frame announces `expected_length` bytes
    /// of it: the packet with the number of bytes it took, or the error.
    spec fn spec_read(input: Seq<u8>, expected_length: i32) -> Result<(Self::V, nat), IoError>;

    /// A body that is read lies within the input. A body that is read, or refused for another
    /// reason than that the input ends too early, is read or refused in the same way when more
    /// bytes follow the input.
    proof fn lemma_read_is_stable(input: Seq<u8>, more: Seq<u8>, expected_length: i32)
        ensures
            Self::spec_read(input, expected_length) matches Ok((v, n)) ==> n <= input.len(),
            Self::spec_read(input, expected_length) != Err::<(Self::V, nat), IoError>(
                IoError::UnexpectedEof,
            ) ==> Self::spec_read(input + more, expected_length) == Self::spec_read(
                input,
                expected_length,
            ),
    ;

    /// Reads one body off the front of `reader`.
    fn read(reader: &mut ByteReader, expected_length: VarInt) -> (r: Result<Self, IoError>)
        ensures
            match Self::spec_read(old(reader)@, expected_length@) {
                Ok((v, n)) => {
                    &&& r is Ok
                    &&& r.unwrap()@ == v
                    &&& n <= old(reader)@.len()
                    &&& final(reader)@ == old(reader)@.skip(n as int)
                },
                Err(e) => r matches Err(x) && x == e,
            },
    ;
}

/// Reading packets whose ID is `Manual` or `Managed` from bytes.
pub trait ReadPacketExt<Id: AsId>: Sized {
    /// Reads one frame as a packet of the kind `P`.
    fn read_packet<P: ReadPacket + Packet<Id>>(&mut self) -> Result<P, ReadPacketError>;
}

/// Reading packets whose ID depends on the protocol version from bytes.
pub trait ReadVersionedPacketExt<Id: AsId>: Sized {
    /// Reads one frame as a packet of the kind `P` with the ID that it has in `protocol`.
    fn read_packet_versioned<P: ReadPacket + Packet<Id>>(&mut self, protocol: i32) -> Result<
        P,
        ReadVersionedPacketError,
    >;
}

/// Why no packet was read.
#[derive(Debug)]
#[allow(inconsistent_fields)]
pub enum ReadPacketError {
    /// The bytes ended early or cannot be the packet.
    Io(IoError),
    /// The frame holds a packet with another ID. It was read whole and is handed back, so that
    /// the reader stands behind it.
    InvalidPacketId { expected: u8, got: u8, packet: GenericPacket },
    /// The body took more bytes than the frame announced: the reader stands inside the next
    /// frame and cannot be used further.
    PacketSizeMismatch { expected: usize, got: usize },
}

/// What a `ReadPacketError` says.
#[allow(inconsistent_fields)]
pub enum ReadFailure {
    Io(IoError),
    InvalidPacketId { expected: u8, got: u8, packet: Seq<u8> },
    PacketSizeMismatch { expected: nat, got: nat },
}

impl View for ReadPacketError {
    type V = ReadFailure;

    open spec fn view(&self) -> ReadFailure {
        match *self {
            ReadPacketError::Io(e) => ReadFailure::Io(e),
            ReadPacketError::InvalidPacketId { expected, got, packet } => {
                ReadFailure::InvalidPacketId { expected, got, packet: packet@ }
            },
            ReadPacketError::PacketSizeMismatch { expected, got } => {
                ReadFailure::PacketSizeMismatch { expected: expected as nat, got: got as nat }
            },
        }
    }
}

impl From<IoError> for ReadPacketError {
    fn from(e: IoError) -> (r: Self)
        ensures
            r == ReadPacketError::Io(e),
    {
        ReadPacketError::Io(e)
    }
}

impl vstd::std_specs::convert::FromSpecImpl<IoError> for ReadPacketError {
    open spec fn obeys_from_spec() -> bool {
        true
    }

    open spec fn from_spec(e: IoError) -> Self {
        ReadPacketError::Io(e)
    }
}

/// Why no packet with a version-dependent ID was read.
#[derive(Debug)]
pub enum ReadVersionedPacketError {
    Read(ReadPacketError),
    /// The packet has no ID in this protocol version. Nothing was read.
    UnknownVersionedPacketId { protocol: i32 },
}

impl From<ReadPacketError> for ReadVersionedPacketError {
    fn from(e: ReadPacketError) -> (r: Self)
        ensures
            r == ReadVersionedPacketError::Read(e),
    {
        ReadVersionedPacketError::Read(e)
    }
}

impl vstd::std_specs::convert::FromSpecImpl<ReadPacketError> for ReadVersionedPacketError {
    open spec fn obeys_from_spec() -> bool {
        true
    }

    open spec fn from_spec(e: ReadPacketError) -> Self {
        ReadVersionedPacketError::Read(e)
    }
}

/// What comes of reading a body that the frame announces as `body_length` bytes: the packet with
/// the number of bytes that are taken from `input`, or the failure.
///
/// The size of the packet that was read is held against the announced length. A smaller packet
/// is accepted, and the bytes that the announced length has beyond it are skipped. A larger one
/// means that bytes of the next frame were taken.
pub open spec fn read_body<P: ReadPacket + PacketBody>(input: Seq<u8>, body_length: i32) -> Result<
    (P::V, nat),
    ReadFailure,
> {
    match P::spec_read(input, body_length) {
        Err(e) => Err(ReadFailure::Io(e)),
        Ok((v, n)) => {
            let size = P::body(v).len();
            if size == body_length {
                Ok((v, n))
            } else if body_length < size {
                Err(ReadFailure::PacketSizeMismatch { expected: body_length as nat, got: size })
            } else if input.len() < n + (body_length - size) {
                Err(ReadFailure::Io(IoError::UnexpectedEof))
            } else {
                Ok((v, (n + (body_length - size)) as nat))
            }
        },
    }
}

/// What comes of reading one frame from `input`, where `packet_id` is the ID that the framing
/// expects, if it handles one: the packet with the number of bytes that are taken, or the
/// failure.
///
/// A length that is negative, or too small to hold the ID, is invalid data.
#[verifier::opaque]
pub open spec fn read_frame<P: ReadPacket + PacketBody>(
    input: Seq<u8>,
    packet_id: Option<u8>,
) -> Result<(P::V, nat), ReadFailure> {
    match parse_varint(input) {
        Err(e) => Err(ReadFailure::Io(e)),
        Ok((length, n)) => match packet_id {
            None => {
                if length < 0 {
                    Err(ReadFailure::Io(IoError::InvalidData))
                } else {
                    match read_body::<P>(input.skip(n as int), length) {
                        Ok((v, m)) => Ok((v, n + m)),
                        Err(e) => Err(e),
                    }
                }
            },
            Some(id) => {
                if length < 1 {
                    Err(ReadFailure::Io(IoError::InvalidData))
                } else if input.len() < n + 1 {
                    Err(ReadFailure::Io(IoError::UnexpectedEof))
                } else if input[n as int] != id {
                    if input.len() < n + length {
                        Err(ReadFailure::Io(IoError::UnexpectedEof))
                    } else {
                        Err(
                            ReadFailure::InvalidPacketId {
                                expected: id,
                                got: input[n as int],
                                packet: input.subrange(n as int, n + length),
                            },
                        )
                    }
                } else {
                    match read_body::<P>(input.skip(n + 1 as int), (length - 1) as i32) {
                        Ok((v, m)) => Ok((v, n + 1 + m)),
                        Err(e) => Err(e),
                    }
                }
            },
        },
    }
}

/// The number of bytes that reading one frame takes from `input` where the frame holds a packet
/// with another ID than the expected one: the whole frame.
pub open spec fn skipped_frame(input: Seq<u8>) -> nat {
    match parse_varint(input) {
        Ok((length, n)) => (n + length) as nat,
        Err(_) => 0,
    }
}

/// Reading a frame takes at least one byte, whether a packet is read or a frame with another
/// ID is handed back, and a frame that is handed back lies within the input. A size mismatch
/// is only reported of a body that took more than was announced.
pub proof fn lemma_frame_takes_bytes<P: ReadPacket + PacketBody>(
    input: Seq<u8>,
    packet_id: Option<u8>,
)
    ensures
        match read_frame::<P>(input, packet_id) {
            Ok((v, n)) => n >= 1,
            Err(ReadFailure::InvalidPacketId { expected, got, packet }) => {
                &&& 1 <= skipped_frame(input) <= input.len()
                &&& 1 <= packet.len() <= i32::MAX
                &&& packet[0] == got
                &&& Some(expected) == packet_id
                &&& got != expected
            },
            Err(ReadFailure::PacketSizeMismatch { expected, got }) => expected < got,
            Err(ReadFailure::Io(_)) => true,
        },
{
    reveal(read_frame);
    lemma_varint_takes_bytes(input);
}

/// A body that is read, with what is skipped behind it, lies within the input. What comes of
/// reading a body stays the same when more bytes follow the input, unless the input ends too
/// early.
pub proof fn lemma_body_is_stable<P: ReadPacket + PacketBody>(
    input: Seq<u8>,
    more: Seq<u8>,
    body_length: i32,
)
    ensures
        read_body::<P>(input, body_length) matches Ok((v, n)) ==> n <= input.len(),
        read_body::<P>(input, body_length) != Err::<(P::V, nat), ReadFailure>(
            ReadFailure::Io(IoError::UnexpectedEof),
        ) ==> read_body::<P>(input + more, body_length) == read_body::<P>(input, body_length),
{
    P::lemma_read_is_stable(input, more, body_length);
}

/// A frame that is read lies within the input. What comes of reading a frame stays the same
/// when more bytes follow the input, unless the input ends too early.
pub proof fn lemma_frame_is_stable<P: ReadPacket + PacketBody>(
    input: Seq<u8>,
    more: Seq<u8>,
    packet_id: Option<u8>,
)
    ensures
        read_frame::<P>(input, packet_id) matches Ok((v, n)) ==> n <= input.len(),
        read_frame::<P>(input, packet_id) != Err::<(P::V, nat), ReadFailure>(
            ReadFailure::Io(IoError::UnexpectedEof),
        ) ==> {
            &&& read_frame::<P>(input + more, packet_id) == read_frame::<P>(input, packet_id)
            &&& skipped_frame(input + more) == skipped_frame(input)
        },
{
    reveal(read_frame);
    lemma_varint_takes_bytes(input);
    if parse_varint(input) != Err::<(i32, nat), IoError>(IoError::UnexpectedEof) {
        lemma_varint_stable(input, more);
    }
    if let Ok((length, n)) = parse_varint(input) {
        match packet_id {
            None => {
                if length >= 0 {
                    assert((input + more).skip(n as int) =~= input.skip(n as int) + more);
                    lemma_body_is_stable::<P>(input.skip(n as int), more, length);
                }
            },
            Some(id) => {
                if length >= 1 && input.len() >= n + 1 {
                    if input[n as int] != id {
                        if input.len() >= n + length {
                            assert((input + more).subrange(n as int, n + length)
                                =~= input.subrange(n as int, n + length));
                        }
                    } else {
                        assert((input + more).skip(n + 1 as int) =~= input.skip(n + 1 as int)
                            + more);
                        lemma_body_is_stable::<P>(
                            input.skip(n + 1 as int),
                            more,
                            (length - 1) as i32,
                        );
                    }
                }
            },
        }
    }
}

/// A frame whose payload begins with another ID than the expected one is not read as the
/// packet: its payload is handed back whole, the ID first, and the whole frame is taken.
pub proof fn lemma_other_id_is_handed_back<P: ReadPacket + PacketBody>(
    length: i32,
    got: u8,
    rest: Seq<u8>,
    expected: u8,
)
    requires
        length >= 1,
        got != expected,
        rest.len() >= length - 1,
    ensures
        read_frame::<P>(varint_bytes(length) + seq![got] + rest, Some(expected)) == Err::<
            (P::V, nat),
            ReadFailure,
        >(
            ReadFailure::InvalidPacketId {
                expected,
                got,
                packet: seq![got] + rest.take(length - 1),
            },
        ),
        skipped_frame(varint_bytes(length) + seq![got] + rest) == varint_size(length) + length,
{
    reveal(read_frame);
    let input = varint_bytes(length) + seq![got] + rest;
    let n = varint_size(length);
    lemma_varint_size(length);
    lemma_varint_roundtrip(length, seq![got] + rest);
    assert(input =~= varint_bytes(length) + (seq![got] + rest));
    assert(input[n as int] == got);
    assert(input.subrange(n as int, n + length) =~= seq![got] + rest.take(length - 1));
}

/// A packet whose body is read back as it was written is read back from its frame, whatever
/// follows the frame, and the frame is what is taken.
pub proof fn lemma_frame_roundtrip<P: ReadPacket + PacketBody>(
    v: P::V,
    packet_id: Option<u8>,
    rest: Seq<u8>,
)
    requires
        packet_id is Some ==> 1 + P::body(v).len() <= i32::MAX,
        packet_id is None ==> P::body(v).len() <= i32::MAX,
        P::spec_read(P::body(v) + rest, P::body(v).len() as i32) == Ok::<(P::V, nat), IoError>(
            (v, P::body(v).len()),
        ),
    ensures
        read_frame::<P>(frame(packet_id, P::body(v)) + rest, packet_id) == Ok::<
            (P::V, nat),
            ReadFailure,
        >((v, frame(packet_id, P::body(v)).len())),
{
    reveal(read_frame);
    let body = P::body(v);
    let input = frame(packet_id, body) + rest;
    match packet_id {
        Some(id) => {
            let length = (1 + body.len()) as i32;
            let n = varint_size(length);
            lemma_varint_size(length);
            lemma_varint_roundtrip(length, seq![id] + body + rest);
            assert(input =~= varint_bytes(length) + (seq![id] + body + rest));
            assert(input[n as int] == id);
            assert(input.skip(n + 1 as int) =~= body + rest);
        },
        None => {
            let length = body.len() as i32;
            let n = varint_size(length);
            lemma_varint_size(length);
            lemma_varint_roundtrip(length, body + rest);
            assert(input =~= varint_bytes(length) + (body + rest));
            assert(input.skip(n as int) =~= body + rest);
        },
    }
}

/// Reads one frame off the front of `reader`.
///
/// After a packet, and after a frame with another ID, the reader stands behind the frame.
#[verifier::rlimit(30)]
pub fn read_packet_general<P: ReadPacket + Packet<Id>, Id: AsId>(
    reader: &mut ByteReader,
    packet_id: Option<u8>,
) -> (r: Result<P, ReadPacketError>)
    ensures
        match read_frame::<P>(old(reader)@, packet_id) {
            Ok((v, n)) => {
                &&& r is Ok
                &&& r.unwrap()@ == v
                &&& n <= old(reader)@.len()
                &&& final(reader)@ == old(reader)@.skip(n as int)
            },
            Err(e) => {
                &&& r matches Err(x) && x@ == e
                &&& e is InvalidPacketId ==> {
                    &&& skipped_frame(old(reader)@) <= old(reader)@.len()
                    &&& final(reader)@ == old(reader)@.skip(skipped_frame(old(reader)@) as int)
                }
            },
        },
{
    proof {
        reveal(read_frame);
    }
    let ghost input = reader@;
    let packet_length = match VarInt::read(reader) {
        Ok(length) => length.get(),
        Err(e) => {
            return Err(ReadPacketError::from(e));
        },
    };
    let ghost n = parse_varint(input).unwrap().1;
    let body_length = match packet_id {
        Some(packet_id) => {
            if packet_length < 1 {
                return Err(ReadPacketError::Io(IoError::InvalidData));
            }
            let read_packet_id = match reader.read_u8() {
                Ok(id) => id,
                Err(e) => {
                    return Err(ReadPacketError::from(e));
                },
            };
            if read_packet_id != packet_id {
                let rest = match reader.read_exact((packet_length - 1) as usize) {
                    Ok(rest) => rest,
                    Err(e) => {
                        return Err(ReadPacketError::from(e));
                    },
                };
                let mut data: Vec<u8> = Vec::new();
                data.push(read_packet_id);
                append_bytes(&mut data, rest.as_slice());
                proof {
                    assert(data@ =~= input.subrange(n as int, n + packet_length));
                    assert(reader@ =~= input.skip(n + packet_length));
                }
                return Err(
                    ReadPacketError::InvalidPacketId {
                        expected: packet_id,
                        got: read_packet_id,
                        packet: GenericPacket::new(data),
                    },
                );
            }
            assert(reader@ =~= input.skip(n + 1 as int));
            packet_length - 1
        },
        None => {
            if packet_length < 0 {
                return Err(ReadPacketError::Io(IoError::InvalidData));
            }
            packet_length
        },
    };
    let ghost at_body = reader@;
    let ghost before_body = (input.len() - at_body.len()) as nat;
    let expected_length = match VarInt::new(body_length) {
        Ok(length) => length,
        Err(_) => {
            return Err(ReadPacketError::Io(IoError::InvalidData));
        },
    };
    let packet = match P::read(reader, expected_length) {
        Ok(packet) => packet,
        Err(e) => {
            return Err(ReadPacketError::from(e));
        },
    };
    let packet_size = packet.byte_size();
    if body_length as usize != packet_size {
        if (body_length as usize) < packet_size {
            return Err(
                ReadPacketError::PacketSizeMismatch {
                    expected: body_length as usize,
                    got: packet_size,
                },
            );
        }
        let remaining = body_length as usize - packet_size;
        match reader.read_exact(remaining) {
            Ok(_) => {},
            Err(e) => {
                return Err(ReadPacketError::from(e));
            },
        }
    }
    proof {
        let taken = read_body::<P>(at_body, body_length)->Ok_0.1;
        assert(reader@ =~= input.skip(before_body + taken as int));
    }
    Ok(packet)
}

impl<'a> ReadPacketExt<Manual> for ByteReader<'a> {
    /// Reads one frame as a packet that has no ID of its own.
    fn read_packet<P: ReadPacket + Packet<Manual>>(&mut self) -> (r: Result<P, ReadPacketError>)
        ensures
            match read_frame::<P>(old(self)@, None) {
                Ok((v, n)) => {
                    &&& r is Ok
                    &&& r.unwrap()@ == v
                    &&& n <= old(self)@.len()
                    &&& final(self)@ == old(self)@.skip(n as int)
                },
                Err(e) => r matches Err(x) && x@ == e,
            },
    {
        read_packet_general::<P, Manual>(self, None)
    }
}

impl<'a> ReadPacketExt<Managed> for ByteReader<'a> {
    /// Reads one frame as a packet with a fixed ID. A frame with another ID is read whole and
    /// handed back in the error, and the reader stands behind it.
    fn read_packet<P: ReadPacket + Packet<Managed>>(&mut self) -> (r: Result<P, ReadPacketError>)
        ensures
            match read_frame::<P>(old(self)@, Some(P::spec_packet_id())) {
                Ok((v, n)) => {
                    &&& r is Ok
                    &&& r.unwrap()@ == v
                    &&& n <= old(self)@.len()
                    &&& final(self)@ == old(self)@.skip(n as int)
                },
                Err(e) => {
                    &&& r matches Err(x) && x@ == e
                    &&& e is InvalidPacketId ==> {
                        &&& skipped_frame(old(self)@) <= old(self)@.len()
                        &&& final(self)@ == old(self)@.skip(skipped_frame(old(self)@) as int)
                    }
                },
            },
    {
        read_packet_general::<P, Managed>(self, Some(P::packet_id().0))
    }
}

impl<'a> ReadVersionedPacketExt<VersionDependent> for ByteReader<'a> {
    /// Reads one frame as a packet with the ID that it has in `protocol`. Where it has none,
    /// nothing is read.
    fn read_packet_versioned<P: ReadPacket + Packet<VersionDependent>>(
        &mut self,
        protocol: i32,
    ) -> (r: Result<P, ReadVersionedPacketError>)
        ensures
            match version_id(P::spec_packet_id(), protocol) {
                None => {
                    &&& r matches Err(
                        ReadVersionedPacketError::UnknownVersionedPacketId { protocol: p },
                    ) && p == protocol
                    &&& final(self)@ == old(self)@
                },
                Some(id) => match read_frame::<P>(old(self)@, Some(id)) {
                    Ok((v, n)) => {
                        &&& r is Ok
                        &&& r.unwrap()@ == v
                        &&& n <= old(self)@.len()
                        &&& final(self)@ == old(self)@.skip(n as int)
                    },
                    Err(e) => {
                        &&& r matches Err(ReadVersionedPacketError::Read(x)) && x@ == e
                        &&& e is InvalidPacketId ==> {
                            &&& skipped_frame(old(self)@) <= old(self)@.len()
                            &&& final(self)@ == old(self)@.skip(skipped_frame(old(self)@) as int)
                        }
                    },
                },
            },
    {
        let packet_id = match P::packet_id().get(protocol) {
            Some(id) => id,
            None => {
                return Err(ReadVersionedPacketError::UnknownVersionedPacketId { protocol });
            },
        };
        match read_packet_general::<P, VersionDependent>(self, Some(packet_id)) {
            Ok(packet) => Ok(packet),
            Err(e) => Err(ReadVersionedPacketError::from(e)),
        }
    }
}

} // verus!
