//! The packets that tell a client why it is being turned away.

use crate::io::IoError;
use crate::packets::id::{version_id, Managed, VersionDependent, VersionRange};
use crate::packets::packet_write::WritePacket;
use crate::packets::{Packet, PacketBody};
use crate::types::{fits, lemma_encode_utf8_concat, string_bytes, MCData, MCString};
use vstd::pervasive::unreached;
use vstd::prelude::*;
use vstd::string::StringExecFns;
use vstd::utf8::{encode_utf8, is_ascii_chars, is_ascii_chars_encode_utf8};

verus! {

/// The chat component that shows `reason` in red. The reason is put between the quotes as it
/// is.
pub open spec fn disconnect_json(reason: Seq<char>) -> Seq<char> {
    "{\"text\":\""@ + reason + "\",\"color\":\"red\"}"@
}

/// The chat component is 25 bytes longer than the reason.
pub proof fn lemma_disconnect_json_length(reason: Seq<char>)
    ensures
        encode_utf8(disconnect_json(reason)).len() == encode_utf8(reason).len() + 25,
{
    let head = "{\"text\":\""@;
    let tail = "\",\"color\":\"red\"}"@;
    reveal_strlit("{\"text\":\"");
    reveal_strlit("\",\"color\":\"red\"}");
    assert(is_ascii_chars(head));
    assert(is_ascii_chars(tail));
    is_ascii_chars_encode_utf8(head);
    is_ascii_chars_encode_utf8(tail);
    lemma_encode_utf8_concat(head, reason);
    lemma_encode_utf8_concat(head + reason, tail);
}

/// A disconnect during login.
#[derive(Debug)]
pub struct Disconnect {
    pub reason: MCString<32767>,
}

impl View for Disconnect {
    type V = Seq<char>;

    /// The chat component that the client shows.
    open spec fn view(&self) -> Seq<char> {
        self.reason@
    }
}

impl Disconnect {
    /// A disconnect that shows `reason` in red. The chat component must fit a string of 32767
    /// bytes.
    pub fn reason(reason: &str) -> (packet: Self)
        requires
            fits(encode_utf8(disconnect_json(reason@)).len(), 32767),
        ensures
            packet@ == disconnect_json(reason@),
    {
        let mut text = String::from_str("{\"text\":\"");
        text.append(reason);
        text.append("\",\"color\":\"red\"}");
        match MCString::new(text) {
            Ok(reason) => Disconnect { reason },
            Err(_) => unreached(),
        }
    }
}

impl PacketBody for Disconnect {
    open spec fn body(v: Seq<char>) -> Seq<u8> {
        string_bytes(v)
    }
}

impl Packet<Managed> for Disconnect {
    open spec fn spec_packet_id() -> u8 {
        0x00
    }

    fn packet_id() -> (id: Managed) {
        Managed(0x00)
    }

    fn byte_size(&self) -> (n: usize) {
        self.reason.byte_size()
    }
}

impl WritePacket for Disconnect {
    fn write(&self, writer: &mut Vec<u8>) -> (r: Result<(), IoError>) {
        self.reason.write(writer)
    }
}

/// The ID of the disconnect packet of the play phase in the protocol version `protocol`.
/// Versions after 340 have none here.
pub open spec fn play_disconnect_id(protocol: i32) -> Option<u8> {
    if 0 <= protocol < 67 {
        Some(0x40u8)
    } else if 67 <= protocol < 80 {
        Some(0x19u8)
    } else if 80 <= protocol < 318 {
        Some(0x1Au8)
    } else if 318 <= protocol < 332 {
        Some(0x1Bu8)
    } else if 332 <= protocol <= 340 {
        Some(0x1Au8)
    } else {
        None
    }
}

/// The ranges of protocol versions in which the disconnect packet of the play phase has an ID.
pub open spec fn play_disconnect_ranges() -> Seq<VersionRange> {
    seq![
        VersionRange { first: 0, last: 66, id: 0x40 },
        VersionRange { first: 67, last: 79, id: 0x19 },
        VersionRange { first: 80, last: 317, id: 0x1A },
        VersionRange { first: 318, last: 331, id: 0x1B },
        VersionRange { first: 332, last: 340, id: 0x1A },
    ]
}

/// The ranges give every protocol version the ID that `play_disconnect_id` names.
pub proof fn lemma_play_disconnect_ranges(protocol: i32)
    ensures
        version_id(play_disconnect_ranges(), protocol) == play_disconnect_id(protocol),
{
    let r0 = play_disconnect_ranges();
    let r1 = r0.skip(1);
    let r2 = r1.skip(1);
    let r3 = r2.skip(1);
    let r4 = r3.skip(1);
    let r5 = r4.skip(1);
    reveal_with_fuel(version_id, 6);
    assert(r1[0] == r0[1]);
    assert(r2[0] == r0[2]);
    assert(r3[0] == r0[3]);
    assert(r4[0] == r0[4]);
    assert(r5.len() == 0);
}

/// A disconnect during play. Its ID depends on the protocol version.
#[derive(Debug)]
pub struct PlayDisconnect {
    inner: Disconnect,
}

impl View for PlayDisconnect {
    type V = Seq<char>;

    /// The chat component that the client shows.
    closed spec fn view(&self) -> Seq<char> {
        self.inner@
    }
}

impl PlayDisconnect {
    /// A disconnect that shows `reason` in red. The chat component must fit a string of 32767
    /// bytes.
    pub fn reason(reason: &str) -> (packet: Self)
        requires
            fits(encode_utf8(disconnect_json(reason@)).len(), 32767),
        ensures
            packet@ == disconnect_json(reason@),
    {
        Self { inner: Disconnect::reason(reason) }
    }

    /// The ID of this packet in the protocol version `protocol`, if it has one.
    pub fn protocol_id(protocol: i32) -> (id: Option<u8>)
        ensures
            id == play_disconnect_id(protocol),
    {
        if protocol < 0 {
            None
        } else if protocol < 67 {
            Some(0x40)
        } else if protocol < 80 {
            Some(0x19)
        } else if protocol < 318 {
            Some(0x1A)
        } else if protocol < 332 {
            Some(0x1B)
        } else if protocol <= 340 {
            Some(0x1A)
        } else {
            None
        }
    }
}

impl PacketBody for PlayDisconnect {
    open spec fn body(v: Seq<char>) -> Seq<u8> {
        string_bytes(v)
    }
}

impl Packet<VersionDependent> for PlayDisconnect {
    open spec fn spec_packet_id() -> Seq<VersionRange> {
        play_disconnect_ranges()
    }

    fn packet_id() -> (id: VersionDependent) {
        let mut ranges: Vec<VersionRange> = Vec::new();
        ranges.push(VersionRange { first: 0, last: 66, id: 0x40 });
        ranges.push(VersionRange { first: 67, last: 79, id: 0x19 });
        ranges.push(VersionRange { first: 80, last: 317, id: 0x1A });
        ranges.push(VersionRange { first: 318, last: 331, id: 0x1B });
        ranges.push(VersionRange { first: 332, last: 340, id: 0x1A });
        assert(ranges@ =~= play_disconnect_ranges());
        VersionDependent(ranges)
    }

    fn byte_size(&self) -> (n: usize) {
        self.inner.byte_size()
    }
}

impl WritePacket for PlayDisconnect {
    fn write(&self, writer: &mut Vec<u8>) -> (r: Result<(), IoError>) {
        self.inner.write(writer)
    }
}

} // verus!
