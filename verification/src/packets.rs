//! The packets of the handshake and login phases, and how they are framed.

pub mod disconnect;
pub mod generic;
pub mod handshake;
pub mod id;
pub mod login_start;
pub mod packet_read;
pub mod packet_write;
pub mod velocity_plugin_request;
pub mod velocity_plugin_response;

pub use disconnect::{Disconnect, PlayDisconnect};
pub use generic::GenericPacket;
pub use handshake::Handshake;
pub use login_start::LoginStart;
pub use velocity_plugin_request::VelocityLoginPluginRequest;
pub use velocity_plugin_response::VelocityLoginPluginResponse;

use vstd::prelude::*;

verus! {

/// A value with a packet body: the bytes that follow the length and the packet ID on the wire.
pub trait PacketBody: View {
    /// The bytes of the body of `v`.
    spec fn body(v: Self::V) -> Seq<u8>;
}

/// A packet whose ID is found in the way that `ID` names.
pub trait Packet<ID: id::AsId>: PacketBody + Sized {
    /// The ID of this kind of packet.
    spec fn spec_packet_id() -> ID::V;

    /// The ID of this kind of packet.
    fn packet_id() -> (id: ID)
        ensures
            id@ == Self::spec_packet_id(),
    ;

    /// The number of bytes in the body: without the ID where the framing handles it, with it
    /// where the ID is `Manual`.
    fn byte_size(&self) -> (n: usize)
        ensures
            n == Self::body(self@).len(),
    ;
}

} // verus!
