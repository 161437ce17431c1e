//! The state machine of one proxied connection.
//!
//! The machine does no I/O. Whoever owns the sockets hands it what happened as an [`Event`] and
//! gets back the writes to perform, in their order, as [`Action`]s. What to do next follows from
//! the [`Phase`]: before forwarding, read from the client and hand the bytes in; while
//! forwarding, copy bytes both ways until that ends or shutdown is asked for; once terminated,
//! close both sockets.

pub mod laws;

use crate::io::{ByteReader, IoError};
use crate::packets::disconnect::{
    disconnect_json, lemma_disconnect_json_length, lemma_play_disconnect_ranges,
    play_disconnect_id, Disconnect, PlayDisconnect,
};
use crate::packets::generic::GenericPacket;
use crate::packets::handshake::{
    forwarding_data, lemma_handshake_roundtrip, Handshake, HandshakeView,
};
use crate::packets::id::{Managed, Manual};
use crate::packets::login_start::{LoginStart, LoginStartView};
use crate::packets::packet_read::{
    lemma_frame_roundtrip, lemma_frame_takes_bytes, lemma_other_id_is_handed_back, read_frame,
    skipped_frame, ReadFailure, ReadPacketError, ReadPacketExt,
};
use crate::packets::packet_write::{
    frame, WritePacket, WritePacketExt, WriteVersionedPacketExt,
};
use crate::packets::velocity_plugin_request::{lemma_channel_length, VelocityLoginPluginRequest};
use crate::packets::velocity_plugin_response::{
    signature_valid, ResponseView, VelocityLoginPluginResponse,
};
use crate::packets::{Packet, PacketBody};
use crate::types::{fits, lemma_varint_size, string_bytes, varint_bytes, varint_size};
use vstd::prelude::*;
use vstd::utf8::{encode_utf8, is_ascii_chars, is_ascii_chars_encode_utf8};

verus! {

/// Something that happened to a connection.
#[derive(Debug)]
pub enum Event {
    /// The client sent these bytes.
    Received(Vec<u8>),
    /// The client's stream ended, or a read or a write failed.
    Failed,
    /// Copying bytes in both directions came to its end.
    Finished,
    /// Shutdown was asked for.
    Cancelled,
}

/// What an `Event` says.
pub enum EventView {
    Received(Seq<u8>),
    Failed,
    Finished,
    Cancelled,
}

impl View for Event {
    type V = EventView;

    open spec fn view(&self) -> EventView {
        match *self {
            Event::Received(bytes) => EventView::Received(bytes@),
            Event::Failed => EventView::Failed,
            Event::Finished => EventView::Finished,
            Event::Cancelled => EventView::Cancelled,
        }
    }
}

/// A write to perform: the bytes go out in a single write.
#[derive(Debug)]
pub enum Action {
    SendClient(Vec<u8>),
    SendBackend(Vec<u8>),
}

/// What an `Action` says.
pub enum ActionView {
    SendClient(Seq<u8>),
    SendBackend(Seq<u8>),
}

impl View for Action {
    type V = ActionView;

    open spec fn view(&self) -> ActionView {
        match *self {
            Action::SendClient(bytes) => ActionView::SendClient(bytes@),
            Action::SendBackend(bytes) => ActionView::SendBackend(bytes@),
        }
    }
}

/// What each of `actions` says.
pub open spec fn action_views(actions: Seq<Action>) -> Seq<ActionView> {
    actions.map_values(|a: Action| a@)
}

/// Where a connection stands.
#[derive(Clone, Copy, Debug, PartialEq, Eq, Structural)]
pub enum Phase {
    /// Client and backend are there; the handshake is awaited.
    Paired,
    /// The client asked to log in; its login start is awaited.
    AwaitLoginStart,
    /// The plugin request is out; the response is awaited, and other packets are kept.
    AwaitPluginResponse,
    /// A status exchange is copied in both directions.
    StatusForwarding,
    /// The player is logged in; bytes are copied in both directions.
    Splicing,
    /// Nothing more happens; both sockets are to be closed.
    Terminated,
}

/// The state of a connection with what it holds.
pub enum StateView {
    Paired,
    AwaitLoginStart { handshake: HandshakeView },
    AwaitPluginResponse {
        handshake: HandshakeView,
        login_start: LoginStartView,
        /// The payloads of the frames that came in the place of the response, oldest first.
        buffer: Seq<Seq<u8>>,
    },
    StatusForwarding { protocol: i32 },
    Splicing { protocol: i32 },
    Terminated,
}

/// What a `Connection` holds.
pub struct ConnectionView {
    /// The number that ties the plugin request to its response.
    pub connection_id: i32,
    pub state: StateView,
    /// The client's bytes that came in and are not yet framed.
    pub inbound: Seq<u8>,
}

/// A connection after an event, and the writes that the event asks for.
pub struct Outcome {
    pub conn: ConnectionView,
    pub actions: Seq<ActionView>,
}

/// Why a login is refused when the signature does not hold.
pub open spec fn verification_failed_reason() -> Seq<char> {
    "Failed to verify your identity, please rejoin the server"@
}

/// Why a client is sent away at shutdown.
pub open spec fn shutdown_reason() -> Seq<char> {
    "The Proxy is shutting down"@
}

/// Why a login from an untrusted address is refused.
pub open spec fn untrusted_reason() -> Seq<char> {
    "You are not allowed to connect to this server directly!"@
}

/// The frame of a handshake.
pub open spec fn handshake_frame(v: HandshakeView) -> Seq<u8> {
    frame(Some(0x00u8), Handshake::body(v))
}

/// The frame of a login start.
pub open spec fn login_start_frame(v: LoginStartView) -> Seq<u8> {
    frame(Some(0x00u8), LoginStart::body(v))
}

/// The frame of the plugin request with the message ID `id`.
pub open spec fn request_frame(id: i32) -> Seq<u8> {
    frame(Some(0x04u8), VelocityLoginPluginRequest::body(id))
}

/// The frame of a login disconnect that shows `reason`.
pub open spec fn disconnect_frame(reason: Seq<char>) -> Seq<u8> {
    frame(Some(0x00u8), string_bytes(disconnect_json(reason)))
}

/// The frame of a play disconnect with the ID `id` that shows `reason`.
pub open spec fn play_disconnect_frame(id: u8, reason: Seq<char>) -> Seq<u8> {
    frame(Some(id), string_bytes(disconnect_json(reason)))
}

/// The write that hands bytes which are left over to the backend; none where none are left.
pub open spec fn flush(bytes: Seq<u8>) -> Seq<ActionView> {
    if bytes.len() == 0 {
        Seq::empty()
    } else {
        seq![ActionView::SendBackend(bytes)]
    }
}

/// Whether packets are still read from the client in this state.
pub open spec fn reads_packets(state: StateView) -> bool {
    state is Paired || state is AwaitLoginStart || state is AwaitPluginResponse
}

/// The connection at its end: what was left of the client's bytes is dropped.
pub open spec fn terminated(conn: ConnectionView) -> ConnectionView {
    ConnectionView {
        connection_id: conn.connection_id,
        state: StateView::Terminated,
        inbound: Seq::empty(),
    }
}

/// What follows a handshake, when `rest` is what the client sent behind it.
///
/// For status the handshake goes to the backend as it is, followed by `rest`, and bytes are
/// copied from then on. For login the login start is awaited. Transfer, and any other number,
/// ends the connection without a word.
pub open spec fn after_handshake(
    conn: ConnectionView,
    handshake: HandshakeView,
    rest: Seq<u8>,
) -> Outcome {
    if handshake.next_state == 1 {
        Outcome {
            conn: ConnectionView {
                connection_id: conn.connection_id,
                state: StateView::StatusForwarding { protocol: handshake.protocol_version },
                inbound: Seq::empty(),
            },
            actions: seq![ActionView::SendBackend(handshake_frame(handshake))] + flush(rest),
        }
    } else if handshake.next_state == 2 {
        Outcome {
            conn: ConnectionView {
                connection_id: conn.connection_id,
                state: StateView::AwaitLoginStart { handshake },
                inbound: rest,
            },
            actions: Seq::empty(),
        }
    } else {
        Outcome { conn: terminated(conn), actions: Seq::empty() }
    }
}

/// What follows a plugin response, when `valid` says whether its signature holds and
/// `conn.inbound` is what the client sent behind it.
///
/// A response to another request ends the connection without a word. One whose signature does
/// not hold ends it with a disconnect to the client. Otherwise the backend gets, in this
/// order: the handshake with the forwarding data for its server address, the login start with
/// the player's name from the response, each packet that was kept, oldest first, and what the
/// client sent behind the response; bytes are copied from then on. Forwarding data that is too
/// long for a string ends the connection without a word.
///
/// A connection that awaits no response stays as it is.
pub open spec fn complete_login_spec(
    conn: ConnectionView,
    response: ResponseView,
    valid: bool,
) -> Outcome {
    match conn.state {
        StateView::AwaitPluginResponse { handshake, login_start, buffer } => {
            let data = forwarding_data(
                handshake.server_address,
                response.payload.client_address,
                response.payload.player_uuid,
                response.payload.properties,
            );
            if response.connection_id != conn.connection_id {
                Outcome { conn: terminated(conn), actions: Seq::empty() }
            } else if !valid {
                Outcome {
                    conn: terminated(conn),
                    actions: seq![
                        ActionView::SendClient(disconnect_frame(verification_failed_reason())),
                    ],
                }
            } else if !fits(encode_utf8(data).len(), 32767) {
                Outcome { conn: terminated(conn), actions: Seq::empty() }
            } else {
                Outcome {
                    conn: ConnectionView {
                        connection_id: conn.connection_id,
                        state: StateView::Splicing { protocol: handshake.protocol_version },
                        inbound: Seq::empty(),
                    },
                    actions: seq![
                        ActionView::SendBackend(
                            handshake_frame(HandshakeView { server_address: data, ..handshake }),
                        ),
                        ActionView::SendBackend(
                            login_start_frame(
                                LoginStartView { username: response.payload.username },
                            ),
                        ),
                    ] + kept_frames(buffer) + flush(conn.inbound),
                }
            }
        },
        _ => Outcome { conn, actions: Seq::empty() },
    }
}

/// What the next frame of the client's bytes does to the connection; `None` where the bytes do
/// not hold a whole frame yet, or no packets are read in this state.
///
/// A frame that cannot be read as the packet that is awaited ends the connection without a
/// word, with one exception: while the plugin response is awaited, a frame with another ID is
/// kept for the backend.
pub open spec fn step_spec(conn: ConnectionView, secret: Seq<char>) -> Option<Outcome> {
    match conn.state {
        StateView::Paired => match read_frame::<Handshake>(conn.inbound, Some(0x00u8)) {
            Err(ReadFailure::Io(IoError::UnexpectedEof)) => None,
            Err(_) => Some(Outcome { conn: terminated(conn), actions: Seq::empty() }),
            Ok((handshake, n)) => Some(
                after_handshake(conn, handshake, conn.inbound.skip(n as int)),
            ),
        },
        StateView::AwaitLoginStart { handshake } => match read_frame::<LoginStart>(
            conn.inbound,
            Some(0x00u8),
        ) {
            Err(ReadFailure::Io(IoError::UnexpectedEof)) => None,
            Err(_) => Some(Outcome { conn: terminated(conn), actions: Seq::empty() }),
            Ok((login_start, n)) => Some(
                Outcome {
                    conn: ConnectionView {
                        connection_id: conn.connection_id,
                        state: StateView::AwaitPluginResponse {
                            handshake,
                            login_start,
                            buffer: Seq::empty(),
                        },
                        inbound: conn.inbound.skip(n as int),
                    },
                    actions: seq![ActionView::SendClient(request_frame(conn.connection_id))],
                },
            ),
        },
        StateView::AwaitPluginResponse {
            handshake,
            login_start,
            buffer,
        } => match read_frame::<VelocityLoginPluginResponse>(conn.inbound, Some(0x02u8)) {
            Err(ReadFailure::Io(IoError::UnexpectedEof)) => None,
            Err(ReadFailure::InvalidPacketId { expected, got, packet }) => Some(
                Outcome {
                    conn: ConnectionView {
                        connection_id: conn.connection_id,
                        state: StateView::AwaitPluginResponse {
                            handshake,
                            login_start,
                            buffer: buffer.push(packet),
                        },
                        inbound: conn.inbound.skip(skipped_frame(conn.inbound) as int),
                    },
                    actions: Seq::empty(),
                },
            ),
            Err(_) => Some(Outcome { conn: terminated(conn), actions: Seq::empty() }),
            Ok((response, n)) => Some(
                complete_login_spec(
                    ConnectionView {
                        connection_id: conn.connection_id,
                        state: conn.state,
                        inbound: conn.inbound.skip(n as int),
                    },
                    response,
                    signature_valid(secret, response),
                ),
            ),
        },
        _ => None,
    }
}

/// What all the whole frames in the client's bytes do to the connection, one after the other,
/// as long as packets are read.
pub open spec fn run_spec(conn: ConnectionView, secret: Seq<char>) -> Outcome
    decreases conn.inbound.len(),
{
    match step_spec(conn, secret) {
        None => Outcome { conn, actions: Seq::empty() },
        Some(first) => {
            if reads_packets(first.conn.state) && first.conn.inbound.len() < conn.inbound.len() {
                let later = run_spec(first.conn, secret);
                Outcome { conn: later.conn, actions: first.actions + later.actions }
            } else {
                first
            }
        },
    }
}

/// What an event does to a connection.
///
/// Bytes from the client are framed and acted on while packets are read, and go to the backend
/// as they are while bytes are copied. A failure, or the end of the copying, ends the
/// connection. Shutdown ends a connection that copies bytes: the client is sent a play
/// disconnect first, if that packet has an ID in the protocol version of the handshake.
/// Shutdown does not touch a connection that still reads packets. Nothing happens to a
/// connection at its end.
pub open spec fn handle_spec(conn: ConnectionView, secret: Seq<char>, event: EventView) -> Outcome {
    match conn.state {
        StateView::Terminated => Outcome { conn, actions: Seq::empty() },
        StateView::StatusForwarding { protocol } | StateView::Splicing { protocol } => match event {
            EventView::Received(bytes) => Outcome { conn, actions: flush(bytes) },
            EventView::Cancelled => Outcome {
                conn: terminated(conn),
                actions: shutdown_spec(protocol),
            },
            _ => Outcome { conn: terminated(conn), actions: Seq::empty() },
        },
        _ => match event {
            EventView::Received(bytes) => run_spec(
                ConnectionView {
                    connection_id: conn.connection_id,
                    state: conn.state,
                    inbound: conn.inbound + bytes,
                },
                secret,
            ),
            EventView::Cancelled => Outcome { conn, actions: Seq::empty() },
            _ => Outcome { conn: terminated(conn), actions: Seq::empty() },
        },
    }
}

/// What the bytes of an untrusted client are answered with; `None` where they do not hold the
/// whole handshake yet. A handshake that asks for login is answered with a disconnect, anything
/// else with nothing. The client is shut out either way.
pub open spec fn reject_spec(inbound: Seq<u8>) -> Option<Seq<ActionView>> {
    match read_frame::<Handshake>(inbound, Some(0x00u8)) {
        Err(ReadFailure::Io(IoError::UnexpectedEof)) => None,
        Err(_) => Some(Seq::empty()),
        Ok((handshake, n)) => {
            if handshake.next_state == 2 {
                Some(seq![ActionView::SendClient(disconnect_frame(untrusted_reason()))])
            } else {
                Some(Seq::empty())
            }
        },
    }
}

/// The reasons that this module gives are short enough for a disconnect.
proof fn lemma_reasons_fit()
    ensures
        fits(encode_utf8(disconnect_json(verification_failed_reason())).len(), 32767),
        fits(encode_utf8(disconnect_json(shutdown_reason())).len(), 32767),
        fits(encode_utf8(disconnect_json(untrusted_reason())).len(), 32767),
{
    reveal_strlit("Failed to verify your identity, please rejoin the server");
    reveal_strlit("The Proxy is shutting down");
    reveal_strlit("You are not allowed to connect to this server directly!");
    assert(is_ascii_chars(verification_failed_reason()));
    assert(is_ascii_chars(shutdown_reason()));
    assert(is_ascii_chars(untrusted_reason()));
    is_ascii_chars_encode_utf8(verification_failed_reason());
    is_ascii_chars_encode_utf8(shutdown_reason());
    is_ascii_chars_encode_utf8(untrusted_reason());
    lemma_disconnect_json_length(verification_failed_reason());
    lemma_disconnect_json_length(shutdown_reason());
    lemma_disconnect_json_length(untrusted_reason());
}

/// The frame of a packet with a fixed ID.
fn managed_frame<P: WritePacket + Packet<Managed>>(packet: &P) -> (bytes: Vec<u8>)
    requires
        1 + P::body(packet@).len() <= i32::MAX,
    ensures
        bytes@ == frame(Some(P::spec_packet_id()), P::body(packet@)),
{
    let mut bytes: Vec<u8> = Vec::new();
    let written = WritePacketExt::<Managed, P>::write_packet(&mut bytes, packet);
    assert(written is Ok);
    assert(bytes@ =~= frame(Some(P::spec_packet_id()), P::body(packet@)));
    bytes
}

/// The frame of a handshake.
fn handshake_frame_of(handshake: &Handshake) -> (bytes: Vec<u8>)
    ensures
        bytes@ == handshake_frame(handshake@),
{
    proof {
        use_type_invariant(&handshake.server_address);
        lemma_varint_size(handshake@.protocol_version);
        lemma_varint_size(handshake@.next_state);
        lemma_varint_size(encode_utf8(handshake@.server_address).len() as i32);
        crate::io::lemma_be_length(handshake@.server_port as nat, 2);
    }
    managed_frame(handshake)
}

/// The frame of a login start.
fn login_start_frame_of(login_start: &LoginStart) -> (bytes: Vec<u8>)
    ensures
        bytes@ == login_start_frame(login_start@),
{
    proof {
        use_type_invariant(&login_start.username);
        lemma_varint_size(encode_utf8(login_start@.username).len() as i32);
    }
    managed_frame(login_start)
}

/// The frame of the login disconnect that shows `reason`.
fn disconnect_frame_of(reason: &str) -> (bytes: Vec<u8>)
    requires
        fits(encode_utf8(disconnect_json(reason@)).len(), 32767),
    ensures
        bytes@ == disconnect_frame(reason@),
{
    let packet = Disconnect::reason(reason);
    proof {
        lemma_varint_size(encode_utf8(packet@).len() as i32);
    }
    managed_frame(&packet)
}

/// The frame of a packet that was kept as it came.
fn generic_frame_of(packet: &GenericPacket) -> (bytes: Vec<u8>)
    requires
        packet@.len() <= i32::MAX,
    ensures
        bytes@ == frame(None, packet@),
{
    let mut bytes: Vec<u8> = Vec::new();
    let written = WritePacketExt::<Manual, GenericPacket>::write_packet(&mut bytes, packet);
    assert(written is Ok);
    assert(bytes@ =~= frame(None, packet@));
    bytes
}

/// What each of `packets` holds.
pub open spec fn packet_views(packets: Seq<GenericPacket>) -> Seq<Seq<u8>> {
    packets.map_values(|p: GenericPacket| p@)
}

/// The state of a connection with what it holds.
#[derive(Debug)]
enum State {
    Paired,
    AwaitLoginStart { handshake: Handshake },
    AwaitPluginResponse {
        handshake: Handshake,
        login_start: LoginStart,
        buffer: Vec<GenericPacket>,
    },
    StatusForwarding { protocol: i32 },
    Splicing { protocol: i32 },
    Terminated,
}

impl View for State {
    type V = StateView;

    closed spec fn view(&self) -> StateView {
        match *self {
            State::Paired => StateView::Paired,
            State::AwaitLoginStart { handshake } => StateView::AwaitLoginStart {
                handshake: handshake@,
            },
            State::AwaitPluginResponse {
                handshake,
                login_start,
                buffer,
            } => StateView::AwaitPluginResponse {
                handshake: handshake@,
                login_start: login_start@,
                buffer: packet_views(buffer@),
            },
            State::StatusForwarding { protocol } => StateView::StatusForwarding { protocol },
            State::Splicing { protocol } => StateView::Splicing { protocol },
            State::Terminated => StateView::Terminated,
        }
    }
}

/// A client that has no backend yet.
#[derive(Debug)]
pub struct ParitalConnection {
    inbound: Vec<u8>,
}

impl View for ParitalConnection {
    type V = Seq<u8>;

    /// The client's bytes that were handed in.
    closed spec fn view(&self) -> Seq<u8> {
        self.inbound@
    }
}

/// A client with its backend: one proxied connection.
#[derive(Debug)]
pub struct Connection {
    connection_id: i32,
    state: State,
    inbound: Vec<u8>,
}

impl View for Connection {
    type V = ConnectionView;

    closed spec fn view(&self) -> ConnectionView {
        ConnectionView {
            connection_id: self.connection_id,
            state: self.state@,
            inbound: self.inbound@,
        }
    }
}

impl ParitalConnection {
    /// Pairs the client with a backend under the number `connection_id`.
    pub fn with_backend(self, connection_id: i32) -> (conn: Connection)
        ensures
            conn@ == (ConnectionView {
                connection_id,
                state: StateView::Paired,
                inbound: self@,
            }),
    {
        Connection { connection_id, state: State::Paired, inbound: self.inbound }
    }

    /// Takes what an untrusted client sent and says how it is answered: `None` as long as the
    /// handshake is not whole, and then the writes to perform before the client is shut out.
    /// Only the handshake is read.
    pub fn reject_untrusted(&mut self, received: &[u8]) -> (r: Option<Vec<Action>>)
        ensures
            final(self)@ == old(self)@ + received@,
            match reject_spec(final(self)@) {
                None => r is None,
                Some(actions) => r matches Some(a) && action_views(a@) == actions,
            },
    {
        crate::io::append_bytes(&mut self.inbound, received);
        let mut reader = ByteReader::new(self.inbound.as_slice());
        let mut actions: Vec<Action> = Vec::new();
        assert(action_views(actions@) =~= Seq::<ActionView>::empty());
        match ReadPacketExt::<Managed>::read_packet::<Handshake>(&mut reader) {
            Ok(handshake) => {
                if handshake.next_state.get() == 2 {
                    proof {
                        lemma_reasons_fit();
                    }
                    actions.push(
                        Action::SendClient(
                            disconnect_frame_of(
                                "You are not allowed to connect to this server directly!",
                            ),
                        ),
                    );
                    assert(action_views(actions@) =~= seq![
                        ActionView::SendClient(disconnect_frame(untrusted_reason())),
                    ]);
                }
                Some(actions)
            },
            Err(ReadPacketError::Io(IoError::UnexpectedEof)) => None,
            Err(_) => Some(actions),
        }
    }
}

impl Connection {
    #[verifier::type_invariant]
    spec fn inv(self) -> bool {
        match self.state {
            State::AwaitPluginResponse { handshake, login_start, buffer } => short_packets(buffer@),
            _ => true,
        }
    }

    /// A client that was accepted and has no backend yet.
    pub fn initiate() -> (client: ParitalConnection)
        ensures
            client@ == Seq::<u8>::empty(),
    {
        ParitalConnection { inbound: Vec::new() }
    }

    /// Where the connection stands.
    pub fn phase(&self) -> (phase: Phase)
        ensures
            phase == phase_of(self@.state),
    {
        match &self.state {
            State::Paired => Phase::Paired,
            State::AwaitLoginStart { .. } => Phase::AwaitLoginStart,
            State::AwaitPluginResponse { .. } => Phase::AwaitPluginResponse,
            State::StatusForwarding { .. } => Phase::StatusForwarding,
            State::Splicing { .. } => Phase::Splicing,
            State::Terminated => Phase::Terminated,
        }
    }

    /// The number that ties the plugin request to its response.
    pub fn connection_id(&self) -> (id: i32)
        ensures
            id == self@.connection_id,
    {
        self.connection_id
    }

    /// Ends the connection and drops what was left of the client's bytes.
    fn terminate(&mut self)
        ensures
            final(self)@ == terminated(old(self)@),
    {
        self.state = State::Terminated;
        self.inbound = Vec::new();
    }

    /// Drops the client's bytes but the last `rest`.
    fn consume(&mut self, rest: usize)
        requires
            rest <= old(self)@.inbound.len(),
        ensures
            final(self)@ == (ConnectionView {
                connection_id: old(self)@.connection_id,
                state: old(self)@.state,
                inbound: old(self)@.inbound.skip(old(self)@.inbound.len() - rest),
            }),
    {
        proof {
            use_type_invariant(&*self);
        }
        let mut all: Vec<u8> = Vec::new();
        core::mem::swap(&mut self.inbound, &mut all);
        let taken = all.len() - rest;
        self.inbound = all.split_off(taken);
    }

    /// Appends to `actions` the write that hands what is left of the client's bytes to the
    /// backend, and drops those bytes.
    fn flush_inbound(&mut self, actions: &mut Vec<Action>)
        ensures
            final(self)@ == (ConnectionView {
                connection_id: old(self)@.connection_id,
                state: old(self)@.state,
                inbound: Seq::empty(),
            }),
            action_views(final(actions)@) == action_views(old(actions)@) + flush(
                old(self)@.inbound,
            ),
    {
        proof {
            use_type_invariant(&*self);
        }
        let mut rest: Vec<u8> = Vec::new();
        core::mem::swap(&mut self.inbound, &mut rest);
        if rest.len() > 0 {
            actions.push(Action::SendBackend(rest));
        }
        assert(action_views(actions@) =~= action_views(old(actions)@) + flush(old(self)@.inbound));
    }

    /// Takes the state out of the connection and leaves `Terminated` in its place.
    fn take_state(&mut self) -> (state: State)
        ensures
            state@ == old(self)@.state,
            state is AwaitPluginResponse ==> short_packets(state->AwaitPluginResponse_buffer@),
            final(self)@ == (ConnectionView {
                connection_id: old(self)@.connection_id,
                state: StateView::Terminated,
                inbound: old(self)@.inbound,
            }),
    {
        proof {
            use_type_invariant(&*self);
        }
        let mut state = State::Terminated;
        core::mem::swap(&mut self.state, &mut state);
        state
    }

    /// Acts on a plugin response, given whether its signature holds.
    #[verifier::rlimit(30)]
    pub fn complete_login(
        &mut self,
        response: VelocityLoginPluginResponse,
        valid: bool,
    ) -> (actions: Vec<Action>)
        ensures
            final(self)@ == complete_login_spec(old(self)@, response@, valid).conn,
            action_views(actions@) == complete_login_spec(old(self)@, response@, valid).actions,
    {
        let mut actions: Vec<Action> = Vec::new();
        assert(action_views(actions@) =~= Seq::<ActionView>::empty());
        match self.take_state() {
            State::AwaitPluginResponse { mut handshake, mut login_start, buffer } => {
                if response.connection_id().get() != self.connection_id {
                    self.terminate();
                    return actions;
                }
                if !valid {
                    proof {
                        lemma_reasons_fit();
                    }
                    actions.push(
                        Action::SendClient(
                            disconnect_frame_of(
                                "Failed to verify your identity, please rejoin the server",
                            ),
                        ),
                    );
                    assert(action_views(actions@) =~= seq![
                        ActionView::SendClient(disconnect_frame(verification_failed_reason())),
                    ]);
                    self.terminate();
                    return actions;
                }
                let protocol = handshake.protocol_version.get();
                let inserted = handshake.insert_forwarding_data(
                    response.client_address().clone(),
                    response.player_uuid(),
                    response.properties().as_slice(),
                );
                if inserted.is_err() {
                    self.terminate();
                    return actions;
                }
                login_start.username = response.username().clone();
                actions.push(Action::SendBackend(handshake_frame_of(&handshake)));
                actions.push(Action::SendBackend(login_start_frame_of(&login_start)));
                assert(action_views(actions@) =~= seq![
                    ActionView::SendBackend(handshake_frame(handshake@)),
                    ActionView::SendBackend(login_start_frame(login_start@)),
                ]);
                append_kept_frames(&mut actions, &buffer);
                self.flush_inbound(&mut actions);
                self.state = State::Splicing { protocol };
                actions
            },
            other => {
                self.state = other;
                actions
            },
        }
    }

    /// Acts on the next frame where the handshake is awaited.
    #[verifier::rlimit(30)]
    fn step_paired(&mut self) -> (r: Option<Vec<Action>>)
        requires
            old(self)@.state is Paired,
        ensures
            match step_spec(old(self)@, Seq::empty()) {
                None => r is None && final(self)@ == old(self)@,
                Some(outcome) => {
                    &&& r matches Some(actions) && action_views(actions@) == outcome.actions
                    &&& final(self)@ == outcome.conn
                },
            },
    {
        let mut actions: Vec<Action> = Vec::new();
        assert(action_views(actions@) =~= Seq::<ActionView>::empty());
        let mut reader = ByteReader::new(self.inbound.as_slice());
        let read = ReadPacketExt::<Managed>::read_packet::<Handshake>(&mut reader);
        let rest = reader.remaining();
        match read {
            Ok(handshake) => {
                self.consume(rest);
                let next_state = handshake.next_state.get();
                if next_state == 1 {
                    actions.push(Action::SendBackend(handshake_frame_of(&handshake)));
                    assert(action_views(actions@) =~= seq![
                        ActionView::SendBackend(handshake_frame(handshake@)),
                    ]);
                    self.flush_inbound(&mut actions);
                    self.state =
                    State::StatusForwarding { protocol: handshake.protocol_version.get() };
                } else if next_state == 2 {
                    self.state = State::AwaitLoginStart { handshake };
                } else {
                    self.terminate();
                }
                Some(actions)
            },
            Err(ReadPacketError::Io(IoError::UnexpectedEof)) => None,
            Err(_) => {
                self.terminate();
                Some(actions)
            },
        }
    }

    /// Acts on the next frame where the login start is awaited. The connection holds
    /// `Terminated` in the place of its state, which is handed in as `handshake`.
    #[verifier::rlimit(30)]
    fn step_login_start(&mut self, handshake: Handshake) -> (r: Option<Vec<Action>>)
        requires
            old(self)@.state is Terminated,
        ensures
            ({
                let before = ConnectionView {
                    connection_id: old(self)@.connection_id,
                    state: StateView::AwaitLoginStart { handshake: handshake@ },
                    inbound: old(self)@.inbound,
                };
                match step_spec(before, Seq::empty()) {
                    None => r is None && final(self)@ == before,
                    Some(outcome) => {
                        &&& r matches Some(actions) && action_views(actions@) == outcome.actions
                        &&& final(self)@ == outcome.conn
                    },
                }
            }),
    {
        let mut actions: Vec<Action> = Vec::new();
        assert(action_views(actions@) =~= Seq::<ActionView>::empty());
        let mut reader = ByteReader::new(self.inbound.as_slice());
        let read = ReadPacketExt::<Managed>::read_packet::<LoginStart>(&mut reader);
        let rest = reader.remaining();
        match read {
            Ok(login_start) => {
                self.consume(rest);
                let request = VelocityLoginPluginRequest::new(self.connection_id);
                proof {
                    lemma_channel_length();
                    lemma_varint_size(self.connection_id);
                    lemma_varint_size(20);
                }
                actions.push(Action::SendClient(managed_frame(&request)));
                assert(action_views(actions@) =~= seq![
                    ActionView::SendClient(request_frame(self.connection_id)),
                ]);
                let buffer: Vec<GenericPacket> = Vec::new();
                assert(packet_views(buffer@) =~= Seq::<Seq<u8>>::empty());
                self.state = State::AwaitPluginResponse { handshake, login_start, buffer };
                Some(actions)
            },
            Err(ReadPacketError::Io(IoError::UnexpectedEof)) => {
                self.state = State::AwaitLoginStart { handshake };
                None
            },
            Err(_) => {
                self.terminate();
                Some(actions)
            },
        }
    }

    /// Acts on the next frame where the plugin response is awaited. The connection holds
    /// `Terminated` in the place of its state, which is handed in in its parts.
    #[verifier::rlimit(30)]
    fn step_response(
        &mut self,
        secret: &str,
        handshake: Handshake,
        login_start: LoginStart,
        buffer: Vec<GenericPacket>,
    ) -> (r: Option<Vec<Action>>)
        requires
            old(self)@.state is Terminated,
            short_packets(buffer@),
        ensures
            ({
                let before = ConnectionView {
                    connection_id: old(self)@.connection_id,
                    state: StateView::AwaitPluginResponse {
                        handshake: handshake@,
                        login_start: login_start@,
                        buffer: packet_views(buffer@),
                    },
                    inbound: old(self)@.inbound,
                };
                match step_spec(before, secret@) {
                    None => r is None && final(self)@ == before,
                    Some(outcome) => {
                        &&& r matches Some(actions) && action_views(actions@) == outcome.actions
                        &&& final(self)@ == outcome.conn
                    },
                }
            }),
    {
        let mut actions: Vec<Action> = Vec::new();
        assert(action_views(actions@) =~= Seq::<ActionView>::empty());
        let mut buffer = buffer;
        let ghost kept = packet_views(buffer@);
        let ghost inbound = self@.inbound;
        let mut reader = ByteReader::new(self.inbound.as_slice());
        let read = ReadPacketExt::<Managed>::read_packet::<VelocityLoginPluginResponse>(
            &mut reader,
        );
        let rest = reader.remaining();
        match read {
            Ok(response) => {
                self.state = State::AwaitPluginResponse { handshake, login_start, buffer };
                self.consume(rest);
                let valid = response.validate(secret);
                Some(self.complete_login(response, valid))
            },
            Err(ReadPacketError::Io(IoError::UnexpectedEof)) => {
                self.state = State::AwaitPluginResponse { handshake, login_start, buffer };
                None
            },
            Err(ReadPacketError::InvalidPacketId { expected, got, packet }) => {
                proof {
                    lemma_frame_takes_bytes::<VelocityLoginPluginResponse>(inbound, Some(0x02u8));
                    assert(packet_views(buffer@.push(packet)) =~= kept.push(packet@));
                }
                buffer.push(packet);
                self.state = State::AwaitPluginResponse { handshake, login_start, buffer };
                self.consume(rest);
                Some(actions)
            },
            Err(_) => {
                self.terminate();
                Some(actions)
            },
        }
    }

    /// Acts on the next frame of the client's bytes, if there is a whole one.
    fn step(&mut self, secret: &str) -> (r: Option<Vec<Action>>)
        ensures
            match step_spec(old(self)@, secret@) {
                None => r is None && final(self)@ == old(self)@,
                Some(outcome) => {
                    &&& r matches Some(actions) && action_views(actions@) == outcome.actions
                    &&& final(self)@ == outcome.conn
                },
            },
    {
        match self.take_state() {
            State::Paired => {
                self.state = State::Paired;
                assert(step_spec(self@, secret@) == step_spec(self@, Seq::empty()));
                self.step_paired()
            },
            State::AwaitLoginStart { handshake } => {
                let ghost before = old(self)@;
                assert(step_spec(before, secret@) == step_spec(before, Seq::empty()));
                self.step_login_start(handshake)
            },
            State::AwaitPluginResponse { handshake, login_start, buffer } => self.step_response(
                secret,
                handshake,
                login_start,
                buffer,
            ),
            other => {
                self.state = other;
                None
            },
        }
    }

    /// Acts on all the whole frames in the client's bytes, as long as packets are read.
    fn run(&mut self, secret: &str) -> (actions: Vec<Action>)
        ensures
            final(self)@ == run_spec(old(self)@, secret@).conn,
            action_views(actions@) == run_spec(old(self)@, secret@).actions,
    {
        let mut actions: Vec<Action> = Vec::new();
        assert(action_views(actions@) =~= Seq::<ActionView>::empty());
        assert(Seq::<ActionView>::empty() + run_spec(self@, secret@).actions =~= run_spec(
            self@,
            secret@,
        ).actions);
        loop
            invariant
                run_spec(old(self)@, secret@).conn == run_spec(self@, secret@).conn,
                run_spec(old(self)@, secret@).actions == action_views(actions@) + run_spec(
                    self@,
                    secret@,
                ).actions,
            decreases self@.inbound.len(),
        {
            let before = self.inbound.len();
            let ghost done = action_views(actions@);
            match self.step(secret) {
                None => {
                    assert(done + Seq::<ActionView>::empty() =~= done);
                    return actions;
                },
                Some(mut more) => {
                    let ghost first = action_views(more@);
                    actions.append(&mut more);
                    assert(action_views(actions@) =~= done + first);
                    let reads = match self.phase() {
                        Phase::Paired | Phase::AwaitLoginStart | Phase::AwaitPluginResponse => true,
                        _ => false,
                    };
                    if !(reads && self.inbound.len() < before) {
                        return actions;
                    }
                    assert((done + first) + run_spec(self@, secret@).actions =~= done + (first
                        + run_spec(self@, secret@).actions));
                },
            }
        }
    }

    /// Takes an event and says which writes it asks for, in their order.
    ///
    /// `secret` is the forwarding secret; the signature of a plugin response is held against
    /// the HMAC-SHA256 under its UTF-8 bytes.
    pub fn handle(&mut self, secret: &str, event: Event) -> (actions: Vec<Action>)
        ensures
            final(self)@ == handle_spec(old(self)@, secret@, event@).conn,
            action_views(actions@) == handle_spec(old(self)@, secret@, event@).actions,
    {
        let mut actions: Vec<Action> = Vec::new();
        assert(action_views(actions@) =~= Seq::<ActionView>::empty());
        match self.phase() {
            Phase::Terminated => actions,
            Phase::StatusForwarding | Phase::Splicing => match event {
                Event::Received(bytes) => forward(bytes),
                Event::Cancelled => {
                    let protocol = match &self.state {
                        State::StatusForwarding { protocol } => *protocol,
                        State::Splicing { protocol } => *protocol,
                        _ => 0,
                    };
                    self.terminate();
                    shutdown_actions(protocol)
                },
                _ => {
                    self.terminate();
                    actions
                },
            },
            _ => match event {
                Event::Received(bytes) => {
                    proof {
                        use_type_invariant(&*self);
                    }
                    let mut all: Vec<u8> = Vec::new();
                    core::mem::swap(&mut self.inbound, &mut all);
                    crate::io::append_bytes(&mut all, bytes.as_slice());
                    self.inbound = all;
                    self.run(secret)
                },
                Event::Cancelled => actions,
                _ => {
                    self.terminate();
                    actions
                },
            },
        }
    }
}

/// Whether each of `packets` is short enough for its length to fit a VarInt.
spec fn short_packets(packets: Seq<GenericPacket>) -> bool {
    forall|i: int| 0 <= i < packets.len() ==> (#[trigger] packets[i])@.len() <= i32::MAX
}

/// The writes that hand kept packets to the backend, each in a frame of its own.
pub open spec fn kept_frames(kept: Seq<Seq<u8>>) -> Seq<ActionView> {
    kept.map_values(|p: Seq<u8>| ActionView::SendBackend(frame(None, p)))
}

/// Appends to `actions` the writes that hand the packets in `buffer` to the backend.
fn append_kept_frames(actions: &mut Vec<Action>, buffer: &Vec<GenericPacket>)
    requires
        short_packets(buffer@),
    ensures
        action_views(final(actions)@) == action_views(old(actions)@) + kept_frames(
            packet_views(buffer@),
        ),
{
    let ghost head = action_views(actions@);
    let ghost frames = kept_frames(packet_views(buffer@));
    let mut i: usize = 0;
    assert(action_views(actions@) =~= head + frames.take(0));
    while i < buffer.len()
        invariant
            i <= buffer.len(),
            short_packets(buffer@),
            frames == kept_frames(packet_views(buffer@)),
            action_views(actions@) == head + frames.take(i as int),
        decreases buffer.len() - i,
    {
        let ghost before = actions@;
        let bytes = generic_frame_of(&buffer[i]);
        actions.push(Action::SendBackend(bytes));
        proof {
            assert(frames[i as int] == ActionView::SendBackend(frame(None, buffer@[i as int]@)));
            assert(action_views(actions@) =~= action_views(before).push(frames[i as int]));
            assert(frames.take(i + 1) =~= frames.take(i as int).push(frames[i as int]));
            assert(action_views(actions@) =~= head + frames.take(i + 1));
        }
        i = i + 1;
    }
    assert(frames.take(i as int) =~= frames);
}

/// The write that hands `bytes` to the backend as they are; none for no bytes.
fn forward(bytes: Vec<u8>) -> (actions: Vec<Action>)
    ensures
        action_views(actions@) == flush(bytes@),
{
    let mut actions: Vec<Action> = Vec::new();
    if bytes.len() > 0 {
        actions.push(Action::SendBackend(bytes));
    }
    assert(action_views(actions@) =~= flush(bytes@));
    actions
}

/// What a client whose bytes are copied is sent at shutdown: a play disconnect where that
/// packet has an ID in the protocol version `protocol`, and nothing where it has none.
pub open spec fn shutdown_spec(protocol: i32) -> Seq<ActionView> {
    match play_disconnect_id(protocol) {
        Some(id) => seq![ActionView::SendClient(play_disconnect_frame(id, shutdown_reason()))],
        None => Seq::empty(),
    }
}

/// The writes that send a client away at shutdown.
pub fn shutdown_actions(protocol: i32) -> (actions: Vec<Action>)
    ensures
        action_views(actions@) == shutdown_spec(protocol),
{
    let mut actions: Vec<Action> = Vec::new();
    proof {
        lemma_reasons_fit();
        lemma_play_disconnect_ranges(protocol);
    }
    let packet = PlayDisconnect::reason("The Proxy is shutting down");
    proof {
        lemma_varint_size(encode_utf8(packet@).len() as i32);
    }
    let mut bytes: Vec<u8> = Vec::new();
    match bytes.write_packet_versioned(&packet, protocol) {
        Ok(()) => {
            actions.push(Action::SendClient(bytes));
        },
        Err(_) => {},
    }
    assert(action_views(actions@) =~= shutdown_spec(protocol));
    actions
}

/// The phase that a state belongs to.
pub open spec fn phase_of(state: StateView) -> Phase {
    match state {
        StateView::Paired => Phase::Paired,
        StateView::AwaitLoginStart { .. } => Phase::AwaitLoginStart,
        StateView::AwaitPluginResponse { .. } => Phase::AwaitPluginResponse,
        StateView::StatusForwarding { .. } => Phase::StatusForwarding,
        StateView::Splicing { .. } => Phase::Splicing,
        StateView::Terminated => Phase::Terminated,
    }
}

/// A handshake that the client wrote as one frame is read as that handshake, and what
/// follows is decided by it: a status handshake goes to the backend byte for byte as the
/// client wrote it, followed by what the client sent behind it.
#[verifier::rlimit(30)]
pub proof fn lemma_handshake_is_acted_on(
    conn: ConnectionView,
    secret: Seq<char>,
    handshake: HandshakeView,
    rest: Seq<u8>,
)
    requires
        conn.state is Paired,
        fits(encode_utf8(handshake.server_address).len(), 32767),
        conn.inbound == handshake_frame(handshake) + rest,
    ensures
        step_spec(conn, secret) == Some(after_handshake(conn, handshake, rest)),
        handshake.next_state == 1 ==> step_spec(conn, secret)->0.actions == seq![
            ActionView::SendBackend(handshake_frame(handshake)),
        ] + flush(rest),
{
    let body = Handshake::body(handshake);
    let whole = handshake_frame(handshake);
    assert(1 + body.len() <= i32::MAX) by {
        lemma_varint_size(handshake.protocol_version);
        lemma_varint_size(handshake.next_state);
        lemma_varint_size(encode_utf8(handshake.server_address).len() as i32);
        crate::io::lemma_be_length(handshake.server_port as nat, 2);
    }
    assert(read_frame::<Handshake>(conn.inbound, Some(0x00u8)) == Ok::<
        (HandshakeView, nat),
        ReadFailure,
    >((handshake, whole.len()))) by {
        lemma_handshake_roundtrip(handshake, rest, body.len() as i32);
        lemma_frame_roundtrip::<Handshake>(handshake, Some(0x00u8), rest);
    }
    assert(conn.inbound.skip(whole.len() as int) == rest) by {
        assert((whole + rest).skip(whole.len() as int) =~= rest);
    }
}

/// While the plugin response is awaited, a frame with another ID is put behind the packets
/// that are kept already. Nothing else changes and nothing is written.
#[verifier::rlimit(30)]
pub proof fn lemma_other_packet_is_kept(
    conn: ConnectionView,
    secret: Seq<char>,
    length: i32,
    got: u8,
    rest: Seq<u8>,
)
    requires
        conn.state is AwaitPluginResponse,
        length >= 1,
        got != 0x02,
        rest.len() >= length - 1,
        conn.inbound == varint_bytes(length) + seq![got] + rest,
    ensures
        step_spec(conn, secret) == Some(
            Outcome {
                conn: ConnectionView {
                    connection_id: conn.connection_id,
                    state: StateView::AwaitPluginResponse {
                        handshake: conn.state->AwaitPluginResponse_handshake,
                        login_start: conn.state->AwaitPluginResponse_login_start,
                        buffer: conn.state->AwaitPluginResponse_buffer.push(
                            seq![got] + rest.take(length - 1),
                        ),
                    },
                    inbound: rest.skip(length - 1),
                },
                actions: Seq::empty(),
            },
        ),
{
    let packet = seq![got] + rest.take(length - 1);
    let read = read_frame::<VelocityLoginPluginResponse>(conn.inbound, Some(0x02u8));
    assert(read == Err::<(ResponseView, nat), ReadFailure>(
        ReadFailure::InvalidPacketId { expected: 0x02u8, got, packet },
    )) by {
        lemma_other_id_is_handed_back::<VelocityLoginPluginResponse>(length, got, rest, 0x02u8);
    }
    assert(conn.inbound.skip(skipped_frame(conn.inbound) as int) == rest.skip(length - 1)) by {
        lemma_other_id_is_handed_back::<VelocityLoginPluginResponse>(length, got, rest, 0x02u8);
        lemma_varint_size(length);
        assert(conn.inbound.skip((varint_size(length) + length) as int) =~= rest.skip(
            length - 1,
        ));
    }
}

/// When a login goes through, the backend is written to only, and in this order: the
/// handshake, the login start, then each packet that was kept, in the order in which the
/// packets came and each with the bytes it came with.
pub proof fn lemma_kept_packets_follow_in_order(
    conn: ConnectionView,
    response: ResponseView,
    i: int,
)
    requires
        conn.state is AwaitPluginResponse,
        complete_login_spec(conn, response, true).conn.state is Splicing,
        0 <= i < conn.state->AwaitPluginResponse_buffer.len(),
    ensures
        ({
            let actions = complete_login_spec(conn, response, true).actions;
            let buffer = conn.state->AwaitPluginResponse_buffer;
            &&& actions.len() >= 2 + buffer.len()
            &&& actions[0] is SendBackend
            &&& actions[1] == ActionView::SendBackend(
                login_start_frame(LoginStartView { username: response.payload.username }),
            )
            &&& actions[2 + i] == ActionView::SendBackend(frame(None, buffer[i]))
            &&& forall|j: int| 0 <= j < actions.len() ==> (#[trigger] actions[j]) is SendBackend
        }),
{
}

} // verus!
