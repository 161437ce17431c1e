//! What a connection does with the client's bytes does not depend on the pieces in which they
//! arrive.
//!
//! The machine is handed whatever a read from the socket gave, which need not end where a frame
//! ends. The laws here say that the pieces do not matter: the same bytes, handed in at once or
//! in two parts, leave the connection in the same state and send the same bytes to each peer.

use crate::connection::{
    complete_login_spec, flush, handle_spec, reads_packets, run_spec, step_spec, ActionView,
    ConnectionView, EventView, Outcome,
};
use crate::packets::handshake::Handshake;
use crate::packets::login_start::LoginStart;
use crate::packets::packet_read::{
    lemma_frame_is_stable, lemma_frame_takes_bytes, read_frame, ReadFailure,
};
use crate::packets::velocity_plugin_response::{ResponseView, VelocityLoginPluginResponse};
use vstd::prelude::*;

verus! {

/// The bytes that `actions` send to the client, in their order.
pub open spec fn bytes_to_client(actions: Seq<ActionView>) -> Seq<u8>
    decreases actions.len(),
{
    if actions.len() == 0 {
        Seq::empty()
    } else {
        bytes_to_client(actions.drop_last()) + match actions.last() {
            ActionView::SendClient(bytes) => bytes,
            ActionView::SendBackend(_) => Seq::empty(),
        }
    }
}

/// The bytes that `actions` send to the backend, in their order.
pub open spec fn bytes_to_backend(actions: Seq<ActionView>) -> Seq<u8>
    decreases actions.len(),
{
    if actions.len() == 0 {
        Seq::empty()
    } else {
        bytes_to_backend(actions.drop_last()) + match actions.last() {
            ActionView::SendClient(_) => Seq::empty(),
            ActionView::SendBackend(bytes) => bytes,
        }
    }
}

/// The connection `conn` with `more` behind the client's bytes that it holds.
pub open spec fn with_more(conn: ConnectionView, more: Seq<u8>) -> ConnectionView {
    ConnectionView {
        connection_id: conn.connection_id,
        state: conn.state,
        inbound: conn.inbound + more,
    }
}

/// Whether `second` does what `first` does, but for the pieces in which bytes go out: the
/// connection is the same, and so are the bytes that go to each peer once `more` has gone to the
/// backend behind those of `first`.
pub open spec fn same_but_for(first: Outcome, more: Seq<u8>, second: Outcome) -> bool {
    &&& second.conn == first.conn
    &&& bytes_to_client(second.actions) == bytes_to_client(first.actions)
    &&& bytes_to_backend(second.actions) == bytes_to_backend(first.actions) + more
}

/// The bytes of two lists of actions in a row are the bytes of the one and then of the other.
pub proof fn lemma_bytes_in_a_row(a: Seq<ActionView>, b: Seq<ActionView>)
    ensures
        bytes_to_client(a + b) == bytes_to_client(a) + bytes_to_client(b),
        bytes_to_backend(a + b) == bytes_to_backend(a) + bytes_to_backend(b),
    decreases b.len(),
{
    if b.len() == 0 {
        assert(a + b =~= a);
        assert(bytes_to_client(a) + bytes_to_client(b) =~= bytes_to_client(a));
        assert(bytes_to_backend(a) + bytes_to_backend(b) =~= bytes_to_backend(a));
    } else {
        lemma_bytes_in_a_row(a, b.drop_last());
        assert((a + b).drop_last() =~= a + b.drop_last());
        assert((a + b).last() == b.last());
        assert(bytes_to_client(a + b) =~= bytes_to_client(a) + bytes_to_client(b));
        assert(bytes_to_backend(a + b) =~= bytes_to_backend(a) + bytes_to_backend(b));
    }
}

/// Bytes that are left over go to the backend as they are, and nothing goes to the client.
pub proof fn lemma_flushed_bytes(bytes: Seq<u8>)
    ensures
        bytes_to_backend(flush(bytes)) == bytes,
        bytes_to_client(flush(bytes)) == Seq::<u8>::empty(),
{
    if bytes.len() > 0 {
        let actions = flush(bytes);
        let none = Seq::<ActionView>::empty();
        assert(actions.drop_last() =~= none);
        assert(bytes_to_backend(none) == Seq::<u8>::empty());
        assert(bytes_to_client(none) == Seq::<u8>::empty());
        assert(bytes_to_backend(actions) =~= bytes);
        assert(bytes_to_client(actions) =~= Seq::<u8>::empty());
    }
}

/// What is written ahead of the bytes that are left over is followed by those bytes on their
/// way to the backend.
proof fn lemma_flush_behind(ahead: Seq<ActionView>, rest: Seq<u8>, more: Seq<u8>)
    ensures
        bytes_to_client(ahead + flush(rest + more)) == bytes_to_client(ahead + flush(rest)),
        bytes_to_backend(ahead + flush(rest + more)) == bytes_to_backend(ahead + flush(rest))
            + more,
{
    lemma_bytes_in_a_row(ahead, flush(rest));
    lemma_bytes_in_a_row(ahead, flush(rest + more));
    lemma_flushed_bytes(rest);
    lemma_flushed_bytes(rest + more);
    assert(bytes_to_client(ahead) + Seq::<u8>::empty() =~= bytes_to_client(ahead));
    assert(bytes_to_backend(ahead) + (rest + more) =~= (bytes_to_backend(ahead) + rest) + more);
}

/// What follows a plugin response where the connection awaits one does not depend on bytes
/// that follow the response, but for their going to the backend when the login goes through.
#[verifier::rlimit(30)]
proof fn lemma_complete_login_is_stable(
    conn: ConnectionView,
    more: Seq<u8>,
    response: ResponseView,
    valid: bool,
)
    requires
        conn.state is AwaitPluginResponse,
    ensures
        ({
            let short = complete_login_spec(conn, response, valid);
            let long = complete_login_spec(with_more(conn, more), response, valid);
            if short.conn.state is Splicing {
                same_but_for(short, more, long)
            } else {
                short.conn.state is Terminated && long == short
            }
        }),
{
    let short = complete_login_spec(conn, response, valid);
    let long = complete_login_spec(with_more(conn, more), response, valid);
    if short.conn.state is Splicing {
        let ahead = short.actions.take(short.actions.len() - flush(conn.inbound).len());
        assert(short.actions =~= ahead + flush(conn.inbound));
        assert(long.actions =~= ahead + flush(conn.inbound + more));
        lemma_flush_behind(ahead, conn.inbound, more);
    }
}

/// A step that is taken is taken in the same way when more bytes follow those of the client:
/// while packets are read the bytes stay behind what is left, and at the end of the connection
/// they are dropped. Where the step begins the copying of bytes, they go to the backend behind
/// what the step writes. A step that leaves the connection reading packets has taken bytes.
#[verifier::rlimit(30)]
pub proof fn lemma_step_is_stable(conn: ConnectionView, secret: Seq<char>, more: Seq<u8>)
    requires
        step_spec(conn, secret) is Some,
    ensures
        ({
            let short = step_spec(conn, secret)->0;
            let long = step_spec(with_more(conn, more), secret);
            &&& long is Some
            &&& if reads_packets(short.conn.state) {
                &&& long->0 == (Outcome {
                    conn: with_more(short.conn, more),
                    actions: short.actions,
                })
                &&& short.conn.inbound.len() < conn.inbound.len()
            } else if short.conn.state is Terminated {
                long->0 == short
            } else {
                same_but_for(short, more, long->0)
            }
        }),
{
    let input = conn.inbound;
    let longer = with_more(conn, more);
    match conn.state {
        crate::connection::StateView::Paired => {
            lemma_frame_is_stable::<Handshake>(input, more, Some(0x00u8));
            lemma_frame_takes_bytes::<Handshake>(input, Some(0x00u8));
            if let Ok((handshake, n)) = read_frame::<Handshake>(input, Some(0x00u8)) {
                let rest = input.skip(n as int);
                assert((input + more).skip(n as int) =~= rest + more);
                if handshake.next_state == 1 {
                    let ahead = seq![
                        ActionView::SendBackend(crate::connection::handshake_frame(handshake)),
                    ];
                    lemma_flush_behind(ahead, rest, more);
                }
            }
        },
        crate::connection::StateView::AwaitLoginStart { handshake } => {
            lemma_frame_is_stable::<LoginStart>(input, more, Some(0x00u8));
            lemma_frame_takes_bytes::<LoginStart>(input, Some(0x00u8));
            if let Ok((login_start, n)) = read_frame::<LoginStart>(input, Some(0x00u8)) {
                assert((input + more).skip(n as int) =~= input.skip(n as int) + more);
            }
        },
        crate::connection::StateView::AwaitPluginResponse { handshake, login_start, buffer } => {
            lemma_frame_is_stable::<VelocityLoginPluginResponse>(input, more, Some(0x02u8));
            lemma_frame_takes_bytes::<VelocityLoginPluginResponse>(input, Some(0x02u8));
            match read_frame::<VelocityLoginPluginResponse>(input, Some(0x02u8)) {
                Ok((response, n)) => {
                    let rest = input.skip(n as int);
                    assert((input + more).skip(n as int) =~= rest + more);
                    let after = ConnectionView {
                        connection_id: conn.connection_id,
                        state: conn.state,
                        inbound: rest,
                    };
                    assert(with_more(after, more) == (ConnectionView {
                        connection_id: conn.connection_id,
                        state: conn.state,
                        inbound: rest + more,
                    }));
                    lemma_complete_login_is_stable(
                        after,
                        more,
                        response,
                        crate::packets::velocity_plugin_response::signature_valid(
                            secret,
                            response,
                        ),
                    );
                },
                Err(ReadFailure::InvalidPacketId { expected, got, packet }) => {
                    let taken = crate::packets::packet_read::skipped_frame(input);
                    assert((input + more).skip(taken as int) =~= input.skip(taken as int)
                        + more);
                },
                Err(_) => {},
            }
        },
        _ => {},
    }
}

/// While packets are read, bytes that are handed in later are acted on as if they had been
/// there from the start.
#[verifier::rlimit(30)]
pub proof fn lemma_run_in_pieces(conn: ConnectionView, secret: Seq<char>, more: Seq<u8>)
    requires
        reads_packets(conn.state),
    ensures
        ({
            let first = run_spec(conn, secret);
            let second = handle_spec(first.conn, secret, EventView::Received(more));
            let whole = run_spec(with_more(conn, more), secret);
            &&& whole.conn == second.conn
            &&& bytes_to_client(whole.actions) == bytes_to_client(first.actions)
                + bytes_to_client(second.actions)
            &&& bytes_to_backend(whole.actions) == bytes_to_backend(first.actions)
                + bytes_to_backend(second.actions)
        }),
    decreases conn.inbound.len(),
{
    let first = run_spec(conn, secret);
    let second = handle_spec(first.conn, secret, EventView::Received(more));
    let whole = run_spec(with_more(conn, more), secret);
    let none = Seq::<ActionView>::empty();
    assert(bytes_to_client(none) == Seq::<u8>::empty());
    assert(bytes_to_backend(none) == Seq::<u8>::empty());
    match step_spec(conn, secret) {
        None => {
            assert(first == Outcome { conn, actions: none });
            assert(second == whole);
            assert(Seq::<u8>::empty() + bytes_to_client(second.actions) =~= bytes_to_client(
                second.actions,
            ));
            assert(Seq::<u8>::empty() + bytes_to_backend(second.actions) =~= bytes_to_backend(
                second.actions,
            ));
        },
        Some(short) => {
            lemma_step_is_stable(conn, secret, more);
            let long = step_spec(with_more(conn, more), secret)->0;
            if reads_packets(short.conn.state) {
                let later = run_spec(short.conn, secret);
                assert(first == Outcome {
                    conn: later.conn,
                    actions: short.actions + later.actions,
                });
                let later_whole = run_spec(with_more(short.conn, more), secret);
                assert(whole == Outcome {
                    conn: later_whole.conn,
                    actions: short.actions + later_whole.actions,
                });
                lemma_run_in_pieces(short.conn, secret, more);
                lemma_bytes_in_a_row(short.actions, later.actions);
                lemma_bytes_in_a_row(short.actions, later_whole.actions);
                assert(bytes_to_client(whole.actions) =~= bytes_to_client(first.actions)
                    + bytes_to_client(second.actions));
                assert(bytes_to_backend(whole.actions) =~= bytes_to_backend(first.actions)
                    + bytes_to_backend(second.actions));
            } else {
                assert(first == short);
                assert(whole == long);
                if short.conn.state is Terminated {
                    assert(second == Outcome { conn: short.conn, actions: none });
                    assert(bytes_to_client(first.actions) + Seq::<u8>::empty()
                        =~= bytes_to_client(first.actions));
                    assert(bytes_to_backend(first.actions) + Seq::<u8>::empty()
                        =~= bytes_to_backend(first.actions));
                } else {
                    assert(second == Outcome { conn: short.conn, actions: flush(more) });
                    lemma_flushed_bytes(more);
                    assert(bytes_to_client(first.actions) + Seq::<u8>::empty()
                        =~= bytes_to_client(first.actions));
                }
            }
        },
    }
}

/// Bytes from the client that are handed in as two pieces are acted on as if they had been
/// handed in as one: the connection ends up the same, and each peer is sent the same bytes.
#[verifier::rlimit(30)]
pub proof fn lemma_received_in_pieces(
    conn: ConnectionView,
    secret: Seq<char>,
    a: Seq<u8>,
    b: Seq<u8>,
)
    ensures
        ({
            let first = handle_spec(conn, secret, EventView::Received(a));
            let second = handle_spec(first.conn, secret, EventView::Received(b));
            let whole = handle_spec(conn, secret, EventView::Received(a + b));
            &&& whole.conn == second.conn
            &&& bytes_to_client(whole.actions) == bytes_to_client(first.actions)
                + bytes_to_client(second.actions)
            &&& bytes_to_backend(whole.actions) == bytes_to_backend(first.actions)
                + bytes_to_backend(second.actions)
        }),
{
    let first = handle_spec(conn, secret, EventView::Received(a));
    let second = handle_spec(first.conn, secret, EventView::Received(b));
    let whole = handle_spec(conn, secret, EventView::Received(a + b));
    if reads_packets(conn.state) {
        assert(with_more(with_more(conn, a), b) == with_more(conn, a + b)) by {
            assert((conn.inbound + a) + b =~= conn.inbound + (a + b));
        }
        lemma_run_in_pieces(with_more(conn, a), secret, b);
    } else if conn.state is Terminated {
        assert(bytes_to_client(whole.actions) =~= bytes_to_client(first.actions)
            + bytes_to_client(second.actions));
        assert(bytes_to_backend(whole.actions) =~= bytes_to_backend(first.actions)
            + bytes_to_backend(second.actions));
    } else {
        lemma_flushed_bytes(a);
        lemma_flushed_bytes(b);
        lemma_flushed_bytes(a + b);
        assert(bytes_to_client(whole.actions) =~= bytes_to_client(first.actions)
            + bytes_to_client(second.actions));
    }
}

} // verus!
