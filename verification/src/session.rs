use vstd::prelude::*;

use crate::frame::Controller;
use crate::frame::MalformedFrame;
use crate::registry::PeerRegistry;
use crate::registry::without;
use crate::translate::DriveCommand;
use crate::translate::spec_translate;
use crate::translate::translate_frames;

verus! {

/// The lifecycle of one connection.
#[derive(Clone, Copy, PartialEq, Eq, Structural, Debug)]
pub enum ConnState {
    Handshaking,
    Active,
    Closing,
    Closed,
}

/// What a connection's surroundings report to its lifecycle.
#[derive(Clone, Copy, PartialEq, Eq, Structural, Debug)]
pub enum ConnEvent {
    HandshakeSucceeded,
    HandshakeFailed,
    InboundFrame,
    InboundClosed,
    WriteFailed,
    CleanupDone,
}

/// What the surroundings must do after a lifecycle step.
#[derive(Clone, Copy, PartialEq, Eq, Structural, Debug)]
pub enum ConnEffect {
    RegisterPeer,
    ProcessFrame,
    Deregister,
    NoEffect,
}

/// The connection lifecycle table. A successful handshake activates the
/// connection and registers it as a peer; inbound frames are processed while
/// active; the end of the inbound stream or a failed write of the
/// connection's own sink starts closing and deregisters the peer; a failed
/// handshake, or finished cleanup, closes for good. `Closed` is terminal,
/// and a stale event never changes the state.
pub open spec fn spec_conn_step(s: ConnState, e: ConnEvent) -> (ConnState, ConnEffect) {
    match (s, e) {
        (ConnState::Handshaking, ConnEvent::HandshakeSucceeded) => (
            ConnState::Active,
            ConnEffect::RegisterPeer,
        ),
        (ConnState::Handshaking, ConnEvent::HandshakeFailed) => (
            ConnState::Closed,
            ConnEffect::NoEffect,
        ),
        (ConnState::Active, ConnEvent::InboundFrame) => (
            ConnState::Active,
            ConnEffect::ProcessFrame,
        ),
        (ConnState::Active, ConnEvent::InboundClosed) => (
            ConnState::Closing,
            ConnEffect::Deregister,
        ),
        (ConnState::Active, ConnEvent::WriteFailed) => (
            ConnState::Closing,
            ConnEffect::Deregister,
        ),
        (ConnState::Closing, ConnEvent::CleanupDone) => (ConnState::Closed, ConnEffect::NoEffect),
        _ => (s, ConnEffect::NoEffect),
    }
}

/// Advances a connection's lifecycle by one event, exactly as the table says.
pub fn conn_step(s: ConnState, e: ConnEvent) -> (r: (ConnState, ConnEffect))
    ensures
        r == spec_conn_step(s, e),
{
    match (s, e) {
        (ConnState::Handshaking, ConnEvent::HandshakeSucceeded) => (
            ConnState::Active,
            ConnEffect::RegisterPeer,
        ),
        (ConnState::Handshaking, ConnEvent::HandshakeFailed) => (
            ConnState::Closed,
            ConnEffect::NoEffect,
        ),
        (ConnState::Active, ConnEvent::InboundFrame) => (
            ConnState::Active,
            ConnEffect::ProcessFrame,
        ),
        (ConnState::Active, ConnEvent::InboundClosed) => (
            ConnState::Closing,
            ConnEffect::Deregister,
        ),
        (ConnState::Active, ConnEvent::WriteFailed) => (
            ConnState::Closing,
            ConnEffect::Deregister,
        ),
        (ConnState::Closing, ConnEvent::CleanupDone) => (ConnState::Closed, ConnEffect::NoEffect),
        _ => (s, ConnEffect::NoEffect),
    }
}

/// Law: a closed connection processes no further event: every step from
/// `Closed` stays in `Closed` and asks for nothing.
pub proof fn lemma_closed_is_terminal(e: ConnEvent)
    ensures
        spec_conn_step(ConnState::Closed, e) == (ConnState::Closed, ConnEffect::NoEffect),
{
}

/// Handles one decoded inbound payload from peer `sender` while its
/// connection is active: a malformed payload is dropped, reported as the
/// error that says why, and nothing is broadcast; a well-formed payload is
/// rebroadcast verbatim to every other peer and its first frame is
/// translated, the command — if the axes name one — to be handed to the
/// motion owner.
pub fn process_inbound(
    registry: &PeerRegistry,
    sender: u64,
    frames: &Vec<Controller>,
    raw: &String,
) -> (r: Result<(Option<DriveCommand>, Vec<(u64, bool)>), MalformedFrame>)
    ensures
        frames@.len() == 0 ==> r == Err::<
            (Option<DriveCommand>, Vec<(u64, bool)>),
            MalformedFrame,
        >(MalformedFrame::EmptyPayload),
        frames@.len() > 0 && !frames@[0].has_control_axes() ==> r == Err::<
            (Option<DriveCommand>, Vec<(u64, bool)>),
            MalformedFrame,
        >(MalformedFrame::MissingAxes),
        frames@.len() > 0 && frames@[0].has_control_axes() ==> {
            &&& r matches Ok(out)
            &&& out.0 == spec_translate(frames@[0].axes@[0]@, frames@[0].axes@[1]@)
            &&& out.1@.map_values(|a: (u64, bool)| a.0) == without(registry.ids(), sender)
        },
{
    match translate_frames(frames) {
        Err(e) => Err(e),
        Ok(cmd) => {
            let attempts = registry.broadcast(sender, raw);
            Ok((cmd, attempts))
        },
    }
}

} // verus!
