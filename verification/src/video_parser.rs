//! The decision core of the lazy video frame stream: an explicit three-state
//! machine for the decode-then-flush loop.  The decoder and demuxer are
//! external collaborators; a caller performs the returned action, observes
//! whether a frame came out and whether packets remain, and feeds both back.

use vstd::prelude::*;

verus! {

/// Marker type for the video stream parser.
pub struct VideoParser;

/// Failure of the video stream parser.
#[derive(Debug)]
pub enum VideoParserError {
    IO(String),
    Decode(String),
}

/// Where the frame stream stands: draining buffered packets, flushing the
/// decoder after the packets ran out, or finished.
#[derive(Debug, Clone, Copy, PartialEq, Eq, Structural)]
pub enum DecodeState {
    Decoding,
    Flushing,
    Done,
}

/// What the caller does next with its decoder.
#[derive(Debug, Clone, Copy, PartialEq, Eq, Structural)]
pub enum DecodeAction {
    EmitFrame,
    SendPacket,
    SendEof,
    Stop,
}

/// The transition the frame stream takes on one observation: whether the
/// decoder handed out a frame, and whether undecoded packets remain.
pub open spec fn spec_decode_step(
    state: DecodeState,
    frame_ready: bool,
    packets_remain: bool,
) -> (DecodeState, DecodeAction) {
    match state {
        DecodeState::Done => (DecodeState::Done, DecodeAction::Stop),
        DecodeState::Decoding => {
            if frame_ready {
                (DecodeState::Decoding, DecodeAction::EmitFrame)
            } else if packets_remain {
                (DecodeState::Decoding, DecodeAction::SendPacket)
            } else {
                (DecodeState::Flushing, DecodeAction::SendEof)
            }
        },
        DecodeState::Flushing => {
            if frame_ready {
                (DecodeState::Flushing, DecodeAction::EmitFrame)
            } else {
                (DecodeState::Done, DecodeAction::Stop)
            }
        },
    }
}

/// One step of the decode loop: a ready frame is always emitted without
/// changing state; with no frame ready, remaining packets are sent while
/// decoding, the end of the packets sends EOF and moves to flushing, and a
/// dry decoder while flushing ends the stream.
pub fn decode_step(state: DecodeState, frame_ready: bool, packets_remain: bool) -> (r: (
    DecodeState,
    DecodeAction,
))
    ensures
        r == spec_decode_step(state, frame_ready, packets_remain),
        frame_ready && state != DecodeState::Done ==> r.1 == DecodeAction::EmitFrame && r.0
            == state,
        state == DecodeState::Decoding && !frame_ready && packets_remain ==> r.0
            == DecodeState::Decoding && r.1 == DecodeAction::SendPacket,
        state == DecodeState::Decoding && !frame_ready && !packets_remain ==> r.0
            == DecodeState::Flushing && r.1 == DecodeAction::SendEof,
        state == DecodeState::Flushing && !frame_ready ==> r.0 == DecodeState::Done && r.1
            == DecodeAction::Stop,
        state == DecodeState::Done ==> r.0 == DecodeState::Done && r.1 == DecodeAction::Stop,
{
    match state {
        DecodeState::Done => (DecodeState::Done, DecodeAction::Stop),
        DecodeState::Decoding => {
            if frame_ready {
                (DecodeState::Decoding, DecodeAction::EmitFrame)
            } else if packets_remain {
                (DecodeState::Decoding, DecodeAction::SendPacket)
            } else {
                (DecodeState::Flushing, DecodeAction::SendEof)
            }
        },
        DecodeState::Flushing => {
            if frame_ready {
                (DecodeState::Flushing, DecodeAction::EmitFrame)
            } else {
                (DecodeState::Done, DecodeAction::Stop)
            }
        },
    }
}

/// Once done, the stream stays done: no observation leaves the final state.
pub proof fn lemma_decode_done_is_final(frame_ready: bool, packets_remain: bool)
    ensures
        spec_decode_step(DecodeState::Done, frame_ready, packets_remain).0 == DecodeState::Done,
{
}

/// The stream only ends out of the flushing state with no frame ready: the
/// termination condition is unambiguous.
pub proof fn lemma_decode_termination(state: DecodeState, frame_ready: bool, packets_remain: bool)
    ensures
        spec_decode_step(state, frame_ready, packets_remain).1 == DecodeAction::Stop ==> state
            == DecodeState::Done || (state == DecodeState::Flushing && !frame_ready),
{
}

} // verus!
