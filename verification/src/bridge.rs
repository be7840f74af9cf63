//! The audio bridge's decisions: whether and where to relay, and how the
//! speaker side treats what arrives on a connection.
//!
//! The bridge itself is a persistent connection the surrounding process owns:
//! the player side connects out and pushes one binary audio frame per fixed
//! interval, the speaker side accepts connections and plays frames back in
//! arrival order. This module decides, from the role flag and the registry,
//! what either side does; the process performs the connecting, sending,
//! decoding and playback and reports the events back.
use vstd::prelude::*;
use crate::addr::PeerAddr;
use crate::registry::{PeerStatus, PeerRegistry};

verus! {

/// What the player side does when asked to start relaying.
#[derive(Clone, Copy, PartialEq, Eq, Structural, Debug)]
pub enum RelayPlan {
    /// The local machine is the speaker: relaying is a logged no-op.
    LocalIsSpeaker,
    /// No peer with the `Speaker` role is known: log a warning and return
    /// successfully; no connection is attempted.
    NoSpeaker,
    /// Connect to this speaker's address on the audio port and stream.
    Connect(PeerAddr),
}

/// Decides the player side's behaviour from the local role flag and the
/// registry, both read at the moment of the call: a no-op when the machine is
/// the speaker, a warning-only success when no speaker is known, otherwise a
/// connection to a recorded speaker.
pub fn plan_relay(local_is_speaker: bool, reg: &PeerRegistry) -> (r: RelayPlan)
    requires
        reg.wf(),
    ensures
        local_is_speaker ==> r == RelayPlan::LocalIsSpeaker,
        !local_is_speaker ==> match r {
            RelayPlan::Connect(a) => reg@.contains_key(a) && reg@[a] == PeerStatus::Speaker,
            RelayPlan::NoSpeaker => forall|a: PeerAddr|
                reg@.contains_key(a) ==> reg@[a] != PeerStatus::Speaker,
            RelayPlan::LocalIsSpeaker => false,
        },
{
    if local_is_speaker {
        return RelayPlan::LocalIsSpeaker;
    }
    match reg.find_speaker() {
        Some(a) => RelayPlan::Connect(a),
        None => RelayPlan::NoSpeaker,
    }
}

/// Whether the speaker side should bind and accept connections: only when the
/// machine's role flag says speaker; in player mode listening is a logged
/// no-op.
pub fn speaker_should_listen(local_is_speaker: bool) -> (r: bool)
    ensures
        r == local_is_speaker,
{
    local_is_speaker
}

/// What arrived on an accepted audio connection, as the transport reports it.
#[derive(Clone, Copy, PartialEq, Eq, Structural, Debug)]
pub enum FrameEvent {
    /// A binary frame whose bytes decoded as an audio chunk.
    BinaryDecodable,
    /// A binary frame whose bytes failed to decode.
    BinaryUndecodable,
    /// A non-binary message.
    NonBinary,
    /// A connection-level error or close.
    TransportError,
}

/// What the speaker does with one event.
#[derive(Clone, Copy, PartialEq, Eq, Structural, Debug)]
pub enum FrameAction {
    /// Enqueue the decoded chunk onto the playback sink.
    Enqueue,
    /// Log and drop the frame; the connection stays open.
    DropFrame,
    /// Ignore the message; the connection stays open.
    Ignore,
    /// End this connection's handling loop; the accept loop continues.
    EndConnection,
}

/// The speaker's reaction to one event: decodable frames play, undecodable
/// frames are dropped without closing the connection, non-binary messages are
/// ignored, and only a transport error ends the handling loop.
pub open spec fn spec_frame_action(ev: FrameEvent) -> FrameAction {
    match ev {
        FrameEvent::BinaryDecodable => FrameAction::Enqueue,
        FrameEvent::BinaryUndecodable => FrameAction::DropFrame,
        FrameEvent::NonBinary => FrameAction::Ignore,
        FrameEvent::TransportError => FrameAction::EndConnection,
    }
}

/// Decides what to do with one event on an audio connection.
pub fn speaker_frame_action(ev: &FrameEvent) -> (r: FrameAction)
    ensures
        r == spec_frame_action(*ev),
{
    match ev {
        FrameEvent::BinaryDecodable => FrameAction::Enqueue,
        FrameEvent::BinaryUndecodable => FrameAction::DropFrame,
        FrameEvent::NonBinary => FrameAction::Ignore,
        FrameEvent::TransportError => FrameAction::EndConnection,
    }
}

/// How many leading events the handling loop consumes: everything up to and
/// excluding the first transport error, or all of them when none occurs.
pub open spec fn connection_cutoff(events: Seq<FrameEvent>) -> int
    decreases events.len(),
{
    if events.len() == 0 {
        0
    } else if events[0] is TransportError {
        0
    } else {
        1 + connection_cutoff(events.drop_first())
    }
}

/// How many frames play on a connection: the decodable binary frames among
/// the events the handling loop consumes.
pub open spec fn spec_frames_played(events: Seq<FrameEvent>) -> int
    decreases events.len(),
{
    if events.len() == 0 {
        0
    } else if events[0] is TransportError {
        0
    } else {
        (if events[0] is BinaryDecodable {
            1int
        } else {
            0int
        }) + spec_frames_played(events.drop_first())
    }
}

/// The handling loop ends only at a transport error: every event before the
/// cutoff — dropped frames included — leaves the connection open, and the
/// cutoff reaches the end when no transport error occurs.
pub proof fn lemma_cutoff_at_transport_error(events: Seq<FrameEvent>)
    ensures
        0 <= connection_cutoff(events) <= events.len(),
        connection_cutoff(events) < events.len() ==> events[connection_cutoff(
            events,
        )] is TransportError,
        forall|k: int|
            0 <= k < connection_cutoff(events) ==> !((#[trigger] events[k]) is TransportError),
    decreases events.len(),
{
    if events.len() == 0 {
    } else if events[0] is TransportError {
    } else {
        lemma_cutoff_at_transport_error(events.drop_first());
        let c = connection_cutoff(events);
        assert forall|k: int| 0 <= k < c implies !((#[trigger] events[k]) is TransportError) by {
            if k > 0 {
                assert(events.drop_first()[k - 1] == events[k]);
            }
        }
        if c < events.len() {
            assert(events.drop_first()[c - 1] == events[c]);
        }
    }
}

/// Replays a connection's events and counts the frames that play: decodable
/// frames before the first transport error. A frame that fails to decode is
/// dropped and the loop goes on; only a transport error ends it.
pub fn run_speaker_connection(events: &Vec<FrameEvent>) -> (played: usize)
    ensures
        played == spec_frames_played(events@),
{
    let n = events.len();
    let mut played: usize = 0;
    let mut i: usize = 0;
    assert(events@.skip(0) =~= events@);
    while i < n
        invariant
            i <= n == events@.len(),
            played <= i,
            spec_frames_played(events@) == played + spec_frames_played(events@.skip(i as int)),
        decreases n - i,
    {
        proof {
            assert(events@.skip(i as int)[0] == events@[i as int]);
            assert(events@.skip(i as int).drop_first() =~= events@.skip(i as int + 1));
        }
        match speaker_frame_action(&events[i]) {
            FrameAction::Enqueue => {
                played = played + 1;
            },
            FrameAction::DropFrame => {
            },
            FrameAction::Ignore => {
            },
            FrameAction::EndConnection => {
                return played;
            },
        }
        i = i + 1;
    }
    proof {
        assert(events@.skip(n as int) =~= Seq::<FrameEvent>::empty());
    }
    played
}

/// How many chunks the player delivers before the relay loop ends: the sends
/// that succeeded before the first failure; a failed send ends the loop and
/// the connection is considered dead, with no automatic reconnect.
pub open spec fn spec_frames_sent(sends: Seq<bool>) -> int
    decreases sends.len(),
{
    if sends.len() == 0 {
        0
    } else if !sends[0] {
        0
    } else {
        1 + spec_frames_sent(sends.drop_first())
    }
}

/// Replays the player-side send loop over the reported send outcomes and
/// counts the delivered chunks: the loop stops at the first failed send.
pub fn frames_sent_before_failure(sends: &Vec<bool>) -> (n: usize)
    ensures
        n == spec_frames_sent(sends@),
{
    let len = sends.len();
    let mut i: usize = 0;
    assert(sends@.skip(0) =~= sends@);
    while i < len
        invariant
            i <= len == sends@.len(),
            spec_frames_sent(sends@) == i + spec_frames_sent(sends@.skip(i as int)),
        decreases len - i,
    {
        proof {
            assert(sends@.skip(i as int)[0] == sends@[i as int]);
            assert(sends@.skip(i as int).drop_first() =~= sends@.skip(i as int + 1));
        }
        if !sends[i] {
            return i;
        }
        i = i + 1;
    }
    proof {
        assert(sends@.skip(len as int) =~= Seq::<bool>::empty());
    }
    len
}

} // verus!
