//! The course of a testbed run: Alice commits, connects, goes dark and reconnects; Bob follows.
//!
//! Each end is a state machine. The caller performs the action that a step asks for and hands back
//! what happened. Times are nanoseconds; `elapsed` counts from the start of the run.

use vstd::prelude::*;
use crate::args::parse_decimal;
use crate::args;
use crate::group::ExportSecret;
use crate::replay::{apply_commit_window, CommitWindowError};
use crate::replay;
use crate::wire;

verus! {

/// Thirty seconds, the grace that waiting for the peer has.
pub const GRACE: u128 = 30_000_000_000;

/// What a row of telemetry is about.
#[derive(Debug, Clone, Copy, PartialEq, Eq, Structural)]
pub enum RowEvent {
    ZeroRttAvailable,
    ControlStream0Rtt,
    ControlStream1Rtt,
    HandshakeConfirmed,
    ReconnectHandshakeConfirmed,
    Handshake0RttAccepted,
    Handshake0RttRejected,
    ReconnectHandshake0RttAccepted,
    ReconnectHandshake0RttRejected,
    HandshakeTranscriptEmbedded,
    ReconnectAttemptTimedOut,
    ReconnectAttemptFailed,
    CommitCpu,
    CommitNet,
    CommitOffline,
    BlackoutStart,
    BlackoutEnd,
    Done,
}

/// A row of telemetry, but for its time and latency.
#[derive(Debug, Clone, Copy, PartialEq, Eq, Structural)]
pub struct Row {
    pub event: RowEvent,
    pub epoch: u64,
    pub bytes: u64,
}

/// The event of a row in words.
pub open spec fn event_text(event: RowEvent) -> Seq<char> {
    match event {
        RowEvent::ZeroRttAvailable => "zero_rtt_available"@,
        RowEvent::ControlStream0Rtt => "control_stream_0rtt"@,
        RowEvent::ControlStream1Rtt => "control_stream_1rtt"@,
        RowEvent::HandshakeConfirmed => "handshake_confirmed"@,
        RowEvent::ReconnectHandshakeConfirmed => "reconnect_handshake_confirmed"@,
        RowEvent::Handshake0RttAccepted => "handshake_0rtt_accepted"@,
        RowEvent::Handshake0RttRejected => "handshake_0rtt_rejected"@,
        RowEvent::ReconnectHandshake0RttAccepted => "reconnect_handshake_0rtt_accepted"@,
        RowEvent::ReconnectHandshake0RttRejected => "reconnect_handshake_0rtt_rejected"@,
        RowEvent::HandshakeTranscriptEmbedded => "handshake_transcript_embedded"@,
        RowEvent::ReconnectAttemptTimedOut => "reconnect_attempt_timed_out"@,
        RowEvent::ReconnectAttemptFailed => "reconnect_attempt_failed"@,
        RowEvent::CommitCpu => "commit_cpu"@,
        RowEvent::CommitNet => "commit_net"@,
        RowEvent::CommitOffline => "commit_offline"@,
        RowEvent::BlackoutStart => "blackout_start"@,
        RowEvent::BlackoutEnd => "blackout_end"@,
        RowEvent::Done => "done"@,
    }
}

impl RowEvent {
    /// The event in words.
    pub fn text(&self) -> (t: &'static str)
        ensures
            t@ == event_text(*self),
    {
        match self {
            RowEvent::ZeroRttAvailable => "zero_rtt_available",
            RowEvent::ControlStream0Rtt => "control_stream_0rtt",
            RowEvent::ControlStream1Rtt => "control_stream_1rtt",
            RowEvent::HandshakeConfirmed => "handshake_confirmed",
            RowEvent::ReconnectHandshakeConfirmed => "reconnect_handshake_confirmed",
            RowEvent::Handshake0RttAccepted => "handshake_0rtt_accepted",
            RowEvent::Handshake0RttRejected => "handshake_0rtt_rejected",
            RowEvent::ReconnectHandshake0RttAccepted => "reconnect_handshake_0rtt_accepted",
            RowEvent::ReconnectHandshake0RttRejected => "reconnect_handshake_0rtt_rejected",
            RowEvent::HandshakeTranscriptEmbedded => "handshake_transcript_embedded",
            RowEvent::ReconnectAttemptTimedOut => "reconnect_attempt_timed_out",
            RowEvent::ReconnectAttemptFailed => "reconnect_attempt_failed",
            RowEvent::CommitCpu => "commit_cpu",
            RowEvent::CommitNet => "commit_net",
            RowEvent::CommitOffline => "commit_offline",
            RowEvent::BlackoutStart => "blackout_start",
            RowEvent::BlackoutEnd => "blackout_end",
            RowEvent::Done => "done",
        }
    }
}

/// Law: no two events have the same name in the telemetry, and each has the name that its readers
/// know.
pub proof fn rows_are_told_apart(one: RowEvent, other: RowEvent)
    ensures
        event_text(one) == event_text(other) <==> one == other,
        event_text(RowEvent::ZeroRttAvailable) == "zero_rtt_available"@,
        event_text(RowEvent::ControlStream0Rtt) == "control_stream_0rtt"@,
        event_text(RowEvent::ControlStream1Rtt) == "control_stream_1rtt"@,
        event_text(RowEvent::HandshakeConfirmed) == "handshake_confirmed"@,
        event_text(RowEvent::ReconnectHandshakeConfirmed) == "reconnect_handshake_confirmed"@,
        event_text(RowEvent::Handshake0RttAccepted) == "handshake_0rtt_accepted"@,
        event_text(RowEvent::Handshake0RttRejected) == "handshake_0rtt_rejected"@,
        event_text(RowEvent::ReconnectHandshake0RttAccepted)
            == "reconnect_handshake_0rtt_accepted"@,
        event_text(RowEvent::ReconnectHandshake0RttRejected)
            == "reconnect_handshake_0rtt_rejected"@,
        event_text(RowEvent::HandshakeTranscriptEmbedded) == "handshake_transcript_embedded"@,
        event_text(RowEvent::ReconnectAttemptTimedOut) == "reconnect_attempt_timed_out"@,
        event_text(RowEvent::ReconnectAttemptFailed) == "reconnect_attempt_failed"@,
        event_text(RowEvent::CommitCpu) == "commit_cpu"@,
        event_text(RowEvent::CommitNet) == "commit_net"@,
        event_text(RowEvent::CommitOffline) == "commit_offline"@,
        event_text(RowEvent::BlackoutStart) == "blackout_start"@,
        event_text(RowEvent::BlackoutEnd) == "blackout_end"@,
        event_text(RowEvent::Done) == "done"@,
{
    reveal_strlit("zero_rtt_available");
    assert("zero_rtt_available"@.len() == 18);
    reveal_strlit("control_stream_0rtt");
    assert("control_stream_0rtt"@.len() == 19);
    reveal_strlit("control_stream_1rtt");
    assert("control_stream_1rtt"@.len() == 19);
    reveal_strlit("handshake_confirmed");
    assert("handshake_confirmed"@.len() == 19);
    reveal_strlit("reconnect_handshake_confirmed");
    assert("reconnect_handshake_confirmed"@.len() == 29);
    reveal_strlit("handshake_0rtt_accepted");
    assert("handshake_0rtt_accepted"@.len() == 23);
    reveal_strlit("handshake_0rtt_rejected");
    assert("handshake_0rtt_rejected"@.len() == 23);
    reveal_strlit("reconnect_handshake_0rtt_accepted");
    assert("reconnect_handshake_0rtt_accepted"@.len() == 33);
    reveal_strlit("reconnect_handshake_0rtt_rejected");
    assert("reconnect_handshake_0rtt_rejected"@.len() == 33);
    reveal_strlit("handshake_transcript_embedded");
    assert("handshake_transcript_embedded"@.len() == 29);
    reveal_strlit("reconnect_attempt_timed_out");
    assert("reconnect_attempt_timed_out"@.len() == 27);
    reveal_strlit("reconnect_attempt_failed");
    assert("reconnect_attempt_failed"@.len() == 24);
    reveal_strlit("commit_cpu");
    assert("commit_cpu"@.len() == 10);
    reveal_strlit("commit_net");
    assert("commit_net"@.len() == 10);
    reveal_strlit("commit_offline");
    assert("commit_offline"@.len() == 14);
    reveal_strlit("blackout_start");
    assert("blackout_start"@.len() == 14);
    reveal_strlit("blackout_end");
    assert("blackout_end"@.len() == 12);
    reveal_strlit("done");
    assert("done"@.len() == 4);
    assert("control_stream_0rtt"@[15] != "control_stream_1rtt"@[15]);
    assert("control_stream_0rtt"@[0] != "handshake_confirmed"@[0]);
    assert("control_stream_1rtt"@[0] != "handshake_confirmed"@[0]);
    assert("reconnect_handshake_confirmed"@[0] != "handshake_transcript_embedded"@[0]);
    assert("handshake_0rtt_accepted"@[15] != "handshake_0rtt_rejected"@[15]);
    assert("reconnect_handshake_0rtt_accepted"@[25] != "reconnect_handshake_0rtt_rejected"@[25]);
    assert("commit_cpu"@[7] != "commit_net"@[7]);
    assert("commit_offline"@[0] != "blackout_start"@[0]);
}

/// How long a run and its phases last. Without blackouts, `blackout_off` is zero; a zero
/// `blackout_on` lets the online phase last to the end of the run.
#[derive(Debug, Clone, Copy, PartialEq, Eq, Structural)]
pub struct Timing {
    pub duration: u128,
    pub blackout_on: u128,
    pub blackout_off: u128,
}

/// What is left of `total` after `elapsed`.
pub open spec fn left_of(total: u128, elapsed: u128) -> u128 {
    if elapsed < total {
        (total - elapsed) as u128
    } else {
        0
    }
}

/// The end of a phase that starts at `elapsed` and lasts `len`, or the end of the run if that
/// comes first.
pub open spec fn phase_deadline(duration: u128, elapsed: u128, len: u128) -> int {
    if elapsed + len < duration {
        elapsed + len
    } else {
        duration as int
    }
}

/// How far Alice has come.
#[derive(Debug, Clone, Copy, PartialEq, Eq, Structural)]
pub enum AliceStage {
    /// Between two cycles.
    Idle,
    /// Waiting for Bob to be ready.
    AwaitingReady,
    /// Sending the pending commits ahead of a reconnection.
    Embedding,
    /// Connecting.
    Connecting,
    /// Connected, and about to start the online phase.
    Entering,
    /// Online.
    Online,
    /// Closing the connection.
    Closing,
    /// About to start a blackout.
    Darkening,
    /// In a blackout.
    Offline,
    /// At the end of the run.
    Finished,
}

/// Alice's state.
#[derive(Debug, Clone, Copy, PartialEq, Eq, Structural)]
pub struct Alice {
    pub stage: AliceStage,
    /// How many commits were made.
    pub epoch: u64,
    /// How many times a connection was tried.
    pub cycle: u64,
    /// The last cycle of Bob's that was seen.
    pub last_ready_seen: u64,
    /// How long the phase lasts.
    pub phase_len: u128,
    /// When the phase ends at the latest.
    pub deadline: u128,
}

/// What happened to Alice.
#[derive(Debug, Clone, Copy, PartialEq, Eq, Structural)]
pub enum AliceEvent {
    /// A cycle may begin.
    Top { elapsed: u128 },
    /// Bob is in this cycle, as far as is known.
    Ready { cycle: u64 },
    /// So many bytes of pending commits were sent.
    WindowSent { bytes: u64 },
    /// The control stream is open.
    Opened,
    /// The handshake is complete, and the early data was accepted or not.
    Connected { accepted: bool },
    /// The reconnection took too long.
    TimedOut,
    /// The connection failed.
    Failed,
    /// A phase begins.
    PhaseStarted { elapsed: u128 },
    /// A phase may go on.
    Check { elapsed: u128, phase_elapsed: u128 },
    /// It is time for a commit.
    Ticked { elapsed: u128, phase_elapsed: u128 },
    /// The deadline of the phase has come.
    DeadlineReached,
    /// The connection is closed.
    Closed { elapsed: u128 },
}

/// What Alice does next.
#[derive(Debug, Clone, Copy, PartialEq, Eq, Structural)]
pub enum AliceAction {
    /// Wait until Bob is ready for a cycle after this one, or for the report timeout.
    AwaitReady { after: u64 },
    /// Connect, however long it takes.
    Connect,
    /// Send the pending commits.
    SendWindow,
    /// Record a row, then connect within the report timeout.
    Reconnect { row: Row },
    /// Record a row, and go on with the connection.
    Record { row: Row },
    /// Record a row, and start a phase.
    EnterPhase { row: Row },
    /// Check whether the phase goes on.
    CheckPhase,
    /// Wait for the commit interval or the deadline of the phase.
    AwaitTick { deadline: u128 },
    /// Commit, send the pending commits, and update the keys of the connection.
    Commit { epoch: u64 },
    /// Commit, and record a row.
    CommitOffline { row: Row },
    /// Close the connection.
    Close,
    /// Record a row, and begin another cycle.
    Again { row: Row },
    /// Give up with the error of the connection.
    Abort,
    /// Record the last row, and end the run.
    Finish { row: Row },
    /// Nothing: the event does not belong to the stage.
    Ignore,
}

/// A row.
pub open spec fn row(event: RowEvent, epoch: u64, bytes: u64) -> Row {
    Row { event, epoch, bytes }
}

/// Whether a phase is over.
pub open spec fn phase_over(s: Alice, t: Timing, elapsed: u128, phase_elapsed: u128) -> bool {
    phase_elapsed >= s.phase_len || elapsed >= t.duration
}

/// The row of a completed handshake.
pub open spec fn handshake_row(cycle: u64, accepted: bool) -> Row {
    row(
        if cycle == 1 {
            if accepted {
                RowEvent::Handshake0RttAccepted
            } else {
                RowEvent::Handshake0RttRejected
            }
        } else if accepted {
            RowEvent::ReconnectHandshake0RttAccepted
        } else {
            RowEvent::ReconnectHandshake0RttRejected
        },
        0,
        0,
    )
}

/// Alice's state before the run.
pub open spec fn alice_initial() -> Alice {
    Alice {
        stage: AliceStage::Idle,
        epoch: 0,
        cycle: 0,
        last_ready_seen: 0,
        phase_len: 0,
        deadline: 0,
    }
}

/// Alice's next state, and what Alice does.
pub open spec fn alice_next(s: Alice, t: Timing, event: AliceEvent) -> (Alice, AliceAction) {
    match (s.stage, event) {
        (AliceStage::Idle, AliceEvent::Top { elapsed }) => if elapsed < t.duration {
            (
                Alice { stage: AliceStage::AwaitingReady, ..s },
                AliceAction::AwaitReady { after: s.last_ready_seen },
            )
        } else {
            (
                Alice { stage: AliceStage::Finished, ..s },
                AliceAction::Finish { row: row(RowEvent::Done, s.epoch, 0) },
            )
        },
        (AliceStage::AwaitingReady, AliceEvent::Ready { cycle }) => if s.cycle == 0 {
            (
                Alice { stage: AliceStage::Connecting, cycle: 1, last_ready_seen: cycle, ..s },
                AliceAction::Connect,
            )
        } else {
            (
                Alice {
                    stage: AliceStage::Embedding,
                    cycle: (s.cycle + 1) as u64,
                    last_ready_seen: cycle,
                    ..s
                },
                AliceAction::SendWindow,
            )
        },
        (AliceStage::Embedding, AliceEvent::WindowSent { bytes }) => (
            Alice { stage: AliceStage::Connecting, ..s },
            AliceAction::Reconnect {
                row: row(RowEvent::HandshakeTranscriptEmbedded, s.epoch, bytes),
            },
        ),
        (AliceStage::Connecting, AliceEvent::Opened) => (
            s,
            AliceAction::Record { row: row(RowEvent::ZeroRttAvailable, 0, 0) },
        ),
        (AliceStage::Connecting, AliceEvent::Connected { accepted }) => (
            Alice { stage: AliceStage::Entering, ..s },
            AliceAction::EnterPhase { row: handshake_row(s.cycle, accepted) },
        ),
        (AliceStage::Connecting, AliceEvent::TimedOut) => if s.cycle <= 1 {
            (Alice { stage: AliceStage::Finished, ..s }, AliceAction::Abort)
        } else {
            (
                Alice { stage: AliceStage::Idle, ..s },
                AliceAction::Again { row: row(RowEvent::ReconnectAttemptTimedOut, s.epoch, 0) },
            )
        },
        (AliceStage::Connecting, AliceEvent::Failed) => if s.cycle <= 1 {
            (Alice { stage: AliceStage::Finished, ..s }, AliceAction::Abort)
        } else {
            (
                Alice { stage: AliceStage::Idle, ..s },
                AliceAction::Again { row: row(RowEvent::ReconnectAttemptFailed, s.epoch, 0) },
            )
        },
        (AliceStage::Entering, AliceEvent::PhaseStarted { elapsed }) => {
            let len = if t.blackout_on == 0 {
                left_of(t.duration, elapsed)
            } else {
                t.blackout_on
            };
            (
                Alice {
                    stage: AliceStage::Online,
                    phase_len: len,
                    deadline: phase_deadline(t.duration, elapsed, len) as u128,
                    ..s
                },
                AliceAction::CheckPhase,
            )
        },
        (AliceStage::Darkening, AliceEvent::PhaseStarted { elapsed }) => (
            Alice {
                stage: AliceStage::Offline,
                phase_len: t.blackout_off,
                deadline: phase_deadline(t.duration, elapsed, t.blackout_off) as u128,
                ..s
            },
            AliceAction::CheckPhase,
        ),
        (AliceStage::Online, AliceEvent::Check { elapsed, phase_elapsed }) => if phase_over(
            s,
            t,
            elapsed,
            phase_elapsed,
        ) {
            (Alice { stage: AliceStage::Closing, ..s }, AliceAction::Close)
        } else {
            (s, AliceAction::AwaitTick { deadline: s.deadline })
        },
        (AliceStage::Online, AliceEvent::Ticked { elapsed, phase_elapsed }) => if phase_over(
            s,
            t,
            elapsed,
            phase_elapsed,
        ) {
            (Alice { stage: AliceStage::Closing, ..s }, AliceAction::Close)
        } else {
            (
                Alice { epoch: (s.epoch + 1) as u64, ..s },
                AliceAction::Commit { epoch: (s.epoch + 1) as u64 },
            )
        },
        (AliceStage::Online, AliceEvent::DeadlineReached) => (
            Alice { stage: AliceStage::Closing, ..s },
            AliceAction::Close,
        ),
        (AliceStage::Closing, AliceEvent::Closed { elapsed }) => if t.blackout_off == 0 || elapsed
            >= t.duration {
            (
                Alice { stage: AliceStage::Finished, ..s },
                AliceAction::Finish { row: row(RowEvent::Done, s.epoch, 0) },
            )
        } else {
            (
                Alice { stage: AliceStage::Darkening, ..s },
                AliceAction::EnterPhase { row: row(RowEvent::BlackoutStart, s.epoch, 0) },
            )
        },
        (AliceStage::Offline, AliceEvent::Check { elapsed, phase_elapsed }) => if phase_over(
            s,
            t,
            elapsed,
            phase_elapsed,
        ) {
            (
                Alice { stage: AliceStage::Idle, ..s },
                AliceAction::Again { row: row(RowEvent::BlackoutEnd, s.epoch, 0) },
            )
        } else {
            (s, AliceAction::AwaitTick { deadline: s.deadline })
        },
        (AliceStage::Offline, AliceEvent::Ticked { elapsed, phase_elapsed }) => if phase_over(
            s,
            t,
            elapsed,
            phase_elapsed,
        ) {
            (
                Alice { stage: AliceStage::Idle, ..s },
                AliceAction::Again { row: row(RowEvent::BlackoutEnd, s.epoch, 0) },
            )
        } else {
            (
                Alice { epoch: (s.epoch + 1) as u64, ..s },
                AliceAction::CommitOffline {
                    row: row(RowEvent::CommitOffline, (s.epoch + 1) as u64, 0),
                },
            )
        },
        (AliceStage::Offline, AliceEvent::DeadlineReached) => (
            Alice { stage: AliceStage::Idle, ..s },
            AliceAction::Again { row: row(RowEvent::BlackoutEnd, s.epoch, 0) },
        ),
        _ => (s, AliceAction::Ignore),
    }
}

/// Whether a cycle has begun, if the stage is one of a cycle.
pub open spec fn alice_wf(s: Alice) -> bool {
    s.cycle == 0 ==> s.stage == AliceStage::Idle || s.stage == AliceStage::AwaitingReady || s.stage
        == AliceStage::Finished
}

/// Law: Alice is in a cycle whenever there is a connection, a phase or a blackout.
pub proof fn stages_belong_to_cycles(s: Alice, t: Timing, event: AliceEvent)
    requires
        alice_wf(s),
        s.cycle < u64::MAX,
    ensures
        alice_wf(alice_initial()),
        alice_wf(alice_next(s, t, event).0),
{
}

/// Law: the epoch counts the commits: a step raises it by one if and only if it asks for a commit,
/// which then has the new epoch.
pub proof fn epoch_counts_commits(s: Alice, t: Timing, event: AliceEvent)
    requires
        s.epoch < u64::MAX,
    ensures
        ({
            let (next, action) = alice_next(s, t, event);
            match action {
                AliceAction::Commit { epoch } => next.epoch == s.epoch + 1 && epoch == next.epoch,
                AliceAction::CommitOffline { row } => next.epoch == s.epoch + 1 && row.epoch
                    == next.epoch,
                _ => next.epoch == s.epoch,
            }
        }),
{
}

/// Law: no commit is made and no cycle begun once the run is over, and none is made in a phase that
/// is over.
pub proof fn nothing_after_the_end(s: Alice, t: Timing, event: AliceEvent)
    ensures
        ({
            let (next, action) = alice_next(s, t, event);
            &&& action is Commit || action is CommitOffline ==> (event
                matches AliceEvent::Ticked { elapsed, phase_elapsed } && elapsed < t.duration
                && phase_elapsed < s.phase_len)
            &&& action is AwaitReady ==> (event matches AliceEvent::Top { elapsed } && elapsed
                < t.duration)
            &&& s.stage == AliceStage::Finished ==> next == s && action == AliceAction::Ignore
        }),
{
}

/// Law: the first cycle connects at once and has no timeout, and every later one first sends the
/// pending commits; only the failure of the first connection ends the run.
pub proof fn only_reconnections_embed(s: Alice, t: Timing, event: AliceEvent)
    requires
        s.cycle < u64::MAX,
    ensures
        ({
            let (next, action) = alice_next(s, t, event);
            &&& action is Connect ==> s.cycle == 0 && next.cycle == 1
            &&& action is SendWindow ==> s.cycle > 0 && next.cycle == s.cycle + 1
            &&& action !is Connect && action !is SendWindow ==> next.cycle == s.cycle
            &&& action is Abort ==> s.cycle <= 1
        }),
{
}

/// Law: a phase never outlasts the run or its own length.
pub proof fn deadlines_are_bounded(s: Alice, t: Timing, elapsed: u128)
    requires
        s.stage == AliceStage::Entering || s.stage == AliceStage::Darkening,
    ensures
        ({
            let next = alice_next(s, t, AliceEvent::PhaseStarted { elapsed }).0;
            &&& next.deadline <= t.duration
            &&& next.deadline <= elapsed + next.phase_len
            &&& next.deadline == t.duration || next.deadline == elapsed + next.phase_len
        }),
{
}

/// Law: a tick in a phase that is not over makes a commit, under the next epoch: online it is sent,
/// in a blackout it is recorded. Nothing else makes one.
pub proof fn ticks_make_commits(s: Alice, t: Timing, event: AliceEvent)
    requires
        s.epoch < u64::MAX,
    ensures
        ({
            let (next, action) = alice_next(s, t, event);
            let due = event matches AliceEvent::Ticked { elapsed, phase_elapsed } && elapsed
                < t.duration && phase_elapsed < s.phase_len;
            &&& action is Commit <==> due && s.stage == AliceStage::Online
            &&& action is CommitOffline <==> due && s.stage == AliceStage::Offline
            &&& action matches AliceAction::Commit { epoch } ==> epoch == s.epoch + 1
            &&& action matches AliceAction::CommitOffline { row } ==> row == (Row {
                event: RowEvent::CommitOffline,
                epoch: (s.epoch + 1) as u64,
                bytes: 0,
            })
            &&& action is Commit || action is CommitOffline ==> next == (Alice {
                epoch: (s.epoch + 1) as u64,
                ..s
            })
        }),
{
}

/// Law: a phase goes on for as long as neither it nor the run is over, and then waits for its own
/// deadline; once either is over, or the deadline has come, Alice closes the connection or ends the
/// blackout. Nothing else closes a connection.
pub proof fn phases_last_as_long_as_they_should(s: Alice, t: Timing, event: AliceEvent)
    ensures
        ({
            let (next, action) = alice_next(s, t, event);
            let over = match event {
                AliceEvent::Check { elapsed, phase_elapsed } => phase_elapsed >= s.phase_len
                    || elapsed >= t.duration,
                AliceEvent::Ticked { elapsed, phase_elapsed } => phase_elapsed >= s.phase_len
                    || elapsed >= t.duration,
                AliceEvent::DeadlineReached => true,
                _ => false,
            };
            &&& action is Close <==> s.stage == AliceStage::Online && over
            &&& action is Close ==> next == (Alice { stage: AliceStage::Closing, ..s })
            &&& s.stage == AliceStage::Offline && over ==> {
                &&& next == (Alice { stage: AliceStage::Idle, ..s })
                &&& action == (AliceAction::Again {
                    row: Row { event: RowEvent::BlackoutEnd, epoch: s.epoch, bytes: 0 },
                })
            }
            &&& action is AwaitTick <==> (s.stage == AliceStage::Online || s.stage
                == AliceStage::Offline) && event is Check && !over
            &&& action matches AliceAction::AwaitTick { deadline } ==> deadline == s.deadline
                && next == s
        }),
{
}

/// Law: an online phase lasts for `blackout_on`, or for the rest of the run where that is zero, and
/// a blackout for `blackout_off`; either ends with the run at the latest.
pub proof fn phases_have_their_length(s: Alice, t: Timing, elapsed: u128)
    ensures
        ({
            let (next, action) = alice_next(s, t, AliceEvent::PhaseStarted { elapsed });
            let end = if elapsed + next.phase_len < t.duration {
                elapsed + next.phase_len
            } else {
                t.duration as int
            };
            &&& action is CheckPhase <==> s.stage == AliceStage::Entering || s.stage
                == AliceStage::Darkening
            &&& s.stage == AliceStage::Entering ==> {
                &&& next.stage == AliceStage::Online
                &&& t.blackout_on > 0 ==> next.phase_len == t.blackout_on
                &&& t.blackout_on == 0 && elapsed <= t.duration ==> elapsed + next.phase_len
                    == t.duration
                &&& t.blackout_on == 0 && elapsed > t.duration ==> next.phase_len == 0
                &&& next.deadline == end
            }
            &&& s.stage == AliceStage::Darkening ==> {
                &&& next.stage == AliceStage::Offline
                &&& next.phase_len == t.blackout_off
                &&& next.deadline == end
            }
        }),
{
}

/// Law: without blackouts Alice stays online to the end of the run: every tick before the end makes
/// a commit, and the first one at the end closes the connection; and then the run ends.
pub proof fn run_without_blackouts_commits_to_the_end(
    s: Alice,
    t: Timing,
    start: u128,
    elapsed: u128,
    commits: u64,
)
    requires
        t.blackout_on == 0,
        t.blackout_off == 0,
        s.stage == AliceStage::Entering,
        start <= elapsed,
        start <= t.duration,
        commits < u64::MAX,
    ensures
        ({
            let started = alice_next(s, t, AliceEvent::PhaseStarted { elapsed: start }).0;
            let online = Alice { epoch: commits, ..started };
            let tick = AliceEvent::Ticked { elapsed, phase_elapsed: (elapsed - start) as u128 };
            let (next, action) = alice_next(online, t, tick);
            let (last, end) = alice_next(
                Alice { stage: AliceStage::Closing, ..online },
                t,
                AliceEvent::Closed { elapsed },
            );
            &&& elapsed < t.duration ==> action == (AliceAction::Commit {
                epoch: (commits + 1) as u64,
            }) && next.stage == AliceStage::Online
            &&& elapsed >= t.duration ==> action == AliceAction::Close
            &&& end == (AliceAction::Finish {
                row: Row { event: RowEvent::Done, epoch: commits, bytes: 0 },
            })
        }),
{
}

/// Law: a run begins cycles until its duration is over, and ends with a row that counts the
/// commits: between cycles, or once a connection is closed and no blackout can follow. Else a
/// blackout follows each closed connection.
pub proof fn runs_end_with_their_duration(s: Alice, t: Timing, event: AliceEvent)
    ensures
        ({
            let (next, action) = alice_next(s, t, event);
            let late = match event {
                AliceEvent::Top { elapsed } => elapsed >= t.duration,
                AliceEvent::Closed { elapsed } => elapsed >= t.duration,
                _ => false,
            };
            let done = Row { event: RowEvent::Done, epoch: s.epoch, bytes: 0 };
            let dark = Row { event: RowEvent::BlackoutStart, epoch: s.epoch, bytes: 0 };
            &&& action is AwaitReady <==> s.stage == AliceStage::Idle && event is Top && !late
            &&& action matches AliceAction::AwaitReady { after } ==> after == s.last_ready_seen
                && next == (Alice { stage: AliceStage::AwaitingReady, ..s })
            &&& action is Finish <==> {
                ||| s.stage == AliceStage::Idle && event is Top && late
                ||| s.stage == AliceStage::Closing && event is Closed && (late || t.blackout_off
                    == 0)
            }
            &&& action matches AliceAction::Finish { row } ==> row == done && next == (Alice {
                stage: AliceStage::Finished,
                ..s
            })
            &&& s.stage == AliceStage::Closing && event is Closed && !late && t.blackout_off > 0
                ==> action == (AliceAction::EnterPhase { row: dark }) && next == (Alice {
                stage: AliceStage::Darkening,
                ..s
            })
        }),
{
}

/// Law: a cycle begins with Bob's announcement, which is remembered: the first connects at once,
/// and every later one first sends the pending commits, records how many bytes that took, and then
/// connects.
pub proof fn cycles_begin_with_the_announcement(s: Alice, t: Timing, event: AliceEvent)
    requires
        s.cycle < u64::MAX,
    ensures
        ({
            let (next, action) = alice_next(s, t, event);
            let announced = s.stage == AliceStage::AwaitingReady && event is Ready;
            &&& action is Connect <==> announced && s.cycle == 0
            &&& action is SendWindow <==> announced && s.cycle > 0
            &&& announced ==> (event matches AliceEvent::Ready { cycle } && next == (Alice {
                stage: if s.cycle == 0 {
                    AliceStage::Connecting
                } else {
                    AliceStage::Embedding
                },
                cycle: (s.cycle + 1) as u64,
                last_ready_seen: cycle,
                ..s
            }))
            &&& action is Reconnect <==> s.stage == AliceStage::Embedding && event is WindowSent
            &&& action matches AliceAction::Reconnect { row } ==> {
                &&& event == (AliceEvent::WindowSent { bytes: row.bytes })
                &&& row.event == RowEvent::HandshakeTranscriptEmbedded
                &&& row.epoch == s.epoch
                &&& next == (Alice { stage: AliceStage::Connecting, ..s })
            }
        }),
{
}

/// Law: an opened connection is recorded, and a completed one starts the online phase with a row
/// that tells whether it is the first connection and whether its early data was accepted. A
/// reconnection that fails is recorded and tried again in the next cycle; a first connection that
/// fails ends the run.
pub proof fn connections_are_recorded(s: Alice, t: Timing, event: AliceEvent)
    ensures
        ({
            let (next, action) = alice_next(s, t, event);
            let connecting = s.stage == AliceStage::Connecting;
            let failed = event is TimedOut || event is Failed;
            &&& action is Record <==> connecting && event is Opened
            &&& action matches AliceAction::Record { row } ==> next == s && row == (Row {
                event: RowEvent::ZeroRttAvailable,
                epoch: 0,
                bytes: 0,
            })
            &&& connecting && event is Connected ==> next == (Alice {
                stage: AliceStage::Entering,
                ..s
            }) && (action matches AliceAction::EnterPhase { row } && row.epoch == 0 && row.bytes
                == 0 && row.event == (match (s.cycle == 1, event->accepted) {
                (true, true) => RowEvent::Handshake0RttAccepted,
                (true, false) => RowEvent::Handshake0RttRejected,
                (false, true) => RowEvent::ReconnectHandshake0RttAccepted,
                (false, false) => RowEvent::ReconnectHandshake0RttRejected,
            }))
            &&& action is Abort <==> connecting && failed && s.cycle <= 1
            &&& action is Abort ==> next == (Alice { stage: AliceStage::Finished, ..s })
            &&& connecting && failed && s.cycle > 1 ==> next == (Alice {
                stage: AliceStage::Idle,
                ..s
            }) && action == (AliceAction::Again {
                row: Row {
                    event: if event is TimedOut {
                        RowEvent::ReconnectAttemptTimedOut
                    } else {
                        RowEvent::ReconnectAttemptFailed
                    },
                    epoch: s.epoch,
                    bytes: 0,
                },
            })
        }),
{
}

/// Law: a phase is entered, and a cycle begun again, in no other way; and an event that does not
/// belong to the stage changes nothing and asks for nothing.
pub proof fn stray_events_change_nothing(s: Alice, t: Timing, event: AliceEvent)
    ensures
        ({
            let (next, action) = alice_next(s, t, event);
            let belongs = match event {
                AliceEvent::Top { .. } => s.stage == AliceStage::Idle,
                AliceEvent::Ready { .. } => s.stage == AliceStage::AwaitingReady,
                AliceEvent::WindowSent { .. } => s.stage == AliceStage::Embedding,
                AliceEvent::Opened | AliceEvent::Connected { .. } | AliceEvent::TimedOut
                | AliceEvent::Failed => s.stage == AliceStage::Connecting,
                AliceEvent::PhaseStarted { .. } => s.stage == AliceStage::Entering || s.stage
                    == AliceStage::Darkening,
                AliceEvent::Check { .. } | AliceEvent::Ticked { .. }
                | AliceEvent::DeadlineReached => s.stage == AliceStage::Online || s.stage
                    == AliceStage::Offline,
                AliceEvent::Closed { .. } => s.stage == AliceStage::Closing,
            };
            &&& action is Ignore <==> !belongs
            &&& action is Ignore ==> next == s
            &&& action is EnterPhase ==> s.stage == AliceStage::Connecting && event is Connected
                || s.stage == AliceStage::Closing && event is Closed
            &&& action is Again ==> s.stage == AliceStage::Connecting || s.stage
                == AliceStage::Offline
        }),
{
}

impl Alice {
    /// Alice before the run.
    pub fn new() -> (s: Self)
        ensures
            s == alice_initial(),
    {
        Alice {
            stage: AliceStage::Idle,
            epoch: 0,
            cycle: 0,
            last_ready_seen: 0,
            phase_len: 0,
            deadline: 0,
        }
    }

    /// Takes in what happened, and decides what to do next.
    pub fn step(&mut self, timing: &Timing, event: AliceEvent) -> (action: AliceAction)
        requires
            old(self).epoch < u64::MAX,
            old(self).cycle < u64::MAX,
        ensures
            (*final(self), action) == alice_next(*old(self), *timing, event),
    {
        match (self.stage, event) {
            (AliceStage::Idle, AliceEvent::Top { elapsed }) => if elapsed < timing.duration {
                self.stage = AliceStage::AwaitingReady;
                AliceAction::AwaitReady { after: self.last_ready_seen }
            } else {
                self.finish()
            },
            (AliceStage::AwaitingReady, AliceEvent::Ready { cycle }) => {
                self.last_ready_seen = cycle;
                self.cycle = self.cycle + 1;
                if self.cycle == 1 {
                    self.stage = AliceStage::Connecting;
                    AliceAction::Connect
                } else {
                    self.stage = AliceStage::Embedding;
                    AliceAction::SendWindow
                }
            },
            (AliceStage::Embedding, AliceEvent::WindowSent { bytes }) => {
                self.stage = AliceStage::Connecting;
                AliceAction::Reconnect {
                    row: Row {
                        event: RowEvent::HandshakeTranscriptEmbedded,
                        epoch: self.epoch,
                        bytes,
                    },
                }
            },
            (AliceStage::Connecting, AliceEvent::Opened) => AliceAction::Record {
                row: Row { event: RowEvent::ZeroRttAvailable, epoch: 0, bytes: 0 },
            },
            (AliceStage::Connecting, AliceEvent::Connected { accepted }) => {
                self.stage = AliceStage::Entering;
                let event = if self.cycle == 1 {
                    if accepted {
                        RowEvent::Handshake0RttAccepted
                    } else {
                        RowEvent::Handshake0RttRejected
                    }
                } else if accepted {
                    RowEvent::ReconnectHandshake0RttAccepted
                } else {
                    RowEvent::ReconnectHandshake0RttRejected
                };
                AliceAction::EnterPhase { row: Row { event, epoch: 0, bytes: 0 } }
            },
            (AliceStage::Connecting, AliceEvent::TimedOut) => self.retry(
                RowEvent::ReconnectAttemptTimedOut,
            ),
            (AliceStage::Connecting, AliceEvent::Failed) => self.retry(
                RowEvent::ReconnectAttemptFailed,
            ),
            (AliceStage::Entering, AliceEvent::PhaseStarted { elapsed }) => {
                self.stage = AliceStage::Online;
                self.phase_len = if timing.blackout_on == 0 {
                    remaining(timing.duration, elapsed)
                } else {
                    timing.blackout_on
                };
                self.deadline = deadline_of(timing.duration, elapsed, self.phase_len);
                AliceAction::CheckPhase
            },
            (AliceStage::Darkening, AliceEvent::PhaseStarted { elapsed }) => {
                self.stage = AliceStage::Offline;
                self.phase_len = timing.blackout_off;
                self.deadline = deadline_of(timing.duration, elapsed, self.phase_len);
                AliceAction::CheckPhase
            },
            (AliceStage::Online, AliceEvent::Check { elapsed, phase_elapsed }) => if phase_elapsed
                >= self.phase_len || elapsed >= timing.duration {
                self.stage = AliceStage::Closing;
                AliceAction::Close
            } else {
                AliceAction::AwaitTick { deadline: self.deadline }
            },
            (AliceStage::Online, AliceEvent::Ticked { elapsed, phase_elapsed }) => if phase_elapsed
                >= self.phase_len || elapsed >= timing.duration {
                self.stage = AliceStage::Closing;
                AliceAction::Close
            } else {
                self.epoch = self.epoch + 1;
                AliceAction::Commit { epoch: self.epoch }
            },
            (AliceStage::Online, AliceEvent::DeadlineReached) => {
                self.stage = AliceStage::Closing;
                AliceAction::Close
            },
            (AliceStage::Closing, AliceEvent::Closed { elapsed }) => if timing.blackout_off == 0
                || elapsed >= timing.duration {
                self.finish()
            } else {
                self.stage = AliceStage::Darkening;
                AliceAction::EnterPhase {
                    row: Row { event: RowEvent::BlackoutStart, epoch: self.epoch, bytes: 0 },
                }
            },
            (AliceStage::Offline, AliceEvent::Check { elapsed, phase_elapsed }) => if phase_elapsed
                >= self.phase_len || elapsed >= timing.duration {
                self.end_blackout()
            } else {
                AliceAction::AwaitTick { deadline: self.deadline }
            },
            (AliceStage::Offline, AliceEvent::Ticked { elapsed, phase_elapsed }) => if phase_elapsed
                >= self.phase_len || elapsed >= timing.duration {
                self.end_blackout()
            } else {
                self.epoch = self.epoch + 1;
                AliceAction::CommitOffline {
                    row: Row { event: RowEvent::CommitOffline, epoch: self.epoch, bytes: 0 },
                }
            },
            (AliceStage::Offline, AliceEvent::DeadlineReached) => self.end_blackout(),
            _ => AliceAction::Ignore,
        }
    }

    /// Ends the run.
    fn finish(&mut self) -> (action: AliceAction)
        ensures
            *final(self) == (Alice { stage: AliceStage::Finished, ..*old(self) }),
            action == (AliceAction::Finish { row: row(RowEvent::Done, old(self).epoch, 0) }),
    {
        self.stage = AliceStage::Finished;
        AliceAction::Finish { row: Row { event: RowEvent::Done, epoch: self.epoch, bytes: 0 } }
    }

    /// Ends a blackout.
    fn end_blackout(&mut self) -> (action: AliceAction)
        ensures
            *final(self) == (Alice { stage: AliceStage::Idle, ..*old(self) }),
            action == (AliceAction::Again { row: row(RowEvent::BlackoutEnd, old(self).epoch, 0) }),
    {
        self.stage = AliceStage::Idle;
        AliceAction::Again {
            row: Row { event: RowEvent::BlackoutEnd, epoch: self.epoch, bytes: 0 },
        }
    }

    /// Gives up on a connection: for good in the first cycle, else until the next one.
    fn retry(&mut self, event: RowEvent) -> (action: AliceAction)
        ensures
            *final(self) == (Alice {
                stage: if old(self).cycle <= 1 {
                    AliceStage::Finished
                } else {
                    AliceStage::Idle
                },
                ..*old(self)
            }),
            action == (if old(self).cycle <= 1 {
                AliceAction::Abort
            } else {
                AliceAction::Again { row: row(event, old(self).epoch, 0) }
            }),
    {
        if self.cycle <= 1 {
            self.stage = AliceStage::Finished;
            AliceAction::Abort
        } else {
            self.stage = AliceStage::Idle;
            AliceAction::Again { row: Row { event, epoch: self.epoch, bytes: 0 } }
        }
    }
}

/// What is left of `total` after `elapsed`.
pub fn remaining(total: u128, elapsed: u128) -> (left: u128)
    ensures
        left == left_of(total, elapsed),
{
    if elapsed < total {
        total - elapsed
    } else {
        0
    }
}

/// The end of a phase that starts at `elapsed` and lasts `len`, or the end of the run if that
/// comes first.
pub fn deadline_of(duration: u128, elapsed: u128, len: u128) -> (deadline: u128)
    ensures
        deadline == phase_deadline(duration, elapsed, len),
{
    if elapsed < duration && len < duration - elapsed {
        elapsed + len
    } else {
        duration
    }
}

/// Law: what is left of a time and what has passed of it make up the whole, and nothing is left of
/// a time that has passed; a deadline is the end of the phase or of the run, whichever comes first.
pub proof fn times_add_up(total: u128, elapsed: u128, len: u128)
    ensures
        elapsed <= total ==> left_of(total, elapsed) + elapsed == total,
        elapsed >= total ==> left_of(total, elapsed) == 0,
        phase_deadline(total, elapsed, len) <= total,
        phase_deadline(total, elapsed, len) <= elapsed + len,
        phase_deadline(total, elapsed, len) == total || phase_deadline(total, elapsed, len)
            == elapsed + len,
{
}

/// How far Bob has come.
#[derive(Debug, Clone, Copy, PartialEq, Eq, Structural)]
pub enum BobStage {
    /// Between two cycles.
    Idle,
    /// Announcing that a cycle begins.
    Announcing,
    /// Waiting for a connection.
    Accepting,
    /// Waiting for the control stream.
    Opening,
    /// Waiting for the handshake.
    Confirming,
    /// Connected.
    Serving,
    /// At the end of the run.
    Finished,
}

/// Bob's state.
#[derive(Debug, Clone, Copy, PartialEq, Eq, Structural)]
pub struct Bob {
    pub stage: BobStage,
    /// How many cycles were begun.
    pub cycle: u64,
}

/// What happened to Bob.
#[derive(Debug, Clone, Copy, PartialEq, Eq, Structural)]
pub enum BobEvent {
    /// A cycle may begin.
    Top { elapsed: u128 },
    /// The cycle is announced.
    Announced { elapsed: u128 },
    /// A connection came in.
    Incoming,
    /// No connection came in.
    NoIncoming,
    /// The control stream is open, on early data or not.
    Control { early: bool },
    /// No control stream was opened.
    NoControl,
    /// The handshake is complete, and so many of the peer's commits are applied.
    Confirmed { epoch: u64 },
    /// The connection is closed.
    Closed,
}

/// What Bob does next.
#[derive(Debug, Clone, Copy, PartialEq, Eq, Structural)]
pub enum BobAction {
    /// Put a fresh configuration in place, if the last one is used up, and announce the cycle.
    Announce { cycle: u64, renew_config: bool },
    /// Wait for a connection.
    Accept { timeout: u128 },
    /// Wait for the control stream, for the report timeout.
    OpenControl,
    /// Record two rows, and wait for the handshake.
    Confirm { first: Row, second: Row },
    /// Record a row, and report until the connection is closed.
    Serve { row: Row },
    /// Close the connection as stale, and begin another cycle.
    Abandon,
    /// Begin another cycle.
    Again,
    /// Record the last row, and end the run.
    Finish { row: Row },
    /// Nothing: the event does not belong to the stage.
    Ignore,
}

/// Bob's state before the run.
pub open spec fn bob_initial() -> Bob {
    Bob { stage: BobStage::Idle, cycle: 0 }
}

/// Bob's next state, and what Bob does.
pub open spec fn bob_next(s: Bob, t: Timing, event: BobEvent) -> (Bob, BobAction) {
    match (s.stage, event) {
        (BobStage::Idle, BobEvent::Top { elapsed }) => if elapsed < t.duration {
            (
                Bob { stage: BobStage::Announcing, cycle: (s.cycle + 1) as u64 },
                BobAction::Announce { cycle: (s.cycle + 1) as u64, renew_config: s.cycle > 0 },
            )
        } else {
            (
                Bob { stage: BobStage::Finished, ..s },
                BobAction::Finish { row: row(RowEvent::Done, 0, 0) },
            )
        },
        (BobStage::Announcing, BobEvent::Announced { elapsed }) => (
            Bob { stage: BobStage::Accepting, ..s },
            BobAction::Accept { timeout: (left_of(t.duration, elapsed) + GRACE) as u128 },
        ),
        (BobStage::Accepting, BobEvent::Incoming) => (
            Bob { stage: BobStage::Opening, ..s },
            BobAction::OpenControl,
        ),
        (BobStage::Accepting, BobEvent::NoIncoming) => (
            Bob { stage: BobStage::Finished, ..s },
            BobAction::Finish { row: row(RowEvent::Done, 0, 0) },
        ),
        (BobStage::Opening, BobEvent::Control { early }) => (
            Bob { stage: BobStage::Confirming, ..s },
            BobAction::Confirm {
                first: row(RowEvent::ZeroRttAvailable, 0, 0),
                second: row(
                    if early {
                        RowEvent::ControlStream0Rtt
                    } else {
                        RowEvent::ControlStream1Rtt
                    },
                    0,
                    0,
                ),
            },
        ),
        (BobStage::Opening, BobEvent::NoControl) => (
            Bob { stage: BobStage::Idle, ..s },
            BobAction::Abandon,
        ),
        (BobStage::Confirming, BobEvent::Confirmed { epoch }) => (
            Bob { stage: BobStage::Serving, ..s },
            BobAction::Serve {
                row: row(
                    if s.cycle == 1 {
                        RowEvent::HandshakeConfirmed
                    } else {
                        RowEvent::ReconnectHandshakeConfirmed
                    },
                    epoch,
                    0,
                ),
            },
        ),
        (BobStage::Serving, BobEvent::Closed) => if t.blackout_off == 0 {
            (
                Bob { stage: BobStage::Finished, ..s },
                BobAction::Finish { row: row(RowEvent::Done, 0, 0) },
            )
        } else {
            (Bob { stage: BobStage::Idle, ..s }, BobAction::Again)
        },
        _ => (s, BobAction::Ignore),
    }
}

/// Law: each cycle is announced under the next number, the configuration is renewed for every one
/// but the first, and no cycle begins once the run is over or after the last one.
pub proof fn cycles_are_announced_in_order(s: Bob, t: Timing, event: BobEvent)
    requires
        s.cycle < u64::MAX,
    ensures
        ({
            let (next, action) = bob_next(s, t, event);
            &&& match action {
                BobAction::Announce { cycle, renew_config } => {
                    &&& next.cycle == s.cycle + 1
                    &&& cycle == next.cycle
                    &&& renew_config == (cycle > 1)
                    &&& event matches BobEvent::Top { elapsed } && elapsed < t.duration
                },
                _ => next.cycle == s.cycle,
            }
            &&& s.stage == BobStage::Finished ==> next == s && action == BobAction::Ignore
        }),
{
}

/// Law: Bob waits for a connection for the rest of the run and half a minute more, and the run ends
/// where none comes.
pub proof fn bob_waits_out_the_run(s: Bob, t: Timing, elapsed: u128)
    requires
        t.duration + 30_000_000_000 <= u128::MAX,
    ensures
        ({
            let (next, action) = bob_next(s, t, BobEvent::Announced { elapsed });
            let (over, last) = bob_next(
                Bob { stage: BobStage::Accepting, ..s },
                t,
                BobEvent::NoIncoming,
            );
            &&& s.stage == BobStage::Announcing ==> {
                &&& next == (Bob { stage: BobStage::Accepting, ..s })
                &&& action matches BobAction::Accept { timeout } && timeout == 30_000_000_000 + (
                if elapsed < t.duration {
                    t.duration - elapsed
                } else {
                    0
                })
            }
            &&& over == (Bob { stage: BobStage::Finished, ..s })
            &&& last == (BobAction::Finish {
                row: Row { event: RowEvent::Done, epoch: 0, bytes: 0 },
            })
        }),
{
}

/// Law: a connection that comes in is served: its control stream is awaited, recorded with whether
/// it came on early data, and once the handshake is complete reports are sent, after a row with the
/// epoch that was reached. A connection without a control stream is abandoned, and another cycle
/// begins.
pub proof fn bob_serves_what_comes_in(s: Bob, t: Timing, event: BobEvent)
    ensures
        ({
            let (next, action) = bob_next(s, t, event);
            &&& action is OpenControl <==> s.stage == BobStage::Accepting && event is Incoming
            &&& action is OpenControl ==> next == (Bob { stage: BobStage::Opening, ..s })
            &&& action is Confirm <==> s.stage == BobStage::Opening && event is Control
            &&& action matches BobAction::Confirm { first, second } ==> {
                &&& next == (Bob { stage: BobStage::Confirming, ..s })
                &&& first == (Row { event: RowEvent::ZeroRttAvailable, epoch: 0, bytes: 0 })
                &&& event == (BobEvent::Control { early: true }) ==> second == (Row {
                    event: RowEvent::ControlStream0Rtt,
                    epoch: 0,
                    bytes: 0,
                })
                &&& event == (BobEvent::Control { early: false }) ==> second == (Row {
                    event: RowEvent::ControlStream1Rtt,
                    epoch: 0,
                    bytes: 0,
                })
            }
            &&& action is Serve <==> s.stage == BobStage::Confirming && event is Confirmed
            &&& action matches BobAction::Serve { row } ==> {
                &&& next == (Bob { stage: BobStage::Serving, ..s })
                &&& event == (BobEvent::Confirmed { epoch: row.epoch })
                &&& row.bytes == 0
                &&& s.cycle == 1 ==> row.event == RowEvent::HandshakeConfirmed
                &&& s.cycle != 1 ==> row.event == RowEvent::ReconnectHandshakeConfirmed
            }
            &&& action is Abandon <==> s.stage == BobStage::Opening && event is NoControl
            &&& action is Abandon ==> next == (Bob { stage: BobStage::Idle, ..s })
        }),
{
}

/// Law: Bob's run ends once its duration is over, where no connection comes in, or with the first
/// connection where there are no blackouts; else every closed connection is followed by another
/// cycle. An event that does not belong to the stage changes nothing.
pub proof fn bob_goes_on_through_blackouts(s: Bob, t: Timing, event: BobEvent)
    ensures
        ({
            let (next, action) = bob_next(s, t, event);
            let late = event matches BobEvent::Top { elapsed } && elapsed >= t.duration;
            let belongs = match event {
                BobEvent::Top { .. } => s.stage == BobStage::Idle,
                BobEvent::Announced { .. } => s.stage == BobStage::Announcing,
                BobEvent::Incoming | BobEvent::NoIncoming => s.stage == BobStage::Accepting,
                BobEvent::Control { .. } | BobEvent::NoControl => s.stage == BobStage::Opening,
                BobEvent::Confirmed { .. } => s.stage == BobStage::Confirming,
                BobEvent::Closed => s.stage == BobStage::Serving,
            };
            &&& action is Announce <==> s.stage == BobStage::Idle && event is Top && !late
            &&& action is Announce ==> next.stage == BobStage::Announcing
            &&& action is Finish <==> {
                ||| s.stage == BobStage::Idle && late
                ||| s.stage == BobStage::Accepting && event is NoIncoming
                ||| s.stage == BobStage::Serving && event is Closed && t.blackout_off == 0
            }
            &&& action matches BobAction::Finish { row } ==> next == (Bob {
                stage: BobStage::Finished,
                ..s
            }) && row == (Row { event: RowEvent::Done, epoch: 0, bytes: 0 })
            &&& action is Again <==> s.stage == BobStage::Serving && event is Closed
                && t.blackout_off > 0
            &&& action is Again ==> next == (Bob { stage: BobStage::Idle, ..s })
            &&& action is Ignore <==> !belongs
            &&& action is Ignore ==> next == s
            &&& action is Accept <==> s.stage == BobStage::Announcing && event is Announced
        }),
{
}

impl Bob {
    /// Bob before the run.
    pub fn new() -> (s: Self)
        ensures
            s == bob_initial(),
    {
        Bob { stage: BobStage::Idle, cycle: 0 }
    }

    /// Takes in what happened, and decides what to do next.
    pub fn step(&mut self, timing: &Timing, event: BobEvent) -> (action: BobAction)
        requires
            old(self).cycle < u64::MAX,
            timing.duration + GRACE <= u128::MAX,
        ensures
            (*final(self), action) == bob_next(*old(self), *timing, event),
    {
        let done = Row { event: RowEvent::Done, epoch: 0, bytes: 0 };
        match (self.stage, event) {
            (BobStage::Idle, BobEvent::Top { elapsed }) => if elapsed < timing.duration {
                self.cycle = self.cycle + 1;
                self.stage = BobStage::Announcing;
                BobAction::Announce { cycle: self.cycle, renew_config: self.cycle > 1 }
            } else {
                self.stage = BobStage::Finished;
                BobAction::Finish { row: done }
            },
            (BobStage::Announcing, BobEvent::Announced { elapsed }) => {
                self.stage = BobStage::Accepting;
                BobAction::Accept { timeout: remaining(timing.duration, elapsed) + GRACE }
            },
            (BobStage::Accepting, BobEvent::Incoming) => {
                self.stage = BobStage::Opening;
                BobAction::OpenControl
            },
            (BobStage::Accepting, BobEvent::NoIncoming) => {
                self.stage = BobStage::Finished;
                BobAction::Finish { row: done }
            },
            (BobStage::Opening, BobEvent::Control { early }) => {
                self.stage = BobStage::Confirming;
                let stream = if early {
                    RowEvent::ControlStream0Rtt
                } else {
                    RowEvent::ControlStream1Rtt
                };
                BobAction::Confirm {
                    first: Row { event: RowEvent::ZeroRttAvailable, epoch: 0, bytes: 0 },
                    second: Row { event: stream, epoch: 0, bytes: 0 },
                }
            },
            (BobStage::Opening, BobEvent::NoControl) => {
                self.stage = BobStage::Idle;
                BobAction::Abandon
            },
            (BobStage::Confirming, BobEvent::Confirmed { epoch }) => {
                self.stage = BobStage::Serving;
                let event = if self.cycle == 1 {
                    RowEvent::HandshakeConfirmed
                } else {
                    RowEvent::ReconnectHandshakeConfirmed
                };
                BobAction::Serve { row: Row { event, epoch, bytes: 0 } }
            },
            (BobStage::Serving, BobEvent::Closed) => if timing.blackout_off == 0 {
                self.stage = BobStage::Finished;
                BobAction::Finish { row: done }
            } else {
                self.stage = BobStage::Idle;
                BobAction::Again
            },
            _ => BobAction::Ignore,
        }
    }
}

/// How long a connection may be idle: the report timeout, the commit interval and the grace.
pub fn idle_timeout(report_timeout: u128, commit_interval: u128) -> (idle: u128)
    requires
        report_timeout + commit_interval + GRACE <= u128::MAX,
    ensures
        idle == report_timeout + commit_interval + GRACE,
{
    report_timeout + commit_interval + GRACE
}

/// The rows of a commit while online.
pub open spec fn online_commit_rows(epoch: u64, bytes: u64) -> (Row, Row) {
    (row(RowEvent::CommitCpu, epoch, 0), row(RowEvent::CommitNet, epoch, bytes))
}

/// Law: both rows of a commit name its epoch, and the bytes that it took to send are counted once,
/// with the sending.
pub proof fn bytes_are_counted_with_the_sending(epoch: u64, bytes: u64)
    ensures
        ({
            let (made, sent) = online_commit_rows(epoch, bytes);
            &&& made.event == RowEvent::CommitCpu
            &&& sent.event == RowEvent::CommitNet
            &&& made.epoch == epoch
            &&& sent.epoch == epoch
            &&& made.bytes == 0
            &&& sent.bytes == bytes
        }),
{
}

/// The rows of a commit while online: one for making it, one for the bytes that sending it took.
pub fn commit_rows(epoch: u64, bytes: u64) -> (rows: (Row, Row))
    ensures
        rows.0 == (Row { event: RowEvent::CommitCpu, epoch, bytes: 0 }),
        rows.1 == (Row { event: RowEvent::CommitNet, epoch, bytes }),
        rows == online_commit_rows(epoch, bytes),
{
    (
        Row { event: RowEvent::CommitCpu, epoch, bytes: 0 },
        Row { event: RowEvent::CommitNet, epoch, bytes },
    )
}

/// What came of a received window.
pub struct Delivery {
    /// The epoch to publish, where it changed.
    pub published: Option<u64>,
    /// Whether the window was replayed to its end.
    pub outcome: Result<(), CommitWindowError>,
}

/// The epoch to publish after a window took a receiver from one epoch to another.
pub open spec fn published_epoch(from: u64, to: u64) -> Option<u64> {
    if to != from {
        Some(to)
    } else {
        None
    }
}

/// Law: every epoch that a window leads to is published, and nothing where it leads nowhere.
pub proof fn new_epochs_are_published(from: u64, to: u64, epoch: u64)
    ensures
        published_epoch(from, to) == Some(epoch) <==> epoch == to && to != from,
        published_epoch(from, from) is None,
{
}

/// Replays a received window, and publishes the epoch if that changed it.
pub fn deliver_window<G: ExportSecret>(
    group: &mut G,
    window: &[(u64, Vec<u8>)],
    local_epoch: &mut u64,
) -> (delivery: Delivery)
    requires
        old(group).inv(),
    ensures
        final(group).inv(),
        replay::replays(
            *old(group),
            *old(local_epoch),
            wire::window_view(window@),
            *final(group),
            *final(local_epoch),
            replay::replay_of(delivery.outcome),
        ),
        delivery.published == (if *final(local_epoch) != *old(local_epoch) {
            Some(*final(local_epoch))
        } else {
            None
        }),
        delivery.published == published_epoch(*old(local_epoch), *final(local_epoch)),
{
    let before: u64 = *local_epoch;
    let outcome = apply_commit_window(group, window, local_epoch);
    let published = if *local_epoch != before {
        Some(*local_epoch)
    } else {
        None
    };
    Delivery { published, outcome }
}

/// What the wait for a peer's cycle does next.
#[derive(Debug, Clone, Copy, PartialEq, Eq, Structural)]
pub enum ReadyAction {
    /// Return this cycle.
    Seen(u64),
    /// Return the cycle that was known before: the wait is over.
    TimedOut(u64),
    /// Look again after a while.
    Sleep,
}

/// Whether a character is white space, by the Unicode property of that name.
pub open spec fn white_space(c: char) -> bool {
    let code = c as int;
    ||| 0x9 <= code <= 0xd
    ||| code == 0x20
    ||| code == 0x85
    ||| code == 0xa0
    ||| code == 0x1680
    ||| 0x2000 <= code <= 0x200a
    ||| code == 0x2028
    ||| code == 0x2029
    ||| code == 0x202f
    ||| code == 0x205f
    ||| code == 0x3000
}

/// The text without the white space around it.
pub open spec fn trimmed(text: Seq<char>) -> Seq<char>
    decreases text.len(),
{
    if text.len() == 0 {
        text
    } else if white_space(text[0]) {
        trimmed(text.skip(1))
    } else if white_space(text.last()) {
        trimmed(text.drop_last())
    } else {
        text
    }
}

/// `str::trim` of the standard library: the text without leading and trailing characters of the
/// Unicode property `White_Space`.
#[verifier::external_body]
fn trim_text(text: &str) -> (r: &str)
    ensures
        r@ == trimmed(text@),
{
    text.trim()
}

/// The cycle that a trimmed text announces, if it comes after the one that is known.
pub open spec fn newer_cycle(text: Seq<char>, after: u64) -> Option<nat> {
    match args::number(text) {
        Some(cycle) => if cycle > after {
            Some(cycle)
        } else {
            None
        },
        None => None,
    }
}

/// What a wait does that found a newer cycle or none.
pub open spec fn ready_action(
    newer: Option<nat>,
    after: u64,
    elapsed: u128,
    timeout: u128,
) -> ReadyAction {
    match newer {
        Some(cycle) => ReadyAction::Seen(cycle as u64),
        None => if elapsed >= timeout {
            ReadyAction::TimedOut(after)
        } else {
            ReadyAction::Sleep
        },
    }
}

/// Decides how the wait for a cycle after `after` goes on, by the peer's announcement, where there
/// is one. White space around the announcement does not count.
pub fn ready_step(text: Option<&str>, after: u64, elapsed: u128, timeout: u128) -> (action:
    ReadyAction)
    ensures
        action == ready_action(
            match text {
                Some(t) => newer_cycle(trimmed(t@), after),
                None => None,
            },
            after,
            elapsed,
            timeout,
        ),
{
    if let Some(t) = text {
        if let Some(cycle) = parse_decimal(trim_text(t), u64::MAX) {
            if cycle > after {
                return ReadyAction::Seen(cycle);
            }
        }
    }
    if elapsed >= timeout {
        ReadyAction::TimedOut(after)
    } else {
        ReadyAction::Sleep
    }
}

/// Law: a cycle is seen as soon as it is announced as a number beyond the known one, whatever time
/// has passed and whatever white space stands around the number; otherwise the wait goes on to its
/// timeout, and then gives the known cycle.
pub proof fn newer_cycles_are_seen_at_once(
    text: Option<Seq<char>>,
    after: u64,
    elapsed: u128,
    timeout: u128,
    cycle: u64,
)
    ensures
        ({
            let action = ready_action(
                match text {
                    Some(t) => newer_cycle(trimmed(t), after),
                    None => None,
                },
                after,
                elapsed,
                timeout,
            );
            let newer = text matches Some(t) && (args::number(trimmed(t)) matches Some(n) && n
                > after);
            &&& action == ReadyAction::Seen(cycle) <==> newer && args::number(
                trimmed(text->0),
            ) == Some(cycle as nat)
            &&& action is TimedOut <==> !newer && elapsed >= timeout
            &&& action matches ReadyAction::TimedOut(known) ==> known == after
            &&& action is Sleep <==> !newer && elapsed < timeout
        }),
{
}

/// Law: trimming takes off the white space at both ends and nothing else: what stands between is
/// kept if it begins and ends with something else, and nothing is left of white space alone.
pub proof fn trimming_keeps_what_stands_between(
    before: Seq<char>,
    text: Seq<char>,
    behind: Seq<char>,
)
    requires
        forall|i: int| 0 <= i < before.len() ==> white_space(#[trigger] before[i]),
        forall|i: int| 0 <= i < behind.len() ==> white_space(#[trigger] behind[i]),
        text.len() == 0 || !white_space(text[0]) && !white_space(text.last()),
    ensures
        trimmed(before + text + behind) == text,
        white_space(' ') && white_space('\t') && white_space('\n') && white_space('\r'),
        !white_space('0') && !white_space('9') && !white_space('a') && !white_space('-'),
    decreases before.len() + behind.len(), behind.len(),
{
    let whole = before + text + behind;
    if before.len() > 0 {
        assert(white_space(before[0]));
        assert(whole[0] == before[0]);
        assert(whole.skip(1) =~= before.skip(1) + text + behind);
        assert forall|i: int| 0 <= i < before.skip(1).len() implies white_space(
            #[trigger] before.skip(1)[i],
        ) by {
            assert(before.skip(1)[i] == before[i + 1]);
        }
        trimming_keeps_what_stands_between(before.skip(1), text, behind);
    } else if behind.len() > 0 {
        if text.len() == 0 {
            assert(whole =~= behind + text + before);
            trimming_keeps_what_stands_between(behind, text, before);
        } else {
            assert(whole[0] == text[0]);
            assert(whole.last() == behind.last());
            assert(white_space(behind[behind.len() - 1]));
            assert(whole.drop_last() =~= before + text + behind.drop_last());
            assert forall|i: int| 0 <= i < behind.drop_last().len() implies white_space(
                #[trigger] behind.drop_last()[i],
            ) by {
                assert(behind.drop_last()[i] == behind[i]);
            }
            trimming_keeps_what_stands_between(before, text, behind.drop_last());
        }
    } else {
        assert(whole =~= text);
    }
}

/// Law: a wait ends with a newer cycle, or after the timeout with the cycle that was known, and so
/// never goes back.
pub proof fn waiting_never_goes_back(
    newer: Option<nat>,
    text: Seq<char>,
    after: u64,
    elapsed: u128,
    timeout: u128,
)
    requires
        newer == newer_cycle(text, after) || newer is None,
    ensures
        match ready_action(newer, after, elapsed, timeout) {
            ReadyAction::Seen(cycle) => cycle > after,
            ReadyAction::TimedOut(cycle) => cycle == after && elapsed >= timeout,
            ReadyAction::Sleep => elapsed < timeout,
        },
{
}

} // verus!
