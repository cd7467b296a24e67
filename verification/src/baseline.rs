//! The course of a client of the TLS baseline: one full handshake, then reconnections, each after a
//! blackout.

use vstd::prelude::*;

verus! {

/// How a connection came about.
#[derive(Debug, Clone, Copy, PartialEq, Eq, Structural)]
pub enum Outcome {
    /// By a full handshake.
    Full,
    /// By resuming, and the early data was accepted or not.
    Resumed(bool),
}

/// What a record is about.
#[derive(Debug, Clone, Copy, PartialEq, Eq, Structural)]
pub enum Phase {
    InitialHandshake,
    Reconnect,
}

/// The part of a record that the course decides.
#[derive(Debug, Clone, Copy, PartialEq, Eq, Structural)]
pub struct Entry {
    pub phase: Phase,
    pub iteration: u32,
    /// Whether the connection resumed an earlier one.
    pub resumed: bool,
    pub zero_rtt_accepted: bool,
}

/// What a client is asked to do.
#[derive(Debug, Clone, Copy, PartialEq, Eq, Structural)]
pub struct Plan {
    pub reconnects: u32,
    pub blackout_ms: u64,
    pub rtt_ms: u64,
    pub no_resumption: bool,
}

/// How far a client has come. The number counts the reconnections.
#[derive(Debug, Clone, Copy, PartialEq, Eq, Structural)]
pub enum ClientStage {
    /// Connecting.
    Connecting(u32),
    /// Recording the connection.
    Recording(u32),
    /// Waiting for session tickets.
    Settling(u32),
    /// Closing the connection.
    Closing(u32),
    /// In the blackout before this reconnection.
    Dark(u32),
    /// At the end.
    Finished,
}

/// What a client does next.
#[derive(Debug, Clone, Copy, PartialEq, Eq, Structural)]
pub enum ClientAction {
    /// Connect, with a full handshake or, where that is possible, by resuming.
    Connect { full: bool },
    /// Write a record.
    Record { entry: Entry },
    /// Sleep.
    Sleep { ms: u64 },
    /// Close the connection, with the reason of the phase.
    Close { phase: Phase },
    /// Wait until the endpoint is idle, and end.
    Finish,
}

/// The entry of a connection.
pub open spec fn entry_of(iteration: u32, outcome: Outcome) -> Entry {
    Entry {
        phase: if iteration == 0 {
            Phase::InitialHandshake
        } else {
            Phase::Reconnect
        },
        iteration,
        resumed: outcome is Resumed,
        zero_rtt_accepted: outcome == Outcome::Resumed(true),
    }
}

/// How long a client waits for session tickets: two round trips and two seconds, in milliseconds.
pub open spec fn settle_time(rtt_ms: u64) -> int {
    2 * rtt_ms + 2000
}

/// What a client does once its connection of this iteration is closed or the blackout is over.
pub open spec fn connect_or_sleep(plan: Plan, iteration: u32, dark: bool) -> (
    ClientStage,
    ClientAction,
) {
    if plan.blackout_ms > 0 && !dark {
        (ClientStage::Dark(iteration), ClientAction::Sleep { ms: plan.blackout_ms })
    } else {
        (ClientStage::Connecting(iteration), ClientAction::Connect { full: plan.no_resumption })
    }
}

/// The next stage of a client, and what it does, once it has done what the stage asks for.
/// `outcome` tells how a connection came about, and counts only while connecting.
pub open spec fn client_next(plan: Plan, stage: ClientStage, outcome: Outcome) -> (
    ClientStage,
    ClientAction,
) {
    match stage {
        ClientStage::Connecting(i) => (
            ClientStage::Recording(i),
            ClientAction::Record { entry: entry_of(i, outcome) },
        ),
        ClientStage::Recording(i) => if plan.no_resumption {
            (
                ClientStage::Closing(i),
                ClientAction::Close { phase: entry_of(i, outcome).phase },
            )
        } else {
            (
                ClientStage::Settling(i),
                ClientAction::Sleep { ms: settle_time(plan.rtt_ms) as u64 },
            )
        },
        ClientStage::Settling(i) => (
            ClientStage::Closing(i),
            ClientAction::Close { phase: entry_of(i, outcome).phase },
        ),
        ClientStage::Closing(i) => if i < plan.reconnects {
            connect_or_sleep(plan, (i + 1) as u32, false)
        } else {
            (ClientStage::Finished, ClientAction::Finish)
        },
        ClientStage::Dark(i) => connect_or_sleep(plan, i, true),
        ClientStage::Finished => (ClientStage::Finished, ClientAction::Finish),
    }
}

/// The iteration of a stage, and how many steps the stage is into it.
pub open spec fn progress(stage: ClientStage) -> (int, int) {
    match stage {
        ClientStage::Dark(i) => (i as int, 0),
        ClientStage::Connecting(i) => (i as int, 1),
        ClientStage::Recording(i) => (i as int, 2),
        ClientStage::Settling(i) => (i as int, 3),
        ClientStage::Closing(i) => (i as int, 4),
        ClientStage::Finished => (0x1_0000_0000, 0),
    }
}

/// Law: a client always moves on, through its iterations in order, and makes no connection beyond
/// the reconnections it was asked for; early data is recorded as accepted only of a connection that
/// resumed another.
pub proof fn client_moves_on(plan: Plan, stage: ClientStage, outcome: Outcome)
    requires
        stage != ClientStage::Finished,
        progress(stage).0 <= plan.reconnects,
    ensures
        ({
            let (next, action) = client_next(plan, stage, outcome);
            let (i, k) = progress(stage);
            let (j, m) = progress(next);
            &&& next == ClientStage::Finished || j == i && m > k || j == i + 1 && k == 4
            &&& next == ClientStage::Finished || j <= plan.reconnects
            &&& next == ClientStage::Finished ==> i == plan.reconnects && action
                == ClientAction::Finish
            &&& action matches ClientAction::Record { entry } ==> entry.iteration == i && (
            entry.zero_rtt_accepted ==> entry.resumed)
        }),
{
}

/// Law: every connection but the first is a full handshake if and only if the plan forbids
/// resumption: whenever a client goes on to connect again, from a closed connection or from a
/// blackout, it connects in full exactly then.
pub proof fn reconnections_resume_unless_forbidden(plan: Plan, stage: ClientStage, outcome: Outcome)
    ensures
        ({
            let (next, action) = client_next(plan, stage, outcome);
            &&& action is Connect <==> next is Connecting
            &&& action matches ClientAction::Connect { full } ==> full == plan.no_resumption
            &&& next is Connecting <==> stage is Dark || (stage matches ClientStage::Closing(i)
                && i < plan.reconnects && plan.blackout_ms == 0)
            &&& stage matches ClientStage::Dark(i) ==> next == ClientStage::Connecting(i)
            &&& stage matches ClientStage::Closing(i) ==> i < plan.reconnects && plan.blackout_ms
                == 0 ==> next == ClientStage::Connecting((i + 1) as u32)
        }),
{
}

/// Law: a client sleeps through the blackout before each reconnection, where the plan has one, and
/// for two round trips and two seconds after each connection that may be resumed; and never
/// otherwise.
pub proof fn sleeps_are_as_long_as_planned(plan: Plan, stage: ClientStage, outcome: Outcome)
    requires
        2 * plan.rtt_ms + 2000 <= u64::MAX,
    ensures
        ({
            let (next, action) = client_next(plan, stage, outcome);
            &&& action is Sleep <==> next is Dark || next is Settling
            &&& next is Dark <==> (stage matches ClientStage::Closing(i) && i < plan.reconnects
                && plan.blackout_ms > 0)
            &&& next matches ClientStage::Dark(j) ==> stage == ClientStage::Closing(
                (j - 1) as u32,
            ) && j > 0 && action == (ClientAction::Sleep { ms: plan.blackout_ms })
            &&& next is Settling <==> stage is Recording && !plan.no_resumption
            &&& next matches ClientStage::Settling(j) ==> stage == ClientStage::Recording(j)
                && action == (ClientAction::Sleep { ms: (2 * plan.rtt_ms + 2000) as u64 })
        }),
{
}

/// Law: each connection is recorded as it came about, the first as the initial handshake and the
/// others as reconnections, and is then closed under the same phase; after the last one the client
/// ends.
pub proof fn connections_are_recorded_and_closed(plan: Plan, stage: ClientStage, outcome: Outcome)
    ensures
        ({
            let (next, action) = client_next(plan, stage, outcome);
            &&& action is Record <==> stage is Connecting
            &&& stage matches ClientStage::Connecting(i) ==> {
                &&& next == ClientStage::Recording(i)
                &&& action matches ClientAction::Record { entry } && {
                    &&& entry.iteration == i
                    &&& entry.phase == Phase::InitialHandshake <==> i == 0
                    &&& entry.resumed <==> outcome is Resumed
                    &&& entry.zero_rtt_accepted <==> outcome == Outcome::Resumed(true)
                }
            }
            &&& action is Close <==> stage is Settling || stage is Recording && plan.no_resumption
            &&& stage matches ClientStage::Settling(i) ==> next == ClientStage::Closing(i) && (
            action matches ClientAction::Close { phase } && (phase == Phase::InitialHandshake
                <==> i == 0))
            &&& stage matches ClientStage::Recording(i) ==> plan.no_resumption ==> next
                == ClientStage::Closing(i) && (action matches ClientAction::Close { phase } && (
            phase == Phase::InitialHandshake <==> i == 0))
            &&& action is Finish <==> stage == ClientStage::Finished || (stage
                matches ClientStage::Closing(i) && i >= plan.reconnects)
            &&& action is Finish <==> next == ClientStage::Finished
        }),
{
}

/// How the connections of a client are named in its records.
pub fn mode_text(resumed: bool) -> (t: &'static str)
    ensures
        t@ == (if resumed {
            "0rtt"@
        } else {
            "full-1rtt"@
        }),
{
    if resumed {
        "0rtt"
    } else {
        "full-1rtt"
    }
}

impl Phase {
    /// The phase as records name it.
    pub fn text(&self) -> (t: &'static str)
        ensures
            t@ == (match *self {
                Phase::InitialHandshake => "initial_handshake"@,
                Phase::Reconnect => "reconnect"@,
            }),
    {
        match self {
            Phase::InitialHandshake => "initial_handshake",
            Phase::Reconnect => "reconnect",
        }
    }

    /// The reason for which a connection of this phase is closed.
    pub fn close_reason(&self) -> (t: &'static str)
        ensures
            t@ == (match *self {
                Phase::InitialHandshake => "initial-done"@,
                Phase::Reconnect => "reconnect-done"@,
            }),
    {
        match self {
            Phase::InitialHandshake => "initial-done",
            Phase::Reconnect => "reconnect-done",
        }
    }
}

/// The phase of an iteration.
fn phase_of(iteration: u32) -> (phase: Phase)
    ensures
        phase == entry_of(iteration, Outcome::Full).phase,
{
    if iteration == 0 {
        Phase::InitialHandshake
    } else {
        Phase::Reconnect
    }
}

/// How a client starts: with a full handshake.
pub fn client_start() -> (r: (ClientStage, ClientAction))
    ensures
        r == (ClientStage::Connecting(0), ClientAction::Connect { full: true }),
{
    (ClientStage::Connecting(0), ClientAction::Connect { full: true })
}

/// Decides how a client goes on that has done what the stage asks for. `outcome` tells how a
/// connection came about, and counts only while connecting.
pub fn client_step(plan: &Plan, stage: ClientStage, outcome: Outcome) -> (r: (
    ClientStage,
    ClientAction,
))
    requires
        settle_time(plan.rtt_ms) <= u64::MAX,
    ensures
        r == client_next(*plan, stage, outcome),
{
    match stage {
        ClientStage::Connecting(i) => {
            let (resumed, accepted) = match outcome {
                Outcome::Full => (false, false),
                Outcome::Resumed(accepted) => (true, accepted),
            };
            let entry = Entry {
                phase: phase_of(i),
                iteration: i,
                resumed,
                zero_rtt_accepted: accepted,
            };
            (ClientStage::Recording(i), ClientAction::Record { entry })
        },
        ClientStage::Recording(i) => if plan.no_resumption {
            (ClientStage::Closing(i), ClientAction::Close { phase: phase_of(i) })
        } else {
            (ClientStage::Settling(i), ClientAction::Sleep { ms: 2 * plan.rtt_ms + 2000 })
        },
        ClientStage::Settling(i) => (
            ClientStage::Closing(i),
            ClientAction::Close { phase: phase_of(i) },
        ),
        ClientStage::Closing(i) => if i < plan.reconnects {
            if plan.blackout_ms > 0 {
                (ClientStage::Dark(i + 1), ClientAction::Sleep { ms: plan.blackout_ms })
            } else {
                (
                    ClientStage::Connecting(i + 1),
                    ClientAction::Connect { full: plan.no_resumption },
                )
            }
        } else {
            (ClientStage::Finished, ClientAction::Finish)
        },
        ClientStage::Dark(i) => (
            ClientStage::Connecting(i),
            ClientAction::Connect { full: plan.no_resumption },
        ),
        ClientStage::Finished => (ClientStage::Finished, ClientAction::Finish),
    }
}

} // verus!
