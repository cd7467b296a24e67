//! The control stream, on which a receiver reports how far it has come.
//!
//! A message is a type byte and, for a report, an epoch as eight big-endian bytes.

use vstd::prelude::*;
use crate::group::{CommitLog, ExportSecret};
use crate::group;
use crate::wire;

verus! {

/// The type byte of a report.
pub const TYPE_REPORT: u8 = 0x02;

/// The type byte of a greeting.
pub const TYPE_HELLO: u8 = 0x03;

/// A message on the control stream.
#[derive(Debug, Clone, Copy, PartialEq, Eq, Structural)]
pub enum ControlMessage {
    /// The sender has applied the peer's commits up to this epoch.
    Report(u64),
    /// The stream is open.
    Hello,
}

/// The type byte is that of no message.
#[derive(Debug, Clone, Copy, PartialEq, Eq, Structural)]
pub struct InvalidMessageType;

/// What happened to a sender of reports.
#[derive(Debug, Clone, Copy, PartialEq, Eq, Structural)]
pub enum ReportEvent {
    /// The epoch was read, and reporting is switched on or off.
    Epoch(u64, bool),
    /// The report was written, or not.
    Written(bool),
    /// The epoch changed, or will not change again.
    Changed(bool),
}

/// What a sender of reports does next.
#[derive(Debug, Clone, Copy, PartialEq, Eq, Structural)]
pub enum ReportAction {
    /// Read the epoch.
    ReadEpoch,
    /// Write a message.
    Write(ControlMessage),
    /// Wait until the epoch changes.
    AwaitChange,
    /// Stop.
    Stop,
}

/// A message on the wire.
pub open spec fn message_bytes(message: ControlMessage) -> Seq<u8> {
    match message {
        ControlMessage::Report(epoch) => seq![TYPE_REPORT] + wire::be_bytes(epoch as nat, 8),
        ControlMessage::Hello => seq![TYPE_HELLO],
    }
}

/// How many bytes follow a type byte.
pub open spec fn body_len(message_type: u8) -> Result<usize, InvalidMessageType> {
    if message_type == TYPE_REPORT {
        Ok(8)
    } else if message_type == TYPE_HELLO {
        Ok(0)
    } else {
        Err(InvalidMessageType)
    }
}

/// Law: what follows a type byte decides the message: bytes are read as a message if and only if
/// they are that message on the wire.
pub proof fn messages_round_trip(message_type: u8, body: Seq<u8>, message: ControlMessage)
    ensures
        body_len(message_bytes(message)[0]) == Ok::<usize, InvalidMessageType>(
            (message_bytes(message).len() - 1) as usize,
        ),
        message_read(message_type, body) == Some(message) <==> seq![message_type] + body
            == message_bytes(message),
{
    let bytes = seq![message_type] + body;
    wire::lemma_byte_ranges();
    assert(bytes[0] == message_type);
    assert(bytes.skip(1) =~= body);
    if let ControlMessage::Report(epoch) = message {
        wire::lemma_be_bytes_len(epoch as nat, 8);
        wire::lemma_be_nat_of_bytes(epoch as nat, 8);
        assert(message_bytes(message).skip(1) =~= wire::be_bytes(epoch as nat, 8));
    } else {
        assert(message_bytes(message).skip(1) =~= Seq::empty());
    }
    if message_read(message_type, body) == Some(message) {
        wire::lemma_be_bytes_of_nat(body);
        assert(bytes =~= message_bytes(message));
    }
}

/// The message with this type byte and these bytes behind it, where there are as many as it takes.
pub open spec fn message_read(message_type: u8, body: Seq<u8>) -> Option<ControlMessage> {
    if message_type == TYPE_REPORT && body.len() == 8 {
        Some(ControlMessage::Report(wire::be_nat(body) as u64))
    } else if message_type == TYPE_HELLO && body.len() == 0 {
        Some(ControlMessage::Hello)
    } else {
        None
    }
}

/// Law: a report is the byte 2 and its epoch as eight bytes, most significant first; a greeting is
/// the byte 3 alone; and no other byte starts a message.
pub proof fn messages_have_a_fixed_layout(epoch: u64, message_type: u8)
    ensures
        message_bytes(ControlMessage::Report(epoch)) == seq![
            2u8,
            (epoch / 0x100_0000_0000_0000 % 256) as u8,
            (epoch / 0x1_0000_0000_0000 % 256) as u8,
            (epoch / 0x100_0000_0000 % 256) as u8,
            (epoch / 0x1_0000_0000 % 256) as u8,
            (epoch / 0x100_0000 % 256) as u8,
            (epoch / 0x1_0000 % 256) as u8,
            (epoch / 0x100 % 256) as u8,
            (epoch % 256) as u8,
        ],
        message_bytes(ControlMessage::Hello) == seq![3u8],
        body_len(message_type) is Ok <==> message_type == 2 || message_type == 3,
        body_len(2) == Ok::<usize, InvalidMessageType>(8),
        body_len(3) == Ok::<usize, InvalidMessageType>(0),
{
    wire::integers_are_written_big_endian(epoch as nat);
    assert(message_bytes(ControlMessage::Report(epoch)) =~= seq![
        2u8,
        (epoch / 0x100_0000_0000_0000 % 256) as u8,
        (epoch / 0x1_0000_0000_0000 % 256) as u8,
        (epoch / 0x100_0000_0000 % 256) as u8,
        (epoch / 0x1_0000_0000 % 256) as u8,
        (epoch / 0x100_0000 % 256) as u8,
        (epoch / 0x1_0000 % 256) as u8,
        (epoch / 0x100 % 256) as u8,
        (epoch % 256) as u8,
    ]);
}

/// What a sender of reports does after an event.
pub open spec fn report_next(event: ReportEvent) -> ReportAction {
    match event {
        ReportEvent::Epoch(epoch, on) => if on {
            ReportAction::Write(ControlMessage::Report(epoch))
        } else {
            ReportAction::AwaitChange
        },
        ReportEvent::Written(ok) => if ok {
            ReportAction::AwaitChange
        } else {
            ReportAction::Stop
        },
        ReportEvent::Changed(ok) => if ok {
            ReportAction::ReadEpoch
        } else {
            ReportAction::Stop
        },
    }
}

/// Law: each epoch that is read while reporting is switched on is reported as it is, and only then
/// is anything written; every change is followed by reading the epoch; and only a failed write or
/// the end of all changes stops the sender.
pub proof fn every_epoch_read_is_reported(event: ReportEvent, epoch: u64)
    ensures
        report_next(event) == ReportAction::Write(ControlMessage::Report(epoch)) <==> event
            == ReportEvent::Epoch(epoch, true),
        report_next(event) != ReportAction::Write(ControlMessage::Hello),
        report_next(event) is ReadEpoch <==> event == ReportEvent::Changed(true),
        report_next(event) is Stop <==> event == ReportEvent::Written(false) || event
            == ReportEvent::Changed(false),
{
}

/// Encodes a message.
pub fn encode(msg: &ControlMessage) -> (buf: Vec<u8>)
    ensures
        buf@ == message_bytes(*msg),
{
    let mut buf: Vec<u8> = Vec::new();
    match msg {
        ControlMessage::Report(epoch) => {
            buf.push(TYPE_REPORT);
            wire::put_be(&mut buf, *epoch, 8);
        },
        ControlMessage::Hello => {
            buf.push(TYPE_HELLO);
        },
    }
    assert(buf@ =~= message_bytes(*msg));
    buf
}

/// How many bytes to read behind a type byte.
pub fn message_body_len(msg_type: u8) -> (r: Result<usize, InvalidMessageType>)
    ensures
        r == body_len(msg_type),
{
    if msg_type == TYPE_REPORT {
        Ok(8)
    } else if msg_type == TYPE_HELLO {
        Ok(0)
    } else {
        Err(InvalidMessageType)
    }
}

/// Decodes a message from its type byte and the bytes behind it.
pub fn decode(msg_type: u8, body: &[u8]) -> (r: Result<ControlMessage, InvalidMessageType>)
    requires
        body_len(msg_type) is Ok ==> body@.len() == body_len(msg_type)->Ok_0,
    ensures
        match r {
            Ok(message) => message_read(msg_type, body@) == Some(message),
            Err(_) => body_len(msg_type) is Err,
        },
{
    if msg_type == TYPE_REPORT {
        assert(body@.subrange(0, 8) =~= body@);
        Ok(ControlMessage::Report(wire::read_be(body, 0, 8)))
    } else if msg_type == TYPE_HELLO {
        Ok(ControlMessage::Hello)
    } else {
        Err(InvalidMessageType)
    }
}

/// A commit log after a receiver sent this message, or its stream has ended.
pub open spec fn log_told(s: group::LogState, message: Option<ControlMessage>) -> group::LogState {
    match message {
        Some(ControlMessage::Report(k)) => group::log_trimmed(s, k),
        _ => s,
    }
}

/// Law: a report of an epoch between the checkpoint and the newest commit makes it the checkpoint
/// and drops the commits up to it from the window, and nothing else; a greeting or the end of the
/// stream leaves the log as it is.
pub proof fn reports_move_the_checkpoint(s: group::LogState, k: u64)
    requires
        group::log_wf(s),
        s.checkpoint <= k <= s.current_epoch,
    ensures
        ({
            let told = log_told(s, Some(ControlMessage::Report(k)));
            &&& told.checkpoint == k
            &&& told.current_epoch == s.current_epoch
            &&& group::log_window(told) == group::log_window(s).skip(k - s.checkpoint)
        }),
        log_told(s, Some(ControlMessage::Hello)) == s,
        log_told(s, None) == s,
{
    crate::replay::report_trims_what_was_applied(s, k);
}

/// Takes in a message that a receiver sent, or that its stream has ended. A report trims the log,
/// and the end of the stream ends the loop.
pub fn receive_report<G: ExportSecret>(
    commit_log: &mut CommitLog<G>,
    message: Option<ControlMessage>,
) -> (go_on: bool)
    requires
        old(commit_log).inv(),
    ensures
        final(commit_log).inv(),
        go_on == (message is Some),
        match message {
            Some(ControlMessage::Report(k)) => final(commit_log).state() == group::log_trimmed(
                old(commit_log).state(),
                k,
            ) && final(commit_log).group() == old(commit_log).group(),
            _ => *final(commit_log) == *old(commit_log),
        },
        final(commit_log).state() == log_told(old(commit_log).state(), message),
        final(commit_log).group() == old(commit_log).group(),
{
    match message {
        Some(ControlMessage::Report(k)) => {
            commit_log.trim(k);
            true
        },
        Some(ControlMessage::Hello) => true,
        None => false,
    }
}

/// Decides how a sender of reports goes on: it reports the epoch where reporting is switched on,
/// then waits for the next one, and stops once nothing can be written or nothing will change.
pub fn report_step(event: ReportEvent) -> (action: ReportAction)
    ensures
        action == (match event {
            ReportEvent::Epoch(epoch, true) => ReportAction::Write(ControlMessage::Report(epoch)),
            ReportEvent::Epoch(_, false) => ReportAction::AwaitChange,
            ReportEvent::Written(true) => ReportAction::AwaitChange,
            ReportEvent::Changed(true) => ReportAction::ReadEpoch,
            ReportEvent::Written(false) | ReportEvent::Changed(false) => ReportAction::Stop,
        }),
        action == report_next(event),
{
    match event {
        ReportEvent::Epoch(epoch, should_report) => if should_report {
            ReportAction::Write(ControlMessage::Report(epoch))
        } else {
            ReportAction::AwaitChange
        },
        ReportEvent::Written(ok) => if ok {
            ReportAction::AwaitChange
        } else {
            ReportAction::Stop
        },
        ReportEvent::Changed(ok) => if ok {
            ReportAction::ReadEpoch
        } else {
            ReportAction::Stop
        },
    }
}

} // verus!
