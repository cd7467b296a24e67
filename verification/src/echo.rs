//! Echoing: a server sends back what each stream brings.

use vstd::prelude::*;

verus! {

/// The most bytes that a server reads from a stream.
pub const REQUEST_LIMIT: usize = 1048576;

/// The most bytes that the server of the TLS baseline reads from a stream.
pub const BASELINE_REQUEST_LIMIT: usize = 65536;

/// How many bytes more than the message a client reads of the reply.
pub const REPLY_SLACK: usize = 64;

/// What came of waiting for a stream.
#[derive(Debug, Clone, Copy, PartialEq, Eq, Structural)]
pub enum AcceptEvent {
    /// A stream was opened.
    Opened,
    /// The peer closed the connection.
    ClosedByPeer,
    /// The connection was lost.
    Lost,
}

/// What a server does with a connection next.
#[derive(Debug, Clone, Copy, PartialEq, Eq, Structural)]
pub enum AcceptAction {
    /// Echo the stream, and wait for another one.
    Serve,
    /// Stop, with a warning or without.
    Stop { warn: bool },
}

/// What happened to a stream that is echoed.
#[derive(Debug, PartialEq, Eq)]
pub enum StreamEvent {
    /// It was read to its end.
    Read(Vec<u8>),
    /// It could not be read.
    ReadFailed,
    /// The reply was written.
    Written,
    /// The reply could not be written.
    WriteFailed,
    /// The reply was ended.
    Finished,
    /// The reply could not be ended.
    FinishFailed,
}

/// What a server does with a stream next.
#[derive(Debug, PartialEq, Eq)]
pub enum StreamAction {
    /// Write a reply.
    Write(Vec<u8>),
    /// End the reply.
    Finish,
    /// Stop, with a warning or without.
    Stop { warn: bool },
}

/// What a server does with a connection after an event.
pub open spec fn accept_next(event: AcceptEvent) -> AcceptAction {
    match event {
        AcceptEvent::Opened => AcceptAction::Serve,
        AcceptEvent::ClosedByPeer => AcceptAction::Stop { warn: false },
        AcceptEvent::Lost => AcceptAction::Stop { warn: true },
    }
}

/// What a server does with a stream after an event.
pub open spec fn stream_next(event: StreamEvent) -> StreamAction {
    match event {
        StreamEvent::Read(data) => StreamAction::Write(data),
        StreamEvent::Written => StreamAction::Finish,
        StreamEvent::Finished => StreamAction::Stop { warn: false },
        _ => StreamAction::Stop { warn: true },
    }
}

/// Whether the server of the TLS baseline does this with a stream after an event.
pub open spec fn baseline_stream_goes_on(event: StreamEvent, action: StreamAction) -> bool {
    match event {
        StreamEvent::Read(data) => action == StreamAction::Write(data),
        StreamEvent::ReadFailed => action matches StreamAction::Write(data) && data@.len() == 0,
        StreamEvent::Written | StreamEvent::WriteFailed => action == StreamAction::Finish,
        StreamEvent::Finished | StreamEvent::FinishFailed => action == (StreamAction::Stop {
            warn: false,
        }),
    }
}

/// What the server of the TLS baseline does with a connection after an event.
pub open spec fn baseline_accept_next(event: AcceptEvent) -> AcceptAction {
    match event {
        AcceptEvent::Opened => AcceptAction::Serve,
        _ => AcceptAction::Stop { warn: false },
    }
}

/// Law: the server of the TLS baseline serves every stream until the connection ends, and never
/// warns.
pub proof fn baseline_serves_every_stream(event: AcceptEvent)
    ensures
        baseline_accept_next(event) == AcceptAction::Serve <==> event == AcceptEvent::Opened,
        baseline_accept_next(event) != (AcceptAction::Stop { warn: true }),
{
}

/// Law: every stream is served, and only a connection that is lost, not one that the peer closed,
/// deserves a warning.
pub proof fn every_stream_is_served(event: AcceptEvent)
    ensures
        accept_next(event) == AcceptAction::Serve <==> event == AcceptEvent::Opened,
        accept_next(event) == (AcceptAction::Stop { warn: true }) <==> event == AcceptEvent::Lost,
{
}

/// Law: a server echoes: whatever it read from a stream, of whatever length, it writes back
/// unchanged, and it writes nothing else; it ends the reply once that is written, and warns exactly
/// where a step failed.
pub proof fn server_echoes_what_it_read(event: StreamEvent, data: Vec<u8>)
    ensures
        stream_next(event) == StreamAction::Write(data) <==> event == StreamEvent::Read(data),
        stream_next(event) is Write <==> event is Read,
        stream_next(event) is Finish <==> event is Written,
        stream_next(event) == (StreamAction::Stop { warn: true }) <==> event is ReadFailed || event
            is WriteFailed || event is FinishFailed,
        stream_next(event) == (StreamAction::Stop { warn: false }) <==> event is Finished,
{
}

/// Law: the server of the TLS baseline replies to every stream: with what it read, or with nothing
/// where it could not read; it ends every reply, and never warns.
pub proof fn baseline_server_always_replies(event: StreamEvent, action: StreamAction)
    requires
        baseline_stream_goes_on(event, action),
    ensures
        event matches StreamEvent::Read(data) ==> action == StreamAction::Write(data),
        event is ReadFailed ==> (action matches StreamAction::Write(data) && data@
            =~= Seq::<u8>::empty()),
        action is Write <==> event is Read || event is ReadFailed,
        action is Finish <==> event is Written || event is WriteFailed,
        action != (StreamAction::Stop { warn: true }),
{
}

/// Decides how a server goes on with a connection. Only a lost connection deserves a warning.
pub fn accept_step(event: AcceptEvent) -> (action: AcceptAction)
    ensures
        action == (match event {
            AcceptEvent::Opened => AcceptAction::Serve,
            AcceptEvent::ClosedByPeer => AcceptAction::Stop { warn: false },
            AcceptEvent::Lost => AcceptAction::Stop { warn: true },
        }),
        action == accept_next(event),
{
    match event {
        AcceptEvent::Opened => AcceptAction::Serve,
        AcceptEvent::ClosedByPeer => AcceptAction::Stop { warn: false },
        AcceptEvent::Lost => AcceptAction::Stop { warn: true },
    }
}

/// Decides how a server goes on with a stream: what was read is written back unchanged, then the
/// reply is ended; the first failure ends it with a warning.
pub fn stream_step(event: StreamEvent) -> (action: StreamAction)
    ensures
        match event {
            StreamEvent::Read(data) => action == StreamAction::Write(data),
            StreamEvent::Written => action == StreamAction::Finish,
            StreamEvent::Finished => action == (StreamAction::Stop { warn: false }),
            StreamEvent::ReadFailed | StreamEvent::WriteFailed | StreamEvent::FinishFailed => action
                == (StreamAction::Stop { warn: true }),
        },
        action == stream_next(event),
{
    match event {
        StreamEvent::Read(data) => StreamAction::Write(data),
        StreamEvent::Written => StreamAction::Finish,
        StreamEvent::Finished => StreamAction::Stop { warn: false },
        StreamEvent::ReadFailed | StreamEvent::WriteFailed | StreamEvent::FinishFailed => {
            StreamAction::Stop { warn: true }
        },
    }
}

/// Decides how the server of the TLS baseline goes on with a connection. Whatever ends it deserves
/// no warning.
pub fn baseline_accept_step(event: AcceptEvent) -> (action: AcceptAction)
    ensures
        action == (match event {
            AcceptEvent::Opened => AcceptAction::Serve,
            AcceptEvent::ClosedByPeer | AcceptEvent::Lost => AcceptAction::Stop { warn: false },
        }),
        action == baseline_accept_next(event),
{
    match event {
        AcceptEvent::Opened => AcceptAction::Serve,
        AcceptEvent::ClosedByPeer | AcceptEvent::Lost => AcceptAction::Stop { warn: false },
    }
}

/// Decides how the server of the TLS baseline goes on with a stream: what was read is written back
/// unchanged, or nothing where it could not be read, then the reply is ended, whether or not it
/// could be written.
pub fn baseline_stream_step(event: StreamEvent) -> (action: StreamAction)
    ensures
        match event {
            StreamEvent::Read(data) => action == StreamAction::Write(data),
            StreamEvent::ReadFailed => (action matches StreamAction::Write(data) && data@
                == Seq::<u8>::empty()),
            StreamEvent::Written | StreamEvent::WriteFailed => action == StreamAction::Finish,
            StreamEvent::Finished | StreamEvent::FinishFailed => action == (StreamAction::Stop {
                warn: false,
            }),
        },
        baseline_stream_goes_on(event, action),
{
    match event {
        StreamEvent::Read(data) => StreamAction::Write(data),
        StreamEvent::ReadFailed => StreamAction::Write(Vec::new()),
        StreamEvent::Written | StreamEvent::WriteFailed => StreamAction::Finish,
        StreamEvent::Finished | StreamEvent::FinishFailed => StreamAction::Stop { warn: false },
    }
}

/// How many bytes a client reads of the reply to a message, at most.
pub fn reply_limit(message_len: usize) -> (limit: usize)
    requires
        message_len + REPLY_SLACK <= usize::MAX,
    ensures
        limit == message_len + REPLY_SLACK,
{
    message_len + REPLY_SLACK
}

} // verus!
