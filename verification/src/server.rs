//! The decisions of a connection handler, which reads newline-delimited JSON
//! messages and forwards the well-formed ones to the processing channel.
use vstd::prelude::*;

verus! {

/// What a connection handler has just observed.
#[derive(Clone, Copy, Debug, PartialEq, Eq, Structural)]
pub enum ConnectionEvent {
    /// A line parsed as a message.
    LineParsed,
    /// A line that is not a valid message.
    LineMalformed,
    /// The message was accepted by the processing channel.
    Forwarded,
    /// The processing channel is closed.
    ChannelClosed,
    /// The client closed its side of the connection.
    InputEnded,
}

/// What the connection handler does next.
#[derive(Clone, Copy, Debug, PartialEq, Eq, Structural)]
pub enum ConnectionAction {
    /// Send the parsed message to the processing channel.
    Forward,
    /// Read the next line (a malformed line is skipped, not fatal).
    ReadNextLine,
    /// Stop handling this connection.
    Close,
}

/// The handler's next step: a parsed line is forwarded, a malformed line is
/// skipped, a forwarded line is followed by the next one, and the handler
/// stops when the channel is closed or the input ends.
pub fn next_action(event: ConnectionEvent) -> (r: ConnectionAction)
    ensures
        r == (match event {
            ConnectionEvent::LineParsed => ConnectionAction::Forward,
            ConnectionEvent::LineMalformed => ConnectionAction::ReadNextLine,
            ConnectionEvent::Forwarded => ConnectionAction::ReadNextLine,
            ConnectionEvent::ChannelClosed => ConnectionAction::Close,
            ConnectionEvent::InputEnded => ConnectionAction::Close,
        }),
{
    match event {
        ConnectionEvent::LineParsed => ConnectionAction::Forward,
        ConnectionEvent::LineMalformed => ConnectionAction::ReadNextLine,
        ConnectionEvent::Forwarded => ConnectionAction::ReadNextLine,
        ConnectionEvent::ChannelClosed => ConnectionAction::Close,
        ConnectionEvent::InputEnded => ConnectionAction::Close,
    }
}

} // verus!
