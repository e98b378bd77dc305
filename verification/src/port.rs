//! Port identifiers, port states and port errors.

use crate::transport::Transport;
use vstd::prelude::*;

verus! {

/// The lifecycle state of a port.
#[derive(Clone, Copy, Debug, PartialEq, Eq, Structural)]
pub enum PortState {
    /// Allocated, not yet bound to a peer.
    Open,
    /// Bound to a peer; frames may flow.
    Connected,
    /// Terminal.
    Closed,
}

impl PortState {
    /// Whether the state is `Closed`.
    pub fn is_closed(&self) -> (r: bool)
        ensures
            r == (*self == PortState::Closed),
    {
        matches!(self, PortState::Closed)
    }

    /// Whether the state is `Open`.
    pub fn is_open(&self) -> (r: bool)
        ensures
            r == (*self == PortState::Open),
    {
        matches!(self, PortState::Open)
    }

    /// Whether the state is `Connected`.
    pub fn is_connected(&self) -> (r: bool)
        ensures
            r == (*self == PortState::Connected),
    {
        matches!(self, PortState::Connected)
    }
}

/// Identifies an input port within one transport.
#[derive(Clone, Copy, Debug, PartialEq, Eq, Structural)]
pub struct InputPortID(pub usize);

/// Identifies an output port within one transport.
#[derive(Clone, Copy, Debug, PartialEq, Eq, Structural)]
pub struct OutputPortID(pub usize);

/// A port identifier tagged with its direction.
#[derive(Clone, Copy, Debug, PartialEq, Eq, Structural)]
pub enum PortID {
    Input(InputPortID),
    Output(OutputPortID),
}

/// Why a port operation failed.
#[derive(Clone, Debug, PartialEq, Eq)]
pub enum PortError {
    /// The port is not connected to a peer.
    Disconnected,
    /// The port, or its peer, has been closed.
    Closed,
    /// Any other failure, with a message.
    Other(String),
}

/// Why a typed receive failed.
#[derive(Clone, Debug, PartialEq, Eq)]
pub enum RecvError {
    /// The transport refused the operation.
    Port(PortError),
    /// The frame received is no valid encoding of the message type.
    Decode,
}

/// The result of a port operation.
pub type PortResult<T> = Result<T, PortError>;

/// Holds of the error reported for an identifier that the transport never
/// handed out.
pub open spec fn is_unknown_port(e: PortError) -> bool {
    e matches PortError::Other(m) && m@ == "unknown port"@
}

/// The error reported for an identifier that the transport never handed out.
pub fn unknown_port() -> (e: PortError)
    ensures
        is_unknown_port(e),
{
    PortError::Other("unknown port".to_owned())
}

/// The state that a port is taken to have: the one the transport reports,
/// and `Closed` for a port that the transport does not know.
pub open spec fn state_or_closed(s: Option<PortState>) -> PortState {
    match s {
        Some(st) => st,
        None => PortState::Closed,
    }
}

/// What input and output ports have in common.
pub trait Port {
    /// The identifier of this port.
    spec fn port_id(&self) -> PortID;

    /// The identifier of this port.
    fn id(&self) -> (r: Option<PortID>)
        ensures
            r == Some(self.port_id()),
    ;

    /// The state of this port on `transport`; `Closed` where the transport
    /// does not know the port.
    fn state(&self, transport: &Transport) -> (s: PortState)
        ensures
            s == state_or_closed(transport@.state(self.port_id())),
    ;

    /// The machine-readable name of this port, if it has one.
    fn name(&self) -> (r: Option<&str>)
        ensures
            r is None,
    {
        None
    }

    /// A label for people to read, if the port has one.
    fn label(&self) -> (r: Option<&str>)
        ensures
            r is None,
    {
        None
    }

    /// Whether this port is closed.
    fn is_closed(&self, transport: &Transport) -> (r: bool)
        ensures
            r == (state_or_closed(transport@.state(self.port_id())) == PortState::Closed),
    {
        self.state(transport).is_closed()
    }

    /// Whether this port is open and not yet connected.
    fn is_open(&self, transport: &Transport) -> (r: bool)
        ensures
            r == (state_or_closed(transport@.state(self.port_id())) == PortState::Open),
    {
        self.state(transport).is_open()
    }

    /// Whether this port is connected.
    fn is_connected(&self, transport: &Transport) -> (r: bool)
        ensures
            r == (state_or_closed(transport@.state(self.port_id())) == PortState::Connected),
    {
        self.state(transport).is_connected()
    }

    /// Closes this port: `Ok(true)` the first time, `Ok(false)` where it was
    /// closed before.
    fn close(&mut self, transport: &mut Transport) -> (r: PortResult<bool>)
        requires
            old(transport).wf(),
        ensures
            final(transport).wf(),
            final(self).port_id() == old(self).port_id(),
            final(transport)@ == old(transport)@.close(old(self).port_id()),
            close_outcome(old(transport)@.state(old(self).port_id()), r),
    ;
}

/// What a close returns, given the state that the port had.
pub open spec fn close_outcome(before: Option<PortState>, r: PortResult<bool>) -> bool {
    match r {
        Ok(b) => before is Some && b == (before != Some(PortState::Closed)),
        Err(e) => before is None && is_unknown_port(e),
    }
}

} // verus!
