//! The sending end of a channel, typed by its messages.

use crate::message::{encode_length_delimited, framed, Message};
use crate::port::{close_outcome, OutputPortID, Port, PortID, PortResult, PortState};
use crate::system::System;
use crate::transport::{send_outcome, Transport};
use std::marker::PhantomData;
use vstd::prelude::*;

verus! {

/// An output port for messages of type `T`. It can be cloned and shared by
/// several producers.
pub struct OutputPort<T> {
    pub id: OutputPortID,
    pub _phantom: PhantomData<T>,
}

impl<T> Clone for OutputPort<T> {
    fn clone(&self) -> (r: Self)
        ensures
            r.id == self.id,
    {
        OutputPort { id: self.id, _phantom: PhantomData }
    }
}

impl<T> OutputPort<T> {
    /// Opens a fresh output port on the system's transport.
    pub fn new(system: &mut System) -> (p: Self)
        requires
            old(system).wf(),
        ensures
            final(system).wf(),
            p.id.0 == old(system).transport@.outputs.len(),
            final(system).transport@ == old(system).transport@.with_output(),
            final(system).blocks == old(system).blocks,
    {
        let id = system.transport.open_output();
        OutputPort { id, _phantom: PhantomData }
    }

    /// Closes the port: `Ok(true)` the first time, `Ok(false)` after. The
    /// connected input is closed with it and keeps the frames that wait.
    pub fn close(&mut self, transport: &mut Transport) -> (r: PortResult<bool>)
        requires
            old(transport).wf(),
        ensures
            final(transport).wf(),
            final(self).id == old(self).id,
            final(transport)@ == old(transport)@.close(PortID::Output(old(self).id)),
            close_outcome(old(transport)@.state(PortID::Output(old(self).id)), r),
    {
        transport.close(PortID::Output(self.id))
    }

    /// Sends a message: its payload, framed by its length, joins the back of
    /// the connected input's queue.
    pub fn send(&self, transport: &mut Transport, message: &T) -> (r: PortResult<()>) where
        T: Message,

        requires
            old(transport).wf(),
        ensures
            final(transport).wf(),
            send_outcome(
                old(transport)@,
                final(transport)@,
                self.id.0 as int,
                framed(message.payload()),
                r,
            ),
    {
        let payload = message.encode();
        let frame = encode_length_delimited(&payload);
        transport.send(self.id, frame)
    }
}

impl<T> Port for OutputPort<T> {
    open spec fn port_id(&self) -> PortID {
        PortID::Output(self.id)
    }

    fn id(&self) -> (r: Option<PortID>) {
        Some(PortID::Output(self.id))
    }

    fn state(&self, transport: &Transport) -> (s: PortState) {
        match transport.state(PortID::Output(self.id)) {
            Ok(s) => s,
            Err(_) => PortState::Closed,
        }
    }

    fn close(&mut self, transport: &mut Transport) -> (r: PortResult<bool>) {
        transport.close(PortID::Output(self.id))
    }
}

} // verus!
