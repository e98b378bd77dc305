//! The receiving end of a channel, typed by its messages.

use crate::message::{decode_length_delimited, framed, lemma_frame_round_trip, unframed, Message};
use crate::port::{
    close_outcome, is_unknown_port, InputPortID, Port, PortID, PortResult, PortState, RecvError,
};
use crate::system::System;
use crate::transport::{Received, ReceivedView, Transport};
use std::marker::PhantomData;
use vstd::prelude::*;

verus! {

/// An input port for messages of type `T`. It has one owner.
pub struct InputPort<T> {
    pub id: InputPortID,
    pub _phantom: PhantomData<T>,
}

/// What a typed receive yields.
#[derive(Debug)]
pub enum Incoming<T> {
    /// The oldest message that was waiting.
    Message(T),
    /// Nothing waits, and the channel may still deliver.
    Pending,
    /// Nothing waits, and nothing will come.
    EndOfStream,
}

/// What a typed receive returns for what the transport held at the input.
pub open spec fn decoded<T: Message>(
    got: ReceivedView,
    r: Result<Incoming<T>, RecvError>,
) -> bool {
    match got {
        ReceivedView::Frame(f) => match unframed(f) {
            Some(p) => if T::valid(p) {
                r matches Ok(Incoming::Message(m)) && m.payload() == p
            } else {
                r == Err::<Incoming<T>, RecvError>(RecvError::Decode)
            },
            None => r == Err::<Incoming<T>, RecvError>(RecvError::Decode),
        },
        ReceivedView::Pending => r == Ok::<Incoming<T>, RecvError>(Incoming::Pending),
        ReceivedView::EndOfStream => r == Ok::<Incoming<T>, RecvError>(Incoming::EndOfStream),
    }
}

/// Round trip: a message that was framed and sent is received as a message
/// with the same payload.
pub proof fn lemma_message_round_trip<T: Message>(m: T, r: Result<Incoming<T>, RecvError>)
    requires
        m.payload().len() <= usize::MAX,
        decoded(ReceivedView::Frame(framed(m.payload())), r),
    ensures
        unframed(framed(m.payload())) == Some(m.payload()),
        r matches Ok(Incoming::Message(got)) && got.payload() == m.payload(),
{
    lemma_frame_round_trip(m.payload());
    m.payload_is_valid();
}

impl<T> InputPort<T> {
    /// Opens a fresh input port on the system's transport.
    pub fn new(system: &mut System) -> (p: Self)
        requires
            old(system).wf(),
        ensures
            final(system).wf(),
            p.id.0 == old(system).transport@.inputs.len(),
            final(system).transport@ == old(system).transport@.with_input(),
            final(system).blocks == old(system).blocks,
    {
        let id = system.transport.open_input();
        InputPort { id, _phantom: PhantomData }
    }

    /// Closes the port: `Ok(true)` the first time, `Ok(false)` after. The
    /// frames that wait are discarded, and the connected output is closed.
    pub fn close(&mut self, transport: &mut Transport) -> (r: PortResult<bool>)
        requires
            old(transport).wf(),
        ensures
            final(transport).wf(),
            final(self).id == old(self).id,
            final(transport)@ == old(transport)@.close(PortID::Input(old(self).id)),
            close_outcome(old(transport)@.state(PortID::Input(old(self).id)), r),
    {
        transport.close(PortID::Input(self.id))
    }

    /// Takes the oldest frame that waits and decodes it. The frame is
    /// consumed also where it does not decode.
    pub fn recv(&self, transport: &mut Transport) -> (r: Result<Incoming<T>, RecvError>) where
        T: Message,

        requires
            old(transport).wf(),
        ensures
            final(transport).wf(),
            if old(transport)@.has_input(self.id.0 as int) {
                &&& final(transport)@ == old(transport)@.after_recv(self.id.0 as int)
                &&& decoded(old(transport)@.received(self.id.0 as int), r)
            } else {
                &&& final(transport)@ == old(transport)@
                &&& r matches Err(RecvError::Port(e)) && is_unknown_port(e)
            },
    {
        match transport.recv(self.id) {
            Err(e) => Err(RecvError::Port(e)),
            Ok(Received::Pending) => Ok(Incoming::Pending),
            Ok(Received::EndOfStream) => Ok(Incoming::EndOfStream),
            Ok(Received::Frame(frame)) => match decode_length_delimited(&frame) {
                None => Err(RecvError::Decode),
                Some(payload) => match T::decode(&payload) {
                    None => Err(RecvError::Decode),
                    Some(m) => Ok(Incoming::Message(m)),
                },
            },
        }
    }
}

impl<T> Port for InputPort<T> {
    open spec fn port_id(&self) -> PortID {
        PortID::Input(self.id)
    }

    fn id(&self) -> (r: Option<PortID>) {
        Some(PortID::Input(self.id))
    }

    fn state(&self, transport: &Transport) -> (s: PortState) {
        match transport.state(PortID::Input(self.id)) {
            Ok(s) => s,
            Err(_) => PortState::Closed,
        }
    }

    fn close(&mut self, transport: &mut Transport) -> (r: PortResult<bool>) {
        transport.close(PortID::Input(self.id))
    }
}

} // verus!
