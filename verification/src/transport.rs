//! The in-process message fabric: a table of ports, the channels that bind
//! them, and one queue of frames per input port.

use crate::port::{unknown_port, is_unknown_port, InputPortID, OutputPortID, PortError, PortID, PortState};
use std::collections::VecDeque;
use vstd::prelude::*;

verus! {

/// What the transport knows of one input port.
pub struct InputView {
    pub state: PortState,
    pub peer: Option<int>,
    pub queue: Seq<Seq<u8>>,
}

/// What the transport knows of one output port.
pub struct OutputView {
    pub state: PortState,
    pub peer: Option<int>,
}

/// The mathematical model of a transport: its ports by index.
pub struct TransportView {
    pub inputs: Seq<InputView>,
    pub outputs: Seq<OutputView>,
}

impl TransportView {
    /// The model of a transport with no ports.
    pub open spec fn empty() -> TransportView {
        TransportView { inputs: Seq::empty(), outputs: Seq::empty() }
    }

    /// Whether the transport knows the input port `i`.
    pub open spec fn has_input(self, i: int) -> bool {
        0 <= i < self.inputs.len()
    }

    /// Whether the transport knows the output port `o`.
    pub open spec fn has_output(self, o: int) -> bool {
        0 <= o < self.outputs.len()
    }

    /// Output `o` is consistent with the input it is bound to.
    pub open spec fn output_ok(self, o: int) -> bool {
        let out = self.outputs[o];
        match out.peer {
            None => out.state != PortState::Connected,
            Some(i) => {
                &&& self.has_input(i)
                &&& self.inputs[i].peer == Some(o)
                &&& out.state != PortState::Open
                &&& (out.state == PortState::Connected <==> self.inputs[i].state
                    == PortState::Connected)
            },
        }
    }

    /// Input `i` is consistent with the output it is bound to.
    pub open spec fn input_ok(self, i: int) -> bool {
        let inp = self.inputs[i];
        match inp.peer {
            None => inp.state != PortState::Connected,
            Some(o) => {
                &&& self.has_output(o)
                &&& self.outputs[o].peer == Some(i)
                &&& inp.state != PortState::Open
            },
        }
    }

    /// Every port is in at most one channel, an open port is in none, and the
    /// two ends of a channel are `Connected` together or not at all.
    pub open spec fn wf(self) -> bool {
        &&& forall|o: int| self.has_output(o) ==> #[trigger] self.output_ok(o)
        &&& forall|i: int| self.has_input(i) ==> #[trigger] self.input_ok(i)
    }

    /// The state of a port, if the transport knows it.
    pub open spec fn state(self, port: PortID) -> Option<PortState> {
        match port {
            PortID::Input(InputPortID(i)) => if self.has_input(i as int) {
                Some(self.inputs[i as int].state)
            } else {
                None
            },
            PortID::Output(OutputPortID(o)) => if self.has_output(o as int) {
                Some(self.outputs[o as int].state)
            } else {
                None
            },
        }
    }

    /// The frames waiting at input `i`, oldest first.
    pub open spec fn queue(self, i: int) -> Seq<Seq<u8>> {
        self.inputs[i].queue
    }

    /// The model after one more input port was opened.
    pub open spec fn with_input(self) -> TransportView {
        TransportView {
            inputs: self.inputs.push(
                InputView { state: PortState::Open, peer: None, queue: Seq::empty() },
            ),
            outputs: self.outputs,
        }
    }

    /// The model after one more output port was opened.
    pub open spec fn with_output(self) -> TransportView {
        TransportView {
            inputs: self.inputs,
            outputs: self.outputs.push(OutputView { state: PortState::Open, peer: None }),
        }
    }

    /// Whether `o` and `i` can be bound: both known, both still `Open`.
    pub open spec fn can_connect(self, o: int, i: int) -> bool {
        &&& self.has_output(o)
        &&& self.has_input(i)
        &&& self.outputs[o].state == PortState::Open
        &&& self.inputs[i].state == PortState::Open
    }

    /// The model after `o` and `i` were bound.
    pub open spec fn connected(self, o: int, i: int) -> TransportView {
        TransportView {
            inputs: self.inputs.update(
                i,
                InputView {
                    state: PortState::Connected,
                    peer: Some(o),
                    queue: self.inputs[i].queue,
                },
            ),
            outputs: self.outputs.update(
                o,
                OutputView { state: PortState::Connected, peer: Some(i) },
            ),
        }
    }

    /// Whether a frame sent on `o` is delivered.
    pub open spec fn can_send(self, o: int) -> bool {
        self.has_output(o) && self.outputs[o].state == PortState::Connected
    }

    /// The model after `frame` was sent on the connected output `o`.
    pub open spec fn sent(self, o: int, frame: Seq<u8>) -> TransportView {
        let i = self.outputs[o].peer->Some_0;
        TransportView {
            inputs: self.inputs.update(
                i,
                InputView {
                    state: self.inputs[i].state,
                    peer: self.inputs[i].peer,
                    queue: self.inputs[i].queue.push(frame),
                },
            ),
            outputs: self.outputs,
        }
    }

    /// The model after the oldest frame waiting at input `i` was taken.
    pub open spec fn taken(self, i: int) -> TransportView {
        TransportView {
            inputs: self.inputs.update(
                i,
                InputView {
                    state: self.inputs[i].state,
                    peer: self.inputs[i].peer,
                    queue: self.inputs[i].queue.drop_first(),
                },
            ),
            outputs: self.outputs,
        }
    }

    /// The model with input `i` marked `Closed`, the frames that wait there
    /// kept or discarded.
    pub open spec fn input_closed(self, i: int, keep: bool) -> TransportView {
        TransportView {
            inputs: self.inputs.update(
                i,
                InputView {
                    state: PortState::Closed,
                    peer: self.inputs[i].peer,
                    queue: if keep {
                        self.inputs[i].queue
                    } else {
                        Seq::empty()
                    },
                },
            ),
            outputs: self.outputs,
        }
    }

    /// The model with output `o` marked `Closed`.
    pub open spec fn output_closed(self, o: int) -> TransportView {
        TransportView {
            inputs: self.inputs,
            outputs: self.outputs.update(
                o,
                OutputView { state: PortState::Closed, peer: self.outputs[o].peer },
            ),
        }
    }

    /// The model after output `o` was closed: its peer input, if any, is
    /// closed with it and keeps the frames that wait there.
    pub open spec fn close_output(self, o: int) -> TransportView {
        match self.outputs[o].peer {
            None => self.output_closed(o),
            Some(i) => self.output_closed(o).input_closed(i, true),
        }
    }

    /// The model after input `i` was closed: the frames that wait there are
    /// discarded, and its peer output, if any, is closed with it.
    pub open spec fn close_input(self, i: int) -> TransportView {
        match self.inputs[i].peer {
            None => self.input_closed(i, false),
            Some(o) => self.input_closed(i, false).output_closed(o),
        }
    }

    /// The model after `port` was closed; unchanged where the port is unknown
    /// or was closed before.
    pub open spec fn close(self, port: PortID) -> TransportView {
        if self.state(port) is None || self.state(port) == Some(PortState::Closed) {
            self
        } else {
            match port {
                PortID::Input(InputPortID(i)) => self.close_input(i as int),
                PortID::Output(OutputPortID(o)) => self.close_output(o as int),
            }
        }
    }

    /// What a receive on input `i` yields in this model.
    pub open spec fn received(self, i: int) -> ReceivedView {
        if self.inputs[i].queue.len() > 0 {
            ReceivedView::Frame(self.inputs[i].queue[0])
        } else if self.inputs[i].state == PortState::Closed {
            ReceivedView::EndOfStream
        } else {
            ReceivedView::Pending
        }
    }

    /// The model after a receive on input `i`.
    pub open spec fn after_recv(self, i: int) -> TransportView {
        if self.inputs[i].queue.len() > 0 {
            self.taken(i)
        } else {
            self
        }
    }
}

/// What a send on output `o` returns and does, from the model `v` before it
/// to the model `w` after it.
pub open spec fn send_outcome(
    v: TransportView,
    w: TransportView,
    o: int,
    frame: Seq<u8>,
    r: Result<(), PortError>,
) -> bool {
    match r {
        Ok(_) => v.can_send(o) && w == v.sent(o, frame),
        Err(e) => {
            &&& !v.can_send(o)
            &&& w == v
            &&& if !v.has_output(o) {
                is_unknown_port(e)
            } else if v.outputs[o].state == PortState::Closed {
                e is Closed
            } else {
                e is Disconnected
            }
        },
    }
}

/// The model of what a receive yields.
pub enum ReceivedView {
    Frame(Seq<u8>),
    Pending,
    EndOfStream,
}

/// What a receive yields.
#[derive(Clone, Debug, PartialEq, Eq)]
pub enum Received {
    /// The oldest frame that was waiting.
    Frame(Vec<u8>),
    /// Nothing waits, and the channel may still deliver.
    Pending,
    /// Nothing waits, and nothing will come.
    EndOfStream,
}

impl View for Received {
    type V = ReceivedView;

    open spec fn view(&self) -> ReceivedView {
        match self {
            Received::Frame(f) => ReceivedView::Frame(f@),
            Received::Pending => ReceivedView::Pending,
            Received::EndOfStream => ReceivedView::EndOfStream,
        }
    }
}

struct InputSlot {
    state: PortState,
    peer: Option<usize>,
    queue: VecDeque<Vec<u8>>,
}

struct OutputSlot {
    state: PortState,
    peer: Option<usize>,
}

spec fn peer_view(p: Option<usize>) -> Option<int> {
    match p {
        None => None,
        Some(x) => Some(x as int),
    }
}

impl InputSlot {
    spec fn model(self) -> InputView {
        InputView {
            state: self.state,
            peer: peer_view(self.peer),
            queue: self.queue@.map_values(|f: Vec<u8>| f@),
        }
    }
}

impl OutputSlot {
    spec fn model(self) -> OutputView {
        OutputView { state: self.state, peer: peer_view(self.peer) }
    }
}

/// The message fabric.
pub struct Transport {
    inputs: Vec<InputSlot>,
    outputs: Vec<OutputSlot>,
}

impl View for Transport {
    type V = TransportView;

    closed spec fn view(&self) -> TransportView {
        TransportView {
            inputs: self.inputs@.map_values(|s: InputSlot| s.model()),
            outputs: self.outputs@.map_values(|s: OutputSlot| s.model()),
        }
    }
}

impl Transport {
    /// The transport's invariant: its model is well formed.
    pub open spec fn wf(&self) -> bool {
        self@.wf()
    }

    /// A transport with no ports.
    pub fn new() -> (t: Transport)
        ensures
            t.wf(),
            t@ == TransportView::empty(),
    {
        let t = Transport { inputs: Vec::new(), outputs: Vec::new() };
        proof {
            assert(t@.inputs =~= Seq::empty());
            assert(t@.outputs =~= Seq::empty());
        }
        t
    }

    /// Allocates a fresh input port in state `Open`.
    pub fn open_input(&mut self) -> (id: InputPortID)
        requires
            old(self).wf(),
        ensures
            final(self).wf(),
            id.0 == old(self)@.inputs.len(),
            final(self)@ == old(self)@.with_input(),
    {
        let id = InputPortID(self.inputs.len());
        self.inputs.push(InputSlot { state: PortState::Open, peer: None, queue: VecDeque::new() });
        proof {
            let n = old(self).inputs@.len() as int;
            assert(self.inputs@[n].model().queue =~= Seq::empty());
            assert(self@.inputs =~= old(self)@.with_input().inputs);
            lemma_with_input_wf(old(self)@);
        }
        id
    }

    /// Allocates a fresh output port in state `Open`.
    pub fn open_output(&mut self) -> (id: OutputPortID)
        requires
            old(self).wf(),
        ensures
            final(self).wf(),
            id.0 == old(self)@.outputs.len(),
            final(self)@ == old(self)@.with_output(),
    {
        let id = OutputPortID(self.outputs.len());
        self.outputs.push(OutputSlot { state: PortState::Open, peer: None });
        proof {
            assert(self@.outputs =~~= old(self)@.with_output().outputs);
            lemma_with_output_wf(old(self)@);
        }
        id
    }

    /// Binds an output port to an input port. Succeeds only where both are
    /// known and still `Open`; otherwise nothing changes.
    pub fn connect(&mut self, out: OutputPortID, inp: InputPortID) -> (r: bool)
        requires
            old(self).wf(),
        ensures
            final(self).wf(),
            r == old(self)@.can_connect(out.0 as int, inp.0 as int),
            final(self)@ == if r {
                old(self)@.connected(out.0 as int, inp.0 as int)
            } else {
                old(self)@
            },
    {
        let o = out.0;
        let i = inp.0;
        if o >= self.outputs.len() || i >= self.inputs.len() {
            return false;
        }
        if !self.outputs[o].state.is_open() || !self.inputs[i].state.is_open() {
            return false;
        }
        self.outputs[o].state = PortState::Connected;
        self.outputs[o].peer = Some(i);
        self.inputs[i].state = PortState::Connected;
        self.inputs[i].peer = Some(o);
        proof {
            let w = old(self)@.connected(o as int, i as int);
            assert(self@.inputs =~= w.inputs);
            assert(self@.outputs =~= w.outputs);
            lemma_connected_wf(old(self)@, o as int, i as int);
        }
        true
    }

    /// Sends a frame on an output port: it joins the back of the queue of the
    /// connected input. Fails, changing nothing, with `Closed` on a closed
    /// port and with `Disconnected` on one that was never connected.
    pub fn send(&mut self, out: OutputPortID, frame: Vec<u8>) -> (r: Result<(), PortError>)
        requires
            old(self).wf(),
        ensures
            final(self).wf(),
            send_outcome(old(self)@, final(self)@, out.0 as int, frame@, r),
    {
        let o = out.0;
        if o >= self.outputs.len() {
            return Err(unknown_port());
        }
        match self.outputs[o].state {
            PortState::Closed => Err(PortError::Closed),
            PortState::Open => Err(PortError::Disconnected),
            PortState::Connected => {
                proof {
                    assert(old(self)@.output_ok(o as int));
                }
                let i = match self.outputs[o].peer {
                    Some(i) => i,
                    None => { return Err(PortError::Disconnected); },
                };
                self.inputs[i].queue.push_back(frame);
                proof {
                    let w = old(self)@.sent(o as int, frame@);
                    assert(self.inputs@[i as int].model().queue =~= w.inputs[i as int].queue);
                    assert(self@.inputs =~= w.inputs);
                    assert(self@.outputs =~= w.outputs);
                    lemma_sent_wf(old(self)@, o as int, frame@);
                }
                Ok(())
            },
        }
    }

    /// Takes the oldest frame that waits at an input port. Where none waits,
    /// says whether the stream has ended or may still deliver.
    pub fn recv(&mut self, inp: InputPortID) -> (r: Result<Received, PortError>)
        requires
            old(self).wf(),
        ensures
            final(self).wf(),
            match r {
                Ok(x) => {
                    &&& old(self)@.has_input(inp.0 as int)
                    &&& x@ == old(self)@.received(inp.0 as int)
                    &&& final(self)@ == old(self)@.after_recv(inp.0 as int)
                },
                Err(e) => {
                    &&& !old(self)@.has_input(inp.0 as int)
                    &&& is_unknown_port(e)
                    &&& final(self)@ == old(self)@
                },
            },
    {
        let i = inp.0;
        if i >= self.inputs.len() {
            return Err(unknown_port());
        }
        match self.inputs[i].queue.pop_front() {
            Some(frame) => {
                proof {
                    let w = old(self)@.taken(i as int);
                    assert(self.inputs@[i as int].model().queue =~= w.inputs[i as int].queue);
                    assert(self@.inputs =~= w.inputs);
                    assert(self@.outputs =~= w.outputs);
                    lemma_taken_wf(old(self)@, i as int);
                }
                Ok(Received::Frame(frame))
            },
            None => {
                proof {
                    assert(self.inputs@[i as int].model() == old(self).inputs@[i as int].model());
                    assert(self@.inputs =~= old(self)@.inputs);
                    assert(self@.outputs =~= old(self)@.outputs);
                }
                if self.inputs[i].state.is_closed() {
                    Ok(Received::EndOfStream)
                } else {
                    Ok(Received::Pending)
                }
            },
        }
    }

    /// Closes a port. The first close of a known port returns `true`, every
    /// later one `false`. The peer of a connected port is closed with it; an
    /// input that is closed itself loses the frames that wait there.
    pub fn close(&mut self, port: PortID) -> (r: Result<bool, PortError>)
        requires
            old(self).wf(),
        ensures
            final(self).wf(),
            final(self)@ == old(self)@.close(port),
            match r {
                Ok(b) => old(self)@.state(port) is Some && b == (old(self)@.state(port) != Some(
                    PortState::Closed,
                )),
                Err(e) => old(self)@.state(port) is None && is_unknown_port(e),
            },
    {
        match port {
            PortID::Input(InputPortID(i)) => {
                if i >= self.inputs.len() {
                    return Err(unknown_port());
                }
                if self.inputs[i].state.is_closed() {
                    return Ok(false);
                }
                proof {
                    assert(old(self)@.input_ok(i as int));
                }
                self.inputs[i].state = PortState::Closed;
                self.inputs[i].queue.clear();
                match self.inputs[i].peer {
                    Some(o) => {
                        self.outputs[o].state = PortState::Closed;
                    },
                    None => {},
                }
                proof {
                    let w = old(self)@.close_input(i as int);
                    assert(self.inputs@[i as int].model().queue =~= w.inputs[i as int].queue);
                    assert(self@.inputs =~= w.inputs);
                    assert(self@.outputs =~= w.outputs);
                    lemma_close_input_wf(old(self)@, i as int);
                }
                Ok(true)
            },
            PortID::Output(OutputPortID(o)) => {
                if o >= self.outputs.len() {
                    return Err(unknown_port());
                }
                if self.outputs[o].state.is_closed() {
                    return Ok(false);
                }
                proof {
                    assert(old(self)@.output_ok(o as int));
                }
                self.outputs[o].state = PortState::Closed;
                match self.outputs[o].peer {
                    Some(i) => {
                        self.inputs[i].state = PortState::Closed;
                    },
                    None => {},
                }
                proof {
                    let w = old(self)@.close_output(o as int);
                    assert(self@.inputs =~= w.inputs);
                    assert(self@.outputs =~= w.outputs);
                    lemma_close_output_wf(old(self)@, o as int);
                }
                Ok(true)
            },
        }
    }

    /// How many input ports the transport has handed out.
    pub fn input_count(&self) -> (n: usize)
        ensures
            n == self@.inputs.len(),
    {
        self.inputs.len()
    }

    /// How many output ports the transport has handed out.
    pub fn output_count(&self) -> (n: usize)
        ensures
            n == self@.outputs.len(),
    {
        self.outputs.len()
    }

    /// The state of a port.
    pub fn state(&self, port: PortID) -> (r: Result<PortState, PortError>)
        ensures
            match r {
                Ok(s) => self@.state(port) == Some(s),
                Err(e) => self@.state(port) is None && is_unknown_port(e),
            },
    {
        match port {
            PortID::Input(InputPortID(i)) => {
                if i >= self.inputs.len() {
                    return Err(unknown_port());
                }
                Ok(self.inputs[i].state)
            },
            PortID::Output(OutputPortID(o)) => {
                if o >= self.outputs.len() {
                    return Err(unknown_port());
                }
                Ok(self.outputs[o].state)
            },
        }
    }

}

/// Binding two open ports keeps the model well formed.
pub proof fn lemma_connected_wf(v: TransportView, o: int, i: int)
    requires
        v.wf(),
        v.can_connect(o, i),
    ensures
        v.connected(o, i).wf(),
{
    let w = v.connected(o, i);
    assert(v.output_ok(o));
    assert(v.input_ok(i));
    assert forall|o2: int| w.has_output(o2) implies #[trigger] w.output_ok(o2) by {
        assert(v.output_ok(o2));
    }
    assert forall|i2: int| w.has_input(i2) implies #[trigger] w.input_ok(i2) by {
        assert(v.input_ok(i2));
    }
}

/// Sending on a connected output keeps the model well formed.
pub proof fn lemma_sent_wf(v: TransportView, o: int, frame: Seq<u8>)
    requires
        v.wf(),
        v.can_send(o),
    ensures
        v.sent(o, frame).wf(),
{
    let w = v.sent(o, frame);
    assert(v.output_ok(o));
    assert forall|o2: int| w.has_output(o2) implies #[trigger] w.output_ok(o2) by {
        assert(v.output_ok(o2));
    }
    assert forall|i2: int| w.has_input(i2) implies #[trigger] w.input_ok(i2) by {
        assert(v.input_ok(i2));
    }
}

/// Taking a frame keeps the model well formed.
pub proof fn lemma_taken_wf(v: TransportView, i: int)
    requires
        v.wf(),
        v.has_input(i),
    ensures
        v.taken(i).wf(),
{
    let w = v.taken(i);
    assert forall|o2: int| w.has_output(o2) implies #[trigger] w.output_ok(o2) by {
        assert(v.output_ok(o2));
    }
    assert forall|i2: int| w.has_input(i2) implies #[trigger] w.input_ok(i2) by {
        assert(v.input_ok(i2));
    }
}

/// Closing an input keeps the model well formed.
pub proof fn lemma_close_input_wf(v: TransportView, i: int)
    requires
        v.wf(),
        v.has_input(i),
    ensures
        v.close_input(i).wf(),
{
    let w = v.close_input(i);
    assert(v.input_ok(i));
    assert forall|o2: int| w.has_output(o2) implies #[trigger] w.output_ok(o2) by {
        assert(v.output_ok(o2));
    }
    assert forall|i2: int| w.has_input(i2) implies #[trigger] w.input_ok(i2) by {
        assert(v.input_ok(i2));
    }
}

/// Closing an output keeps the model well formed.
pub proof fn lemma_close_output_wf(v: TransportView, o: int)
    requires
        v.wf(),
        v.has_output(o),
    ensures
        v.close_output(o).wf(),
{
    let w = v.close_output(o);
    assert(v.output_ok(o));
    assert forall|o2: int| w.has_output(o2) implies #[trigger] w.output_ok(o2) by {
        assert(v.output_ok(o2));
    }
    assert forall|i2: int| w.has_input(i2) implies #[trigger] w.input_ok(i2) by {
        assert(v.input_ok(i2));
    }
}

/// Opening an input port keeps the model well formed.
pub proof fn lemma_with_input_wf(v: TransportView)
    requires
        v.wf(),
    ensures
        v.with_input().wf(),
{
    let w = v.with_input();
    assert forall|o: int| w.has_output(o) implies #[trigger] w.output_ok(o) by {
        assert(v.output_ok(o));
    }
    assert forall|i: int| w.has_input(i) implies #[trigger] w.input_ok(i) by {
        if i < v.inputs.len() {
            assert(v.input_ok(i));
        }
    }
}

/// Opening an output port keeps the model well formed.
pub proof fn lemma_with_output_wf(v: TransportView)
    requires
        v.wf(),
    ensures
        v.with_output().wf(),
{
    let w = v.with_output();
    assert forall|o: int| w.has_output(o) implies #[trigger] w.output_ok(o) by {
        if o < v.outputs.len() {
            assert(v.output_ok(o));
        }
    }
    assert forall|i: int| w.has_input(i) implies #[trigger] w.input_ok(i) by {
        assert(v.input_ok(i));
    }
}

} // verus!
