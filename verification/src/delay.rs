//! A block that passes messages through, each after a fixed or a random
//! wait.

use crate::block::{
    describes, Block, BlockDescriptor, BlockError, BlockResult, PortDescriptor,
};
use crate::input_port::{Incoming, InputPort};
use crate::message::{framed, Message};
use crate::output_port::OutputPort;
use crate::port::{is_unknown_port, InputPortID, OutputPortID, Port, PortID, PortState, RecvError};
use crate::stdio::{chain, Encoding, Stage, StageKind, StdioError};
use crate::system::System;
use crate::time::Duration;
use crate::transport::{send_outcome, ReceivedView, Transport};
use std::ops::Range;
use vstd::prelude::*;

verus! {

/// How long a message is held back.
#[derive(Debug, PartialEq, Eq)]
pub enum DelayType {
    /// Always this long.
    Fixed(Duration),
    /// A span drawn from this range: at least its start, less than its end.
    Random(Range<Duration>),
}

impl Clone for DelayType {
    fn clone(&self) -> (r: Self)
        ensures
            r == *self,
    {
        match self {
            DelayType::Fixed(d) => DelayType::Fixed(*d),
            DelayType::Random(range) => DelayType::Random(
                Range { start: range.start, end: range.end },
            ),
        }
    }
}

impl DelayType {
    /// The wait for one message, given a span drawn for it: the fixed span,
    /// or the drawn one where it lies in the range, else the range's start.
    pub open spec fn resolved(self, drawn: Duration) -> Duration {
        match self {
            DelayType::Fixed(d) => d,
            DelayType::Random(range) => if drawn.within(range) {
                drawn
            } else {
                range.start
            },
        }
    }

    /// The wait for one message, given a span drawn for it.
    pub fn resolve(&self, drawn: Duration) -> (d: Duration)
        ensures
            d == self.resolved(drawn),
            match *self {
                DelayType::Random(range) => range.start.nanos < range.end.nanos ==> d.within(
                    range,
                ),
                DelayType::Fixed(_) => true,
            },
    {
        match self {
            DelayType::Fixed(d) => *d,
            DelayType::Random(range) => if drawn.is_within(range) {
                drawn
            } else {
                range.start
            },
        }
    }
}

/// A block that forwards every message from its input to its output after a
/// wait.
pub struct Delay<T> {
    /// The input message stream.
    pub input: InputPort<T>,
    /// The output target for the stream being passed through.
    pub output: OutputPort<T>,
    /// Which wait to add.
    pub delay: DelayType,
}

/// What one turn of a delay block's loop came to.
#[derive(Debug)]
pub enum DelayStep<T> {
    /// A message was taken and must be forwarded after the block's wait.
    Hold(T),
    /// A message was taken and discarded: the output is not connected.
    Dropped,
    /// No message waits yet.
    Idle,
    /// The input has ended: the block is done.
    Done,
}

impl<T> Delay<T> {
    /// A delay block that waits one second for each message.
    pub fn new(input: InputPort<T>, output: OutputPort<T>) -> (b: Self)
        ensures
            b.input == input,
            b.output == output,
            b.delay == DelayType::Fixed(Duration { nanos: 1_000_000_000 }),
    {
        Self::with_params(input, output, DelayType::Fixed(Duration::from_secs(1)))
    }

    /// A delay block with the given wait.
    pub fn with_params(input: InputPort<T>, output: OutputPort<T>, delay: DelayType) -> (b: Self)
        ensures
            b.input == input,
            b.output == output,
            b.delay == delay,
    {
        Self { input, output, delay }
    }

    /// Takes the next message from the input and decides what becomes of it.
    /// A message that arrives while the output is not connected is discarded
    /// at once, with no wait; any other is handed back to be forwarded after
    /// the wait.
    pub fn step(&self, transport: &mut Transport) -> (r: BlockResult<DelayStep<T>>) where
        T: Message,

        requires
            old(transport).wf(),
        ensures
            final(transport).wf(),
            step_outcome(
                old(transport)@.state(PortID::Input(self.input.id)) is Some,
                old(transport)@.received(self.input.id.0 as int),
                old(transport)@.after_recv(self.input.id.0 as int).state(
                    PortID::Output(self.output.id),
                ) == Some(PortState::Connected),
                r,
            ),
            final(transport)@ == if old(transport)@.has_input(self.input.id.0 as int) {
                old(transport)@.after_recv(self.input.id.0 as int)
            } else {
                old(transport)@
            },
    {
        match self.input.recv(transport) {
            Err(RecvError::Port(e)) => Err(BlockError::Port(e)),
            Err(RecvError::Decode) => Err(BlockError::Decode),
            Ok(Incoming::EndOfStream) => Ok(DelayStep::Done),
            Ok(Incoming::Pending) => Ok(DelayStep::Idle),
            Ok(Incoming::Message(message)) => {
                if !self.output.is_connected(transport) {
                    Ok(DelayStep::Dropped)
                } else {
                    Ok(DelayStep::Hold(message))
                }
            },
        }
    }

    /// Forwards a message that was held back, once its wait is over.
    pub fn forward(&self, transport: &mut Transport, message: &T) -> (r: BlockResult<()>) where
        T: Message,

        requires
            old(transport).wf(),
        ensures
            final(transport).wf(),
            match r {
                Ok(_) => send_outcome(
                    old(transport)@,
                    final(transport)@,
                    self.output.id.0 as int,
                    framed(message.payload()),
                    Ok(()),
                ),
                Err(e) => e matches BlockError::Port(pe) && send_outcome(
                    old(transport)@,
                    final(transport)@,
                    self.output.id.0 as int,
                    framed(message.payload()),
                    Err(pe),
                ),
            },
    {
        match self.output.send(transport, message) {
            Ok(_) => Ok(()),
            Err(e) => Err(BlockError::Port(e)),
        }
    }
}

/// A delay block set up as a filter: standard input, a decoder, the delay
/// block, an encoder and standard output, each connected to the next.
pub struct DelayPipeline<T> {
    pub system: System,
    pub stdin: Stage,
    pub decoder: Stage,
    pub delayer: Delay<T>,
    pub encoder: Stage,
    pub stdout: Stage,
}

/// Whether `p` is the filter pipeline for the given encoding and wait: four
/// channels in a row, and five blocks registered in the order of the flow.
pub open spec fn pipeline_built<T>(p: DelayPipeline<T>, encoding: Encoding, delay: DelayType) -> bool {
    &&& p.system.wf()
    &&& p.system.transport@ == chain(4)
    &&& p.system.blocks@.len() == 5
    &&& p.stdin == (Stage {
        kind: StageKind::ReadStdin,
        input: None,
        output: Some(OutputPortID(0)),
    })
    &&& p.decoder == (Stage {
        kind: StageKind::Decode(encoding),
        input: Some(InputPortID(0)),
        output: Some(OutputPortID(1)),
    })
    &&& p.delayer.input.id == InputPortID(1)
    &&& p.delayer.output.id == OutputPortID(2)
    &&& p.delayer.delay == delay
    &&& p.encoder == (Stage {
        kind: StageKind::Encode(encoding),
        input: Some(InputPortID(2)),
        output: Some(OutputPortID(3)),
    })
    &&& p.stdout == (Stage {
        kind: StageKind::WriteStdout,
        input: Some(InputPortID(3)),
        output: None,
    })
    &&& describes(p.system.blocks@[0], &p.stdin)
    &&& describes(p.system.blocks@[1], &p.decoder)
    &&& describes(p.system.blocks@[2], &p.delayer)
    &&& describes(p.system.blocks@[3], &p.encoder)
    &&& describes(p.system.blocks@[4], &p.stdout)
}

/// What is wrong with the parameters of a filter: the name of the one that
/// cannot be read, or of the one that is missing.
pub enum ParamFault {
    Invalid(Seq<char>),
    Missing(Seq<char>),
}

/// The wait that the parameters `fixed` and `random` ask for.
pub open spec fn delay_from_params(
    fixed: Option<Result<Duration, ()>>,
    random: Option<Result<Range<Duration>, ()>>,
) -> Result<DelayType, ParamFault> {
    match fixed {
        Some(Ok(d)) => Ok(DelayType::Fixed(d)),
        Some(Err(_)) => Err(ParamFault::Invalid("fixed"@)),
        None => match random {
            Some(Ok(range)) => Ok(DelayType::Random(range)),
            Some(Err(_)) => Err(ParamFault::Invalid("random"@)),
            None => Err(ParamFault::Missing("fixed"@)),
        },
    }
}

/// Opens an output port and an input port and binds them.
pub fn link<M>(system: &mut System) -> (r: (OutputPort<M>, InputPort<M>))
    requires
        old(system).wf(),
    ensures
        final(system).wf(),
        r.0.id.0 == old(system).transport@.outputs.len(),
        r.1.id.0 == old(system).transport@.inputs.len(),
        final(system).transport@ == old(system).transport@.with_output().with_input().connected(
            old(system).transport@.outputs.len() as int,
            old(system).transport@.inputs.len() as int,
        ),
        final(system).blocks == old(system).blocks,
{
    let source: OutputPort<M> = system.output();
    let target: InputPort<M> = system.input();
    let bound = system.connect(&source, &target);
    assert(bound);
    (source, target)
}

impl<T> Delay<T> {
    /// Sets a delay block up as a filter between standard input and standard
    /// output. `fixed` and `random` are the values of the parameters of
    /// these names: absent, given but unreadable, or what they name. Where
    /// `fixed` is given, `random` is not looked at.
    pub fn build_system(
        encoding: Encoding,
        fixed: Option<Result<Duration, ()>>,
        random: Option<Result<Range<Duration>, ()>>,
    ) -> (r: Result<DelayPipeline<T>, StdioError>)
        ensures
            match delay_from_params(fixed, random) {
                Ok(delay) => r matches Ok(p) && pipeline_built(p, encoding, delay),
                Err(ParamFault::Invalid(name)) => r matches Err(StdioError::InvalidParameter(n))
                    && n@ == name,
                Err(ParamFault::Missing(name)) => r matches Err(StdioError::MissingParameter(n))
                    && n@ == name,
            },
    {
        let delay = match fixed {
            Some(Ok(d)) => DelayType::Fixed(d),
            Some(Err(_)) => { return Err(StdioError::InvalidParameter("fixed".to_owned())); },
            None => match random {
                Some(Ok(range)) => DelayType::Random(range),
                Some(Err(_)) => { return Err(StdioError::InvalidParameter("random".to_owned())); },
                None => { return Err(StdioError::MissingParameter("fixed".to_owned())); },
            },
        };
        proof {
            reveal_with_fuel(chain, 5);
        }
        let mut system = System::new();
        let (raw_out, raw_in) = link::<Vec<u8>>(&mut system);
        assert(system.transport@ == chain(1));
        let (decoded_out, delay_in) = link::<T>(&mut system);
        assert(system.transport@ == chain(2));
        let (delay_out, encoder_in) = link::<T>(&mut system);
        assert(system.transport@ == chain(3));
        let (encoded_out, stdout_in) = link::<Vec<u8>>(&mut system);
        assert(system.transport@ == chain(4));
        let stdin = system.block(
            Stage { kind: StageKind::ReadStdin, input: None, output: Some(raw_out.id) },
        );
        let ghost b1 = system.blocks@;
        let decoder = system.block(
            Stage {
                kind: StageKind::Decode(encoding),
                input: Some(raw_in.id),
                output: Some(decoded_out.id),
            },
        );
        let ghost b2 = system.blocks@;
        let delayer = system.block(Delay::with_params(delay_in, delay_out, delay));
        let ghost b3 = system.blocks@;
        let encoder = system.block(
            Stage {
                kind: StageKind::Encode(encoding),
                input: Some(encoder_in.id),
                output: Some(encoded_out.id),
            },
        );
        let ghost b4 = system.blocks@;
        let stdout = system.block(
            Stage { kind: StageKind::WriteStdout, input: Some(stdout_in.id), output: None },
        );
        proof {
            let b5 = system.blocks@;
            assert(b5.drop_last() == b4 && b4.drop_last() == b3 && b3.drop_last() == b2
                && b2.drop_last() == b1);
            assert(b5[3] == b4[3] && b4[3] == b4.last());
            assert(b5[2] == b4[2] && b4[2] == b3[2] && b3[2] == b3.last());
            assert(b5[1] == b4[1] && b4[1] == b3[1] && b3[1] == b2[1] && b2[1] == b2.last());
            assert(b5[0] == b4[0] && b4[0] == b3[0] && b3[0] == b2[0] && b2[0] == b1[0] && b1[0]
                == b1.last());
            assert(b5[4] == b5.last());
        }
        Ok(DelayPipeline { system, stdin, decoder, delayer, encoder, stdout })
    }
}

/// What a turn of a delay block returns: `known` says whether the transport
/// knows the input, `got` what the transport held there, and `connected`
/// whether the output is connected when the message has been taken.
pub open spec fn step_outcome<T: Message>(
    known: bool,
    got: ReceivedView,
    connected: bool,
    r: BlockResult<DelayStep<T>>,
) -> bool {
    if !known {
        r matches Err(BlockError::Port(e)) && is_unknown_port(e)
    } else {
        match got {
            ReceivedView::Pending => r matches Ok(DelayStep::Idle),
            ReceivedView::EndOfStream => r matches Ok(DelayStep::Done),
            ReceivedView::Frame(f) => match crate::message::unframed(f) {
                Some(p) => if !T::valid(p) {
                    r matches Err(BlockError::Decode)
                } else if connected {
                    r matches Ok(DelayStep::Hold(m)) && m.payload() == p
                } else {
                    r matches Ok(DelayStep::Dropped)
                },
                None => r matches Err(BlockError::Decode),
            },
        }
    }
}

impl<T> Block for Delay<T> {
    open spec fn input_ids(&self) -> Seq<InputPortID> {
        seq![self.input.id]
    }

    open spec fn output_ids(&self) -> Seq<OutputPortID> {
        seq![self.output.id]
    }

    open spec fn input_names(&self) -> Seq<Seq<char>> {
        seq!["input"@]
    }

    open spec fn output_names(&self) -> Seq<Seq<char>> {
        seq!["output"@]
    }

    fn descriptor(&self) -> (d: BlockDescriptor) {
        let mut inputs: Vec<PortDescriptor> = Vec::new();
        inputs.push(PortDescriptor { name: "input".to_owned(), id: PortID::Input(self.input.id) });
        let mut outputs: Vec<PortDescriptor> = Vec::new();
        outputs.push(
            PortDescriptor { name: "output".to_owned(), id: PortID::Output(self.output.id) },
        );
        let d = BlockDescriptor { inputs, outputs };
        proof {
            assert(d.input_ids() =~= self.input_ids().map_values(|i: InputPortID| PortID::Input(i)));
            assert(d.output_ids() =~= self.output_ids().map_values(
                |o: OutputPortID| PortID::Output(o),
            ));
            assert(d.input_names() =~= self.input_names());
            assert(d.output_names() =~= self.output_names());
        }
        d
    }
}

} // verus!
