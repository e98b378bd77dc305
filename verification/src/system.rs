//! The system builder: ports, blocks and connections, gathered before the
//! system is run.

use crate::block::{describes, Block, BlockDescriptor};
use crate::input_port::InputPort;
use crate::output_port::OutputPort;
use crate::process::Process;
use crate::transport::{Transport, TransportView};
use vstd::prelude::*;

verus! {

/// A collection of blocks and the transport that connects their ports.
pub struct System {
    pub transport: Transport,
    pub blocks: Vec<BlockDescriptor>,
}

/// Building a system: opening ports, registering blocks, binding ports.
pub trait SystemBuilding: Sized {
    /// The model of the transport that the ports live on.
    spec fn fabric(&self) -> TransportView;

    /// The descriptors of the registered blocks, in the order of arrival.
    spec fn registered(&self) -> Seq<BlockDescriptor>;

    /// The builder's invariant.
    spec fn valid(&self) -> bool;

    /// Opens a new input port inside the system.
    fn input<M>(&mut self) -> (p: InputPort<M>)
        requires
            old(self).valid(),
        ensures
            final(self).valid(),
            p.id.0 == old(self).fabric().inputs.len(),
            final(self).fabric() == old(self).fabric().with_input(),
            final(self).registered() == old(self).registered(),
    ;

    /// Opens a new output port inside the system.
    fn output<M>(&mut self) -> (p: OutputPort<M>)
        requires
            old(self).valid(),
        ensures
            final(self).valid(),
            p.id.0 == old(self).fabric().outputs.len(),
            final(self).fabric() == old(self).fabric().with_output(),
            final(self).registered() == old(self).registered(),
    ;

    /// Registers a block, after those registered before, and hands it back.
    fn block<B: Block>(&mut self, block: B) -> (b: B)
        requires
            old(self).valid(),
        ensures
            final(self).valid(),
            b == block,
            final(self).fabric() == old(self).fabric(),
            final(self).registered().len() == old(self).registered().len() + 1,
            final(self).registered().drop_last() == old(self).registered(),
            describes(final(self).registered().last(), &block),
    ;

    /// Binds an output port to an input port for the same message type.
    /// Succeeds only where both are known and still open.
    fn connect<M>(&mut self, source: &OutputPort<M>, target: &InputPort<M>) -> (r: bool)
        requires
            old(self).valid(),
        ensures
            final(self).valid(),
            r == old(self).fabric().can_connect(source.id.0 as int, target.id.0 as int),
            final(self).fabric() == if r {
                old(self).fabric().connected(source.id.0 as int, target.id.0 as int)
            } else {
                old(self).fabric()
            },
            final(self).registered() == old(self).registered(),
    ;
}

/// Running a system.
pub trait SystemExecution: Sized {
    /// The model of the transport before the run.
    spec fn fabric_before(&self) -> TransportView;

    /// The descriptors of the blocks to run.
    spec fn blocks_before(&self) -> Seq<BlockDescriptor>;

    /// The invariant of what is run.
    spec fn ready(&self) -> bool;

    /// Starts the run: the ports, channels and blocks are as they were
    /// built, and no block has ended.
    fn execute(self) -> (p: Process)
        requires
            self.ready(),
        ensures
            p.wf(),
            p.transport@ == self.fabric_before(),
            p.blocks@ == self.blocks_before(),
            forall|b: int| 0 <= b < p.done@.len() ==> !p.done@[b],
    ;
}

impl System {
    /// The system's invariant: that of its transport.
    pub open spec fn wf(&self) -> bool {
        self.transport.wf()
    }

    /// Whether the system holds no port and no block.
    pub open spec fn is_empty(&self) -> bool {
        &&& self.wf()
        &&& self.transport@ == TransportView::empty()
        &&& self.blocks@.len() == 0
    }

    /// An empty system: no ports, no blocks.
    pub fn new() -> (s: System)
        ensures
            s.is_empty(),
    {
        System { transport: Transport::new(), blocks: Vec::new() }
    }

    /// Builds a system: `f` is handed an empty system and returns it filled.
    pub fn build<F: FnOnce(System) -> System>(f: F) -> (s: System)
        requires
            forall|s0: System| s0.is_empty() ==> call_requires(f, (s0,)),
        ensures
            exists|s0: System| s0.is_empty() && call_ensures(f, (s0,), s),
    {
        let system = System::new();
        f(system)
    }

    /// Starts the run. The system is given up: nothing can be added to it
    /// any more. No block has ended yet.
    pub fn execute(self) -> (p: Process)
        requires
            self.wf(),
        ensures
            p.wf(),
            p.transport@ == self.transport@,
            p.blocks@ == self.blocks@,
            p.done@.len() == p.blocks@.len(),
            forall|b: int| 0 <= b < p.done@.len() ==> !p.done@[b],
    {
        let mut done: Vec<bool> = Vec::new();
        let mut k: usize = 0;
        while k < self.blocks.len()
            invariant
                k <= self.blocks.len(),
                done@.len() == k,
                forall|b: int| 0 <= b < k ==> !done@[b],
            decreases self.blocks.len() - k,
        {
            done.push(false);
            k += 1;
        }
        Process { transport: self.transport, blocks: self.blocks, done }
    }

    /// Opens a new input port inside the system.
    pub fn input<M>(&mut self) -> (p: InputPort<M>)
        requires
            old(self).wf(),
        ensures
            final(self).wf(),
            p.id.0 == old(self).transport@.inputs.len(),
            final(self).transport@ == old(self).transport@.with_input(),
            final(self).blocks == old(self).blocks,
    {
        InputPort::new(self)
    }

    /// Opens a new output port inside the system.
    pub fn output<M>(&mut self) -> (p: OutputPort<M>)
        requires
            old(self).wf(),
        ensures
            final(self).wf(),
            p.id.0 == old(self).transport@.outputs.len(),
            final(self).transport@ == old(self).transport@.with_output(),
            final(self).blocks == old(self).blocks,
    {
        OutputPort::new(self)
    }

    /// Registers a block, after those registered before, and hands it back.
    pub fn block<B: Block>(&mut self, block: B) -> (b: B)
        requires
            old(self).wf(),
        ensures
            final(self).wf(),
            b == block,
            final(self).transport@ == old(self).transport@,
            final(self).blocks@.len() == old(self).blocks@.len() + 1,
            final(self).blocks@.drop_last() == old(self).blocks@,
            describes(final(self).blocks@.last(), &block),
    {
        let d = block.descriptor();
        self.blocks.push(d);
        proof {
            assert(self.blocks@.drop_last() =~= old(self).blocks@);
        }
        block
    }

    /// Binds an output port to an input port for the same message type.
    /// Succeeds only where both are known and still open.
    pub fn connect<M>(&mut self, source: &OutputPort<M>, target: &InputPort<M>) -> (r: bool)
        requires
            old(self).wf(),
        ensures
            final(self).wf(),
            r == old(self).transport@.can_connect(source.id.0 as int, target.id.0 as int),
            final(self).transport@ == if r {
                old(self).transport@.connected(source.id.0 as int, target.id.0 as int)
            } else {
                old(self).transport@
            },
            final(self).blocks == old(self).blocks,
    {
        self.transport.connect(source.id, target.id)
    }
}

impl SystemExecution for System {
    open spec fn fabric_before(&self) -> TransportView {
        self.transport@
    }

    open spec fn blocks_before(&self) -> Seq<BlockDescriptor> {
        self.blocks@
    }

    open spec fn ready(&self) -> bool {
        self.wf()
    }

    fn execute(self) -> (p: Process) {
        System::execute(self)
    }
}

impl SystemBuilding for System {
    open spec fn fabric(&self) -> TransportView {
        self.transport@
    }

    open spec fn registered(&self) -> Seq<BlockDescriptor> {
        self.blocks@
    }

    open spec fn valid(&self) -> bool {
        self.wf()
    }

    fn input<M>(&mut self) -> (p: InputPort<M>) {
        InputPort::new(self)
    }

    fn output<M>(&mut self) -> (p: OutputPort<M>) {
        OutputPort::new(self)
    }

    fn block<B: Block>(&mut self, block: B) -> (b: B) {
        System::block(self, block)
    }

    fn connect<M>(&mut self, source: &OutputPort<M>, target: &InputPort<M>) -> (r: bool) {
        self.transport.connect(source.id, target.id)
    }
}

} // verus!
