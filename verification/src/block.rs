//! The block contract: what a block tells the system of itself.

use crate::port::{InputPortID, OutputPortID, PortError, PortID};
use vstd::prelude::*;

verus! {

/// One port of a block, by name.
#[derive(Clone, Debug, PartialEq, Eq)]
pub struct PortDescriptor {
    pub name: String,
    pub id: PortID,
}

/// The ports of a block: inputs first to last, then outputs first to last.
#[derive(Clone, Debug, PartialEq, Eq)]
pub struct BlockDescriptor {
    pub inputs: Vec<PortDescriptor>,
    pub outputs: Vec<PortDescriptor>,
}

impl BlockDescriptor {
    /// The identifiers of the input ports, in order.
    pub open spec fn input_ids(&self) -> Seq<PortID> {
        self.inputs@.map_values(|d: PortDescriptor| d.id)
    }

    /// The identifiers of the output ports, in order.
    pub open spec fn output_ids(&self) -> Seq<PortID> {
        self.outputs@.map_values(|d: PortDescriptor| d.id)
    }

    /// The names of the input ports, in order.
    pub open spec fn input_names(&self) -> Seq<Seq<char>> {
        self.inputs@.map_values(|d: PortDescriptor| d.name@)
    }

    /// The names of the output ports, in order.
    pub open spec fn output_names(&self) -> Seq<Seq<char>> {
        self.outputs@.map_values(|d: PortDescriptor| d.name@)
    }

    /// The identifiers of all the ports, inputs first.
    pub open spec fn port_ids(&self) -> Seq<PortID> {
        self.input_ids() + self.output_ids()
    }
}

/// Why a block stopped with a failure.
#[derive(Clone, Debug, PartialEq, Eq)]
pub enum BlockError {
    /// A port operation failed.
    Port(PortError),
    /// A frame was no valid encoding of the message type.
    Decode,
    /// Any other failure, with a message.
    Other(String),
}

/// The result of running a block.
pub type BlockResult<T> = Result<T, BlockError>;

/// A unit of computation with named input and output ports.
pub trait Block: Sized {
    /// The identifiers of the block's input ports, in order.
    spec fn input_ids(&self) -> Seq<InputPortID>;

    /// The identifiers of the block's output ports, in order.
    spec fn output_ids(&self) -> Seq<OutputPortID>;

    /// The names of the block's input ports, in order.
    spec fn input_names(&self) -> Seq<Seq<char>>;

    /// The names of the block's output ports, in order.
    spec fn output_names(&self) -> Seq<Seq<char>>;

    /// The block's descriptor: one entry for each port, in order.
    fn descriptor(&self) -> (d: BlockDescriptor)
        ensures
            d.input_ids() == self.input_ids().map_values(|i: InputPortID| PortID::Input(i)),
            d.output_ids() == self.output_ids().map_values(|o: OutputPortID| PortID::Output(o)),
            d.input_names() == self.input_names(),
            d.output_names() == self.output_names(),
    ;
}

/// Whether `d` is the descriptor of `block`: its ports by identifier and
/// by name, inputs and outputs each in order.
pub open spec fn describes<B: Block>(d: BlockDescriptor, block: &B) -> bool {
    &&& d.input_ids() == block.input_ids().map_values(|i: InputPortID| PortID::Input(i))
    &&& d.output_ids() == block.output_ids().map_values(|o: OutputPortID| PortID::Output(o))
    &&& d.input_names() == block.input_names()
    &&& d.output_names() == block.output_names()
}

} // verus!
