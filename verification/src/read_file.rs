//! A block that reads the bytes of a file whose path it is sent.

use crate::block::{Block, BlockDescriptor, PortDescriptor};
use crate::input_port::InputPort;
use crate::output_port::OutputPort;
use crate::port::{InputPortID, OutputPortID, PortID};
use vstd::prelude::*;

verus! {

/// A block that reads bytes from the contents of a file.
pub struct ReadFile {
    /// The path to the file to read from.
    pub path: InputPort<String>,
    /// The output message stream.
    pub output: OutputPort<Vec<u8>>,
}

impl ReadFile {
    /// A file-reading block on the given ports.
    pub fn new(path: InputPort<String>, output: OutputPort<Vec<u8>>) -> (b: Self)
        ensures
            b.path == path,
            b.output == output,
    {
        Self { path, output }
    }
}

impl Block for ReadFile {
    open spec fn input_ids(&self) -> Seq<InputPortID> {
        seq![self.path.id]
    }

    open spec fn output_ids(&self) -> Seq<OutputPortID> {
        seq![self.output.id]
    }

    open spec fn input_names(&self) -> Seq<Seq<char>> {
        seq!["path"@]
    }

    open spec fn output_names(&self) -> Seq<Seq<char>> {
        seq!["output"@]
    }

    fn descriptor(&self) -> (d: BlockDescriptor) {
        let mut inputs: Vec<PortDescriptor> = Vec::new();
        inputs.push(PortDescriptor { name: "path".to_owned(), id: PortID::Input(self.path.id) });
        let mut outputs: Vec<PortDescriptor> = Vec::new();
        outputs.push(
            PortDescriptor { name: "output".to_owned(), id: PortID::Output(self.output.id) },
        );
        let d = BlockDescriptor { inputs, outputs };
        proof {
            assert(d.input_ids() =~= self.input_ids().map_values(|i: InputPortID| PortID::Input(i)));
            assert(d.output_ids() =~= self.output_ids().map_values(
                |o: OutputPortID| PortID::Output(o),
            ));
            assert(d.input_names() =~= self.input_names());
            assert(d.output_names() =~= self.output_names());
        }
        d
    }
}

} // verus!
