//! Running a block as a filter between standard input and standard output:
//! the encodings, the parameters, and the stages of the pipeline.

use crate::block::{Block, BlockDescriptor, PortDescriptor};
use crate::lines::{copy_range, encode_line, is_line, NEWLINE};
use crate::message::{
    decode_length_delimited, encode_length_delimited, framed, lemma_frame_round_trip, unframed,
};
use crate::port::{InputPortID, OutputPortID, PortID};
use crate::transport::TransportView;
use vstd::prelude::*;
use vstd::string::StrSliceExecFns;

verus! {

/// How messages are written on standard input and output.
#[derive(Clone, Copy, Debug, PartialEq, Eq, Structural)]
pub enum Encoding {
    /// One line of text for each message.
    Text,
    /// Each message framed by the varint of its length.
    Protobuf,
    /// One line of JSON for each message.
    Json,
}

/// Why a block could not be set up as a filter.
#[derive(Clone, Debug, PartialEq, Eq)]
pub enum StdioError {
    /// The parameter of this name has a value that cannot be read.
    InvalidParameter(String),
    /// The parameter of this name is required and was not given.
    MissingParameter(String),
}

/// Why a block could not be executed.
#[derive(Clone, Debug, PartialEq, Eq)]
pub enum ExecuteError {
    /// No encoding has this name.
    InvalidEncoding(String),
}

/// Whether two strings hold the same characters.
pub fn str_equal(a: &str, b: &str) -> (r: bool)
    ensures
        r == (a@ == b@),
{
    let n = a.unicode_len();
    if n != b.unicode_len() {
        return false;
    }
    let mut i: usize = 0;
    while i < n
        invariant
            i <= n,
            a@.len() == n,
            b@.len() == n,
            forall|j: int| 0 <= j < i ==> a@[j] == b@[j],
        decreases n - i,
    {
        if a.get_char(i) != b.get_char(i) {
            return false;
        }
        i += 1;
    }
    proof {
        assert(a@ =~= b@);
    }
    true
}

/// The encoding of a given name.
pub open spec fn encoding_named(name: Seq<char>) -> Option<Encoding> {
    if name == "text"@ {
        Some(Encoding::Text)
    } else if name == "protobuf"@ {
        Some(Encoding::Protobuf)
    } else if name == "json"@ {
        Some(Encoding::Json)
    } else {
        None
    }
}

/// Reads the name of an encoding: `text`, `protobuf` or `json`. Any other
/// input is handed back in the error.
pub fn parse_encoding(input: &str) -> (r: Result<Encoding, ExecuteError>)
    ensures
        match encoding_named(input@) {
            Some(e) => r == Ok::<Encoding, ExecuteError>(e),
            None => r matches Err(ExecuteError::InvalidEncoding(m)) && m@ == input@,
        },
{
    if str_equal(input, "text") {
        Ok(Encoding::Text)
    } else if str_equal(input, "protobuf") {
        Ok(Encoding::Protobuf)
    } else if str_equal(input, "json") {
        Ok(Encoding::Json)
    } else {
        Err(ExecuteError::InvalidEncoding(input.to_owned()))
    }
}

/// The bytes that carry `payload` on a stream in the given encoding: its
/// frame for `Protobuf`; the payload and a newline for `Text` and `Json`,
/// which cannot carry a payload that holds a newline.
pub open spec fn encoded_as(encoding: Encoding, payload: Seq<u8>) -> Option<Seq<u8>> {
    match encoding {
        Encoding::Protobuf => Some(framed(payload)),
        _ => if is_line(payload) {
            Some(payload.push(NEWLINE))
        } else {
            None
        },
    }
}

/// The payload that `bytes` carry in the given encoding, where they are
/// one whole message.
pub open spec fn decoded_as(encoding: Encoding, bytes: Seq<u8>) -> Option<Seq<u8>> {
    match encoding {
        Encoding::Protobuf => unframed(bytes),
        _ => if bytes.len() > 0 && bytes.last() == NEWLINE && is_line(bytes.drop_last()) {
            Some(bytes.drop_last())
        } else {
            None
        },
    }
}

/// Encoding round trip: in every encoding, what was encoded decodes to the
/// payload it was made from.
pub proof fn lemma_encoding_round_trip(encoding: Encoding, payload: Seq<u8>)
    requires
        payload.len() <= usize::MAX,
        encoded_as(encoding, payload) is Some,
    ensures
        decoded_as(encoding, encoded_as(encoding, payload)->Some_0) == Some(payload),
{
    match encoding {
        Encoding::Protobuf => {
            lemma_frame_round_trip(payload);
        },
        _ => {
            assert(payload.push(NEWLINE).drop_last() =~= payload);
        },
    }
}

/// Whether `bytes` from `from` up to `to` hold no newline.
pub fn holds_no_newline(bytes: &Vec<u8>, from: usize, to: usize) -> (r: bool)
    requires
        from <= to <= bytes.len(),
    ensures
        r == is_line(bytes@.subrange(from as int, to as int)),
{
    let mut i: usize = from;
    while i < to
        invariant
            from <= i <= to <= bytes.len(),
            forall|j: int| from <= j < i ==> bytes@[j] != NEWLINE,
        decreases to - i,
    {
        if bytes[i] == NEWLINE {
            proof {
                assert(bytes@.subrange(from as int, to as int)[i - from] == NEWLINE);
            }
            return false;
        }
        i += 1;
    }
    true
}

/// Encodes one message for a stream; `None` where the encoding cannot
/// carry the payload.
pub fn encode_with(encoding: Encoding, payload: &Vec<u8>) -> (r: Option<Vec<u8>>)
    ensures
        match r {
            Some(b) => encoded_as(encoding, payload@) == Some(b@),
            None => encoded_as(encoding, payload@) is None,
        },
{
    match encoding {
        Encoding::Protobuf => Some(encode_length_delimited(payload)),
        _ => {
            proof {
                assert(payload@.subrange(0, payload@.len() as int) =~= payload@);
            }
            if holds_no_newline(payload, 0, payload.len()) {
                Some(encode_line(payload))
            } else {
                None
            }
        },
    }
}

/// Decodes bytes that are one whole message of a stream; `None` where
/// they are not.
pub fn decode_with(encoding: Encoding, bytes: &Vec<u8>) -> (r: Option<Vec<u8>>)
    ensures
        match r {
            Some(p) => decoded_as(encoding, bytes@) == Some(p@),
            None => decoded_as(encoding, bytes@) is None,
        },
{
    match encoding {
        Encoding::Protobuf => decode_length_delimited(bytes),
        _ => {
            let n = bytes.len();
            if n == 0 || bytes[n - 1] != NEWLINE {
                return None;
            }
            proof {
                assert(bytes@.subrange(0, n - 1) =~= bytes@.drop_last());
            }
            if holds_no_newline(bytes, 0, n - 1) {
                Some(copy_range(bytes, 0, n - 1))
            } else {
                None
            }
        },
    }
}

/// Whether `p` is the place of the first `=` in `s`.
pub open spec fn first_equals_sign(s: Seq<char>, p: int) -> bool {
    &&& 0 <= p < s.len()
    &&& s[p] == '='
    &&& forall|j: int| 0 <= j < p ==> s[j] != '='
}

/// Splits a `key=value` parameter at its first `=`. An input without `=` is
/// refused.
pub fn parse_kv_param(input: &str) -> (r: Result<(String, String), String>)
    ensures
        match r {
            Ok((k, v)) => exists|p: int|
                first_equals_sign(input@, p) && k@ == input@.take(p) && v@ == input@.skip(p + 1),
            Err(m) => m@ == "invalid key=value parameter"@ && forall|j: int|
                0 <= j < input@.len() ==> input@[j] != '=',
        },
{
    let n = input.unicode_len();
    let mut i: usize = 0;
    while i < n
        invariant
            i <= n,
            input@.len() == n,
            forall|j: int| 0 <= j < i ==> input@[j] != '=',
        decreases n - i,
    {
        if input.get_char(i) == '=' {
            let key = input.substring_char(0, i).to_owned();
            let value = input.substring_char(i + 1, n).to_owned();
            proof {
                assert(first_equals_sign(input@, i as int));
                assert(key@ =~= input@.take(i as int));
                assert(value@ =~= input@.skip(i + 1));
            }
            return Ok((key, value));
        }
        i += 1;
    }
    Err("invalid key=value parameter".to_owned())
}

/// Whether `s` has `..` at place `j`.
pub open spec fn two_dots_at(s: Seq<char>, j: int) -> bool {
    0 <= j < s.len() - 1 && s[j] == '.' && s[j + 1] == '.'
}

/// Whether `p` is the place of the first `..` in `s`.
pub open spec fn first_two_dots(s: Seq<char>, p: int) -> bool {
    &&& two_dots_at(s, p)
    &&& forall|j: int| 0 <= j < p ==> !#[trigger] two_dots_at(s, j)
}

/// Splits a range `lo..hi` at its first `..` into `lo` and `hi`; `None`
/// for an input without `..`.
pub fn split_range(input: &str) -> (r: Option<(String, String)>)
    ensures
        match r {
            Some((lo, hi)) => exists|p: int|
                first_two_dots(input@, p) && lo@ == input@.take(p) && hi@ == input@.skip(p + 2),
            None => forall|j: int| !#[trigger] two_dots_at(input@, j),
        },
{
    let n = input.unicode_len();
    let mut i: usize = 0;
    if n < 2 {
        return None;
    }
    while i < n - 1
        invariant
            n >= 2,
            input@.len() == n,
            forall|j: int| 0 <= j < i ==> !#[trigger] two_dots_at(input@, j),
        decreases n - i,
    {
        if input.get_char(i) == '.' && input.get_char(i + 1) == '.' {
            let lo = input.substring_char(0, i).to_owned();
            let hi = input.substring_char(i + 2, n).to_owned();
            proof {
                assert(first_two_dots(input@, i as int));
                assert(lo@ =~= input@.take(i as int));
                assert(hi@ =~= input@.skip(i + 2));
            }
            return Some((lo, hi));
        }
        i += 1;
    }
    None
}

/// What a stage of a filter pipeline does.
#[derive(Clone, Copy, Debug, PartialEq, Eq, Structural)]
pub enum StageKind {
    /// Reads bytes from standard input.
    ReadStdin,
    /// Turns bytes into messages.
    Decode(Encoding),
    /// Turns messages into bytes.
    Encode(Encoding),
    /// Writes bytes to standard output.
    WriteStdout,
}

/// A stage of a filter pipeline, other than the block that is filtered
/// through: at most one input and at most one output.
#[derive(Clone, Copy, Debug, PartialEq, Eq, Structural)]
pub struct Stage {
    pub kind: StageKind,
    pub input: Option<InputPortID>,
    pub output: Option<OutputPortID>,
}

impl Block for Stage {
    open spec fn input_ids(&self) -> Seq<InputPortID> {
        match self.input {
            Some(i) => seq![i],
            None => Seq::empty(),
        }
    }

    open spec fn output_ids(&self) -> Seq<OutputPortID> {
        match self.output {
            Some(o) => seq![o],
            None => Seq::empty(),
        }
    }

    open spec fn input_names(&self) -> Seq<Seq<char>> {
        match self.input {
            Some(_) => seq!["input"@],
            None => Seq::empty(),
        }
    }

    open spec fn output_names(&self) -> Seq<Seq<char>> {
        match self.output {
            Some(_) => seq!["output"@],
            None => Seq::empty(),
        }
    }

    fn descriptor(&self) -> (d: BlockDescriptor) {
        let mut inputs: Vec<PortDescriptor> = Vec::new();
        match self.input {
            Some(i) => {
                inputs.push(PortDescriptor { name: "input".to_owned(), id: PortID::Input(i) });
            },
            None => {},
        }
        let mut outputs: Vec<PortDescriptor> = Vec::new();
        match self.output {
            Some(o) => {
                outputs.push(PortDescriptor { name: "output".to_owned(), id: PortID::Output(o) });
            },
            None => {},
        }
        let d = BlockDescriptor { inputs, outputs };
        proof {
            assert(d.input_ids() =~= self.input_ids().map_values(|i: InputPortID| PortID::Input(i)));
            assert(d.output_ids() =~= self.output_ids().map_values(
                |o: OutputPortID| PortID::Output(o),
            ));
            assert(d.input_names() =~= self.input_names());
            assert(d.output_names() =~= self.output_names());
        }
        d
    }
}

/// The model of a transport that holds `n` channels and nothing else:
/// channel `k` binds output `k` to input `k`.
pub open spec fn chain(n: nat) -> TransportView
    decreases n,
{
    if n == 0 {
        TransportView::empty()
    } else {
        chain((n - 1) as nat).with_output().with_input().connected(n - 1, n - 1)
    }
}

} // verus!
