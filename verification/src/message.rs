//! Messages and their framing on the wire: a payload travels as the varint
//! of its length followed by its bytes.

use vstd::prelude::*;
use vstd::string::StrSliceExecFns;
use vstd::utf8::{encode_utf8, encode_utf8_valid_utf8, valid_utf8};

verus! {

/// The longest varint that a frame's length may take, in bytes.
pub const MAX_VARINT_LEN: usize = 10;

/// The base-128 varint of `n`, least significant group first.
pub open spec fn varint(n: nat) -> Seq<u8>
    decreases n,
{
    if n < 128 {
        seq![n as u8]
    } else {
        seq![(n % 128 + 128) as u8] + varint(n / 128)
    }
}

/// Reads a varint of at most `budget` bytes from the front of `s`: its value
/// and the number of bytes it takes.
pub open spec fn parse_varint(s: Seq<u8>, budget: nat) -> Option<(nat, nat)>
    decreases budget,
{
    if budget == 0 || s.len() == 0 {
        None
    } else if s[0] < 128 {
        Some((s[0] as nat, 1nat))
    } else {
        match parse_varint(s.drop_first(), (budget - 1) as nat) {
            None => None,
            Some((v, k)) => Some(((s[0] - 128) as nat + 128 * v, k + 1)),
        }
    }
}

/// The frame that carries `payload`.
pub open spec fn framed(payload: Seq<u8>) -> Seq<u8> {
    varint(payload.len()) + payload
}

/// The payload that `frame` carries, if it is a frame: a length and then
/// exactly that many bytes.
pub open spec fn unframed(frame: Seq<u8>) -> Option<Seq<u8>> {
    match parse_varint(frame, MAX_VARINT_LEN as nat) {
        Some((n, k)) => if k + n == frame.len() {
            Some(frame.skip(k as int))
        } else {
            None
        },
        None => None,
    }
}

/// 128 to the power `k`.
pub open spec fn cap(k: nat) -> nat
    decreases k,
{
    if k == 0 {
        1
    } else {
        128 * cap((k - 1) as nat)
    }
}

/// A parsed varint takes at least one byte and at most `budget`.
pub proof fn lemma_parse_varint_len(s: Seq<u8>, budget: nat)
    ensures
        parse_varint(s, budget) matches Some((v, k)) ==> 1 <= k <= budget && k <= s.len(),
    decreases budget,
{
    if budget > 0 && s.len() > 0 && s[0] >= 128 {
        lemma_parse_varint_len(s.drop_first(), (budget - 1) as nat);
    }
}

/// Reading back a varint gives the number it was written from, whatever
/// follows it.
pub proof fn lemma_varint_round_trip(n: nat, rest: Seq<u8>, budget: nat)
    requires
        budget >= 1,
        n < cap(budget),
    ensures
        parse_varint(varint(n) + rest, budget) == Some((n, varint(n).len())),
    decreases n,
{
    let s = varint(n) + rest;
    if n >= 128 {
        assert(cap(budget) == 128 * cap((budget - 1) as nat));
        if budget == 1 {
            assert(cap(0) == 1);
        }
        assert(n / 128 < cap((budget - 1) as nat));
        assert(cap(0) == 1);
        assert(budget - 1 >= 1);
        lemma_varint_round_trip(n / 128, rest, (budget - 1) as nat);
        assert(s.drop_first() =~= varint(n / 128) + rest);
        assert(s[0] == (n % 128 + 128) as u8);
    } else {
        assert(s[0] == n as u8);
    }
}

/// Every length that fits the machine has a varint within the limit.
pub proof fn lemma_usize_below_cap(n: usize)
    ensures
        (n as nat) < cap(MAX_VARINT_LEN as nat),
{
    assert(cap(0) == 1);
    assert(cap(1) == 128 * cap(0));
    assert(cap(2) == 128 * cap(1));
    assert(cap(3) == 128 * cap(2));
    assert(cap(4) == 128 * cap(3));
    assert(cap(5) == 128 * cap(4));
    assert(cap(6) == 128 * cap(5));
    assert(cap(7) == 128 * cap(6));
    assert(cap(8) == 128 * cap(7));
    assert(cap(9) == 128 * cap(8));
    assert(cap(10) == 128 * cap(9));
    assert(n <= 0xffff_ffff_ffff_ffff);
}

/// Framing round trip: a frame gives back the payload it was made from.
pub proof fn lemma_frame_round_trip(payload: Seq<u8>)
    requires
        payload.len() <= usize::MAX,
    ensures
        unframed(framed(payload)) == Some(payload),
{
    lemma_usize_below_cap(payload.len() as usize);
    lemma_varint_round_trip(payload.len(), payload, MAX_VARINT_LEN as nat);
    let k = varint(payload.len()).len();
    assert(framed(payload).skip(k as int) =~= payload);
}

/// Appends the varint of `n` to `out`.
pub fn encode_varint(n: usize, out: &mut Vec<u8>)
    ensures
        final(out)@ == old(out)@ + varint(n as nat),
{
    let mut m: usize = n;
    while m >= 128
        invariant
            old(out)@ + varint(n as nat) == out@ + varint(m as nat),
        decreases m,
    {
        let ghost before = out@;
        out.push((m % 128 + 128) as u8);
        proof {
            assert(before + varint(m as nat) =~= out@ + varint((m / 128) as nat));
        }
        m = m / 128;
    }
    let ghost before = out@;
    out.push(m as u8);
    proof {
        assert(before + varint(m as nat) =~= out@);
    }
}

/// Reads a varint of at most `budget` bytes at `pos`; `None` too where its
/// value does not fit the machine's word.
pub fn decode_varint(s: &Vec<u8>, pos: usize, budget: usize) -> (r: Option<(usize, usize)>)
    requires
        pos <= s.len(),
    ensures
        r == match parse_varint(s@.skip(pos as int), budget as nat) {
            Some((v, k)) => if v <= usize::MAX {
                Some((v as usize, k as usize))
            } else {
                None
            },
            None => None,
        },
    decreases budget,
{
    proof {
        lemma_parse_varint_len(s@.skip(pos as int), budget as nat);
    }
    if budget == 0 || pos >= s.len() {
        return None;
    }
    let b: u8 = s[pos];
    if b < 128 {
        return Some((b as usize, 1));
    }
    proof {
        assert(s@.skip(pos as int).drop_first() =~= s@.skip(pos + 1));
        lemma_parse_varint_len(s@.skip(pos + 1), (budget - 1) as nat);
    }
    let low: usize = (b - 128) as usize;
    match decode_varint(s, pos + 1, budget - 1) {
        None => None,
        Some((v, k)) => {
            if v > (usize::MAX - low) / 128 {
                None
            } else {
                Some((low + 128 * v, k + 1))
            }
        },
    }
}

/// The frame that carries `payload`.
pub fn encode_length_delimited(payload: &Vec<u8>) -> (r: Vec<u8>)
    ensures
        r@ == framed(payload@),
{
    let mut out: Vec<u8> = Vec::new();
    encode_varint(payload.len(), &mut out);
    let mut i: usize = 0;
    while i < payload.len()
        invariant
            i <= payload.len(),
            out@ == varint(payload@.len()) + payload@.take(i as int),
        decreases payload.len() - i,
    {
        let ghost before = out@;
        out.push(payload[i]);
        proof {
            assert(out@ =~= varint(payload@.len()) + payload@.take(i + 1));
        }
        i += 1;
    }
    proof {
        assert(payload@.take(i as int) =~= payload@);
    }
    out
}

/// The payload that `frame` carries; `None` where it is no frame.
pub fn decode_length_delimited(frame: &Vec<u8>) -> (r: Option<Vec<u8>>)
    ensures
        match r {
            Some(p) => unframed(frame@) == Some(p@),
            None => unframed(frame@) is None,
        },
{
    proof {
        assert(frame@.skip(0) =~= frame@);
        lemma_parse_varint_len(frame@, MAX_VARINT_LEN as nat);
    }
    match decode_varint(frame, 0, MAX_VARINT_LEN) {
        None => None,
        Some((n, k)) => {
            if frame.len() - k != n {
                return None;
            }
            let mut out: Vec<u8> = Vec::new();
            let mut i: usize = k;
            while i < frame.len()
                invariant
                    k <= i <= frame.len(),
                    out@ == frame@.subrange(k as int, i as int),
                decreases frame.len() - i,
            {
                out.push(frame[i]);
                proof {
                    assert(out@ =~= frame@.subrange(k as int, i + 1));
                }
                i += 1;
            }
            proof {
                assert(frame@.subrange(k as int, i as int) =~= frame@.skip(k as int));
            }
            Some(out)
        },
    }
}

/// A value that can travel over a channel as a payload of bytes.
pub trait Message: Sized {
    /// The payload that stands for this value.
    spec fn payload(&self) -> Seq<u8>;

    /// Whether `bytes` is the payload of some value.
    spec fn valid(bytes: Seq<u8>) -> bool;

    /// Every value's payload is valid.
    proof fn payload_is_valid(&self)
        ensures
            Self::valid(self.payload()),
    ;

    /// The payload of this value.
    fn encode(&self) -> (r: Vec<u8>)
        ensures
            r@ == self.payload(),
    ;

    /// The value that `bytes` stands for, where it stands for one.
    fn decode(bytes: &Vec<u8>) -> (r: Option<Self>)
        ensures
            r is Some == Self::valid(bytes@),
            r matches Some(m) ==> m.payload() == bytes@,
    ;
}

/// Raw bytes are their own payload.
impl Message for Vec<u8> {
    open spec fn payload(&self) -> Seq<u8> {
        self@
    }

    open spec fn valid(bytes: Seq<u8>) -> bool {
        true
    }

    proof fn payload_is_valid(&self) {
    }

    fn encode(&self) -> (r: Vec<u8>) {
        self.clone()
    }

    fn decode(bytes: &Vec<u8>) -> (r: Option<Vec<u8>>) {
        Some(bytes.clone())
    }
}

/// Reads bytes as text with `String::from_utf8`, which takes them exactly
/// when they are valid UTF-8 and then yields the string that has these
/// bytes; `None` stands for its error.
#[verifier::external_body]
fn string_from_utf8(bytes: &Vec<u8>) -> (r: Option<String>)
    ensures
        r is Some == valid_utf8(bytes@),
        r matches Some(s) ==> encode_utf8(s@) == bytes@,
{
    String::from_utf8(bytes.clone()).ok()
}

/// Text travels as its UTF-8 bytes.
impl Message for String {
    open spec fn payload(&self) -> Seq<u8> {
        encode_utf8(self@)
    }

    open spec fn valid(bytes: Seq<u8>) -> bool {
        valid_utf8(bytes)
    }

    proof fn payload_is_valid(&self) {
        encode_utf8_valid_utf8(self@);
    }

    fn encode(&self) -> (r: Vec<u8>) {
        self.as_str().as_bytes_vec()
    }

    fn decode(bytes: &Vec<u8>) -> (r: Option<String>) {
        string_from_utf8(bytes)
    }
}

} // verus!
