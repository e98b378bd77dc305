//! Text on a byte stream: one message for each line.

use vstd::prelude::*;

verus! {

/// The byte that ends a line.
pub const NEWLINE: u8 = 10;

/// The number of bytes of `s` before its first newline, or before its end
/// where it holds none.
pub open spec fn line_len(s: Seq<u8>) -> nat
    decreases s.len(),
{
    if s.len() == 0 || s[0] == NEWLINE {
        0
    } else {
        1 + line_len(s.drop_first())
    }
}

/// The lines of `s`: each ends before a newline, the last one also at the
/// end of `s` where bytes follow the last newline.
pub open spec fn lines_of(s: Seq<u8>) -> Seq<Seq<u8>>
    decreases s.len(),
{
    let n = line_len(s) as int;
    if s.len() == 0 {
        Seq::empty()
    } else if n >= s.len() {
        seq![s]
    } else {
        seq![s.take(n)] + lines_of(s.skip(n + 1))
    }
}

/// The byte stream that holds `lines`, each followed by a newline.
pub open spec fn joined(lines: Seq<Seq<u8>>) -> Seq<u8>
    decreases lines.len(),
{
    if lines.len() == 0 {
        Seq::empty()
    } else {
        joined(lines.drop_last()) + lines.last().push(NEWLINE)
    }
}

/// Whether a line holds no newline.
pub open spec fn is_line(line: Seq<u8>) -> bool {
    forall|j: int| 0 <= j < line.len() ==> line[j] != NEWLINE
}

/// The lines that a list of byte vectors holds.
pub open spec fn lines_view(lines: Seq<Vec<u8>>) -> Seq<Seq<u8>> {
    lines.map_values(|l: Vec<u8>| l@)
}

/// Where the first `n` bytes of `s` hold no newline and a newline or the
/// end follows them, the first line of `s` is `n` bytes long.
pub proof fn lemma_line_len(s: Seq<u8>, n: int)
    requires
        0 <= n <= s.len(),
        forall|j: int| 0 <= j < n ==> s[j] != NEWLINE,
        n == s.len() || s[n] == NEWLINE,
    ensures
        line_len(s) == n,
    decreases n,
{
    if n > 0 {
        lemma_line_len(s.drop_first(), n - 1);
    }
}

/// A list of lines before some bytes is the list before the first of these
/// bytes' lines, and then the rest.
pub proof fn lemma_lines_of_prefix(line: Seq<u8>, rest: Seq<u8>)
    requires
        is_line(line),
    ensures
        lines_of(line.push(NEWLINE) + rest) == seq![line] + lines_of(rest),
{
    let s = line.push(NEWLINE) + rest;
    let n = line.len() as int;
    lemma_line_len(s, n);
    assert(s.take(n) =~= line);
    assert(s.skip(n + 1) =~= rest);
}

/// Joining puts the lines in front of what follows.
pub proof fn lemma_lines_of_joined(lines: Seq<Seq<u8>>, rest: Seq<u8>)
    requires
        forall|k: int| 0 <= k < lines.len() ==> is_line(#[trigger] lines[k]),
    ensures
        lines_of(joined(lines) + rest) == lines + lines_of(rest),
    decreases lines.len(),
{
    if lines.len() == 0 {
        assert(joined(lines) + rest =~= rest);
        assert(lines + lines_of(rest) =~= lines_of(rest));
    } else {
        let front = lines.drop_last();
        let last = lines.last();
        assert forall|k: int| 0 <= k < front.len() implies is_line(#[trigger] front[k]) by {
            assert(front[k] == lines[k]);
        }
        assert(joined(lines) + rest =~= joined(front) + (last.push(NEWLINE) + rest));
        lemma_lines_of_joined(front, last.push(NEWLINE) + rest);
        lemma_lines_of_prefix(last, rest);
        assert(front + (seq![last] + lines_of(rest)) =~= lines + lines_of(rest));
    }
}

/// Text round trip: splitting the stream that was joined from lines gives
/// back these lines.
pub proof fn lemma_lines_round_trip(lines: Seq<Seq<u8>>)
    requires
        forall|k: int| 0 <= k < lines.len() ==> is_line(#[trigger] lines[k]),
    ensures
        lines_of(joined(lines)) == lines,
{
    lemma_lines_of_joined(lines, Seq::empty());
    assert(joined(lines) + Seq::<u8>::empty() =~= joined(lines));
    assert(lines + lines_of(Seq::<u8>::empty()) =~= lines);
}

/// The bytes of `bytes` from `from` up to `to`.
pub fn copy_range(bytes: &Vec<u8>, from: usize, to: usize) -> (r: Vec<u8>)
    requires
        from <= to <= bytes.len(),
    ensures
        r@ == bytes@.subrange(from as int, to as int),
{
    let mut out: Vec<u8> = Vec::new();
    let mut i: usize = from;
    while i < to
        invariant
            from <= i <= to <= bytes.len(),
            out@ == bytes@.subrange(from as int, i as int),
        decreases to - i,
    {
        out.push(bytes[i]);
        proof {
            assert(out@ =~= bytes@.subrange(from as int, i + 1));
        }
        i += 1;
    }
    out
}

/// One line on the stream: the payload and a newline.
pub fn encode_line(payload: &Vec<u8>) -> (r: Vec<u8>)
    ensures
        r@ == payload@.push(NEWLINE),
{
    let mut out = copy_range(payload, 0, payload.len());
    proof {
        assert(payload@.subrange(0, payload@.len() as int) =~= payload@);
    }
    out.push(NEWLINE);
    out
}

/// The byte stream that holds each of `lines` followed by a newline.
pub fn join_lines(lines: &Vec<Vec<u8>>) -> (r: Vec<u8>)
    ensures
        r@ == joined(lines_view(lines@)),
{
    let ghost all = lines_view(lines@);
    let mut out: Vec<u8> = Vec::new();
    let mut k: usize = 0;
    proof {
        assert(all.take(0) =~= Seq::<Seq<u8>>::empty());
    }
    while k < lines.len()
        invariant
            k <= lines.len(),
            all == lines_view(lines@),
            out@ == joined(all.take(k as int)),
        decreases lines.len() - k,
    {
        let mut line = encode_line(&lines[k]);
        proof {
            assert(all.take(k + 1).drop_last() =~= all.take(k as int));
            assert(all.take(k + 1).last() == lines@[k as int]@);
        }
        out.append(&mut line);
        k += 1;
    }
    proof {
        assert(all.take(k as int) =~= all);
    }
    out
}

/// The lines of a byte stream.
pub fn split_lines(bytes: &Vec<u8>) -> (r: Vec<Vec<u8>>)
    ensures
        lines_view(r@) == lines_of(bytes@),
{
    let mut out: Vec<Vec<u8>> = Vec::new();
    let mut start: usize = 0;
    let mut i: usize = 0;
    proof {
        assert(bytes@.skip(0) =~= bytes@);
        assert(lines_view(out@) + lines_of(bytes@) =~= lines_of(bytes@));
    }
    while i < bytes.len()
        invariant
            start <= i <= bytes.len(),
            forall|j: int| start <= j < i ==> bytes@[j] != NEWLINE,
            lines_of(bytes@) == lines_view(out@) + lines_of(bytes@.skip(start as int)),
        decreases bytes.len() - i,
    {
        if bytes[i] == NEWLINE {
            let line = copy_range(bytes, start, i);
            proof {
                let tail = bytes@.skip(start as int);
                lemma_line_len(tail, i - start);
                assert(tail.take(i - start) =~= line@);
                assert(tail.skip(i - start + 1) =~= bytes@.skip(i + 1));
                assert(lines_view(out@.push(line)) =~= lines_view(out@) + seq![line@]);
                assert(lines_view(out@) + (seq![line@] + lines_of(bytes@.skip(i + 1)))
                    =~= lines_view(out@.push(line)) + lines_of(bytes@.skip(i + 1)));
            }
            out.push(line);
            start = i + 1;
        }
        i += 1;
    }
    if start < bytes.len() {
        let line = copy_range(bytes, start, bytes.len());
        proof {
            let tail = bytes@.skip(start as int);
            lemma_line_len(tail, bytes.len() - start);
            assert(tail =~= line@);
            assert(lines_of(tail) =~= seq![line@]);
            assert(lines_view(out@.push(line)) =~= lines_view(out@) + seq![line@]);
        }
        out.push(line);
    } else {
        proof {
            assert(bytes@.skip(start as int).len() == 0);
            assert(lines_view(out@) + lines_of(bytes@.skip(start as int)) =~= lines_view(out@));
        }
    }
    out
}

} // verus!
