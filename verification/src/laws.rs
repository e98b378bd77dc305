//! What holds of every run of a transport: the order of delivery, the end of
//! a stream, and the one-way lifecycle of a port.

use crate::port::{InputPortID, OutputPortID, PortID, PortState};
use crate::transport::{
    lemma_close_input_wf, lemma_close_output_wf, lemma_connected_wf, lemma_sent_wf,
    lemma_taken_wf, lemma_with_input_wf, lemma_with_output_wf, ReceivedView, TransportView,
};
use vstd::prelude::*;

verus! {

/// One operation on a transport.
pub enum Op {
    OpenInput,
    OpenOutput,
    Connect(int, int),
    Send(int, Seq<u8>),
    Recv(int),
    Close(PortID),
}

/// The model after one operation, as the transport's methods carry it out.
pub open spec fn apply(v: TransportView, op: Op) -> TransportView {
    match op {
        Op::OpenInput => v.with_input(),
        Op::OpenOutput => v.with_output(),
        Op::Connect(o, i) => if v.can_connect(o, i) {
            v.connected(o, i)
        } else {
            v
        },
        Op::Send(o, frame) => if v.can_send(o) {
            v.sent(o, frame)
        } else {
            v
        },
        Op::Recv(i) => if v.has_input(i) {
            v.after_recv(i)
        } else {
            v
        },
        Op::Close(port) => v.close(port),
    }
}

/// The model after a sequence of operations, first to last.
pub open spec fn run(v: TransportView, ops: Seq<Op>) -> TransportView
    decreases ops.len(),
{
    if ops.len() == 0 {
        v
    } else {
        apply(run(v, ops.drop_last()), ops.last())
    }
}

/// How far a port has come in its lifecycle.
pub open spec fn rank(s: PortState) -> int {
    match s {
        PortState::Open => 0,
        PortState::Connected => 1,
        PortState::Closed => 2,
    }
}

/// `w` knows every port that `v` knows, each no earlier in its lifecycle.
pub open spec fn advances(v: TransportView, w: TransportView) -> bool {
    forall|port: PortID| #[trigger]
        v.state(port) is Some ==> w.state(port) is Some && rank(v.state(port)->Some_0) <= rank(
            w.state(port)->Some_0,
        )
}

/// The model after `k` receives on input `i`.
pub open spec fn drained(v: TransportView, i: int, k: nat) -> TransportView
    decreases k,
{
    if k == 0 {
        v
    } else {
        drained(v, i, (k - 1) as nat).after_recv(i)
    }
}

/// One operation keeps the model well formed and moves no port backwards:
/// a port never returns to `Open`, and a closed port stays closed.
pub proof fn lemma_apply_advances(v: TransportView, op: Op)
    requires
        v.wf(),
    ensures
        apply(v, op).wf(),
        advances(v, apply(v, op)),
{
    let w = apply(v, op);
    match op {
        Op::OpenInput => {
            lemma_with_input_wf(v);
        },
        Op::OpenOutput => {
            lemma_with_output_wf(v);
        },
        Op::Connect(o, i) => {
            if v.can_connect(o, i) {
                lemma_connected_wf(v, o, i);
            }
        },
        Op::Send(o, frame) => {
            if v.can_send(o) {
                lemma_sent_wf(v, o, frame);
            }
        },
        Op::Recv(i) => {
            if v.has_input(i) {
                lemma_taken_wf(v, i);
            }
        },
        Op::Close(port) => {
            if v.state(port) is Some {
                match port {
                    PortID::Input(InputPortID(i)) => {
                        assert(v.input_ok(i as int));
                        lemma_close_input_wf(v, i as int);
                    },
                    PortID::Output(OutputPortID(o)) => {
                        assert(v.output_ok(o as int));
                        lemma_close_output_wf(v, o as int);
                    },
                }
            }
        },
    }
    assert forall|port: PortID| #[trigger] v.state(port) is Some implies w.state(port) is Some
        && rank(v.state(port)->Some_0) <= rank(w.state(port)->Some_0) by {
        match port {
            PortID::Input(InputPortID(i)) => {
                assert(v.input_ok(i as int));
            },
            PortID::Output(OutputPortID(o)) => {
                assert(v.output_ok(o as int));
            },
        }
        match op {
            Op::Send(o, frame) => {
                if v.can_send(o) {
                    assert(v.output_ok(o));
                }
            },
            Op::Close(PortID::Input(InputPortID(i))) => {
                if v.has_input(i as int) {
                    assert(v.input_ok(i as int));
                }
            },
            Op::Close(PortID::Output(OutputPortID(o))) => {
                if v.has_output(o as int) {
                    assert(v.output_ok(o as int));
                }
            },
            _ => {},
        }
    }
}

/// Any sequence of operations keeps the model well formed and moves no port
/// backwards.
pub proof fn lemma_run_advances(v: TransportView, ops: Seq<Op>)
    requires
        v.wf(),
    ensures
        run(v, ops).wf(),
        advances(v, run(v, ops)),
    decreases ops.len(),
{
    if ops.len() > 0 {
        let u = run(v, ops.drop_last());
        lemma_run_advances(v, ops.drop_last());
        lemma_apply_advances(u, ops.last());
        let w = run(v, ops);
        assert forall|port: PortID| #[trigger] v.state(port) is Some implies w.state(port) is Some
            && rank(v.state(port)->Some_0) <= rank(w.state(port)->Some_0) by {
            assert(u.state(port) is Some);
        }
    }
}

/// A connect succeeds at most once for a port: once `o` and `i` are bound,
/// no connect that names either of them succeeds, whatever happens between.
pub proof fn lemma_connect_at_most_once(
    v: TransportView,
    o: int,
    i: int,
    ops: Seq<Op>,
    o2: int,
    i2: int,
)
    requires
        v.wf(),
        v.can_connect(o, i),
        o2 == o || i2 == i,
        o <= usize::MAX,
        i <= usize::MAX,
    ensures
        !run(v.connected(o, i), ops).can_connect(o2, i2),
{
    let c = v.connected(o, i);
    lemma_connected_wf(v, o, i);
    lemma_run_advances(c, ops);
    let w = run(c, ops);
    let po = PortID::Output(OutputPortID(o as usize));
    let pi = PortID::Input(InputPortID(i as usize));
    assert(c.state(po) == Some(PortState::Connected));
    assert(c.state(pi) == Some(PortState::Connected));
    assert(w.state(po) is Some);
    assert(w.state(pi) is Some);
}

/// After `k` receives on an input that holds at least `k` frames, the frames
/// from the `k`-th on are left, and nothing else has changed.
pub proof fn lemma_drained(v: TransportView, i: int, k: nat)
    requires
        v.has_input(i),
        k <= v.queue(i).len(),
    ensures
        drained(v, i, k).has_input(i),
        drained(v, i, k).queue(i) == v.queue(i).skip(k as int),
        drained(v, i, k).inputs[i].state == v.inputs[i].state,
    decreases k,
{
    if k > 0 {
        lemma_drained(v, i, (k - 1) as nat);
        let u = drained(v, i, (k - 1) as nat);
        assert(u.queue(i).drop_first() =~= v.queue(i).skip(k as int));
    } else {
        assert(v.queue(i).skip(0) =~= v.queue(i));
    }
}

/// Once an input holds no frame, further receives change nothing.
pub proof fn lemma_drained_empty(v: TransportView, i: int, k: nat)
    requires
        v.has_input(i),
        v.queue(i).len() == 0,
    ensures
        drained(v, i, k) == v,
    decreases k,
{
    if k > 0 {
        lemma_drained_empty(v, i, (k - 1) as nat);
    }
}

/// Receives split: `j + k` receives are `j` receives and then `k` more.
pub proof fn lemma_drained_add(v: TransportView, i: int, j: nat, k: nat)
    ensures
        drained(v, i, j + k) == drained(drained(v, i, j), i, k),
    decreases k,
{
    if k > 0 {
        lemma_drained_add(v, i, j, (k - 1) as nat);
    }
}

/// Delivery in order: the `k`-th receive on an input yields the `k`-th frame
/// that waits there.
pub proof fn lemma_receive_in_order(v: TransportView, i: int, k: nat)
    requires
        v.has_input(i),
        k < v.queue(i).len(),
    ensures
        drained(v, i, k).received(i) == ReceivedView::Frame(v.queue(i)[k as int]),
{
    lemma_drained(v, i, k);
}

/// First in, first out: two frames sent one after the other on a channel
/// join the back of its queue in that order, so the first is received
/// before the second, after the frames that waited before them.
pub proof fn lemma_fifo(v: TransportView, o: int, m1: Seq<u8>, m2: Seq<u8>)
    requires
        v.wf(),
        v.can_send(o),
    ensures
        ({
            let i = v.outputs[o].peer->Some_0;
            let w = v.sent(o, m1).sent(o, m2);
            let n = v.queue(i).len();
            &&& v.sent(o, m1).can_send(o)
            &&& w.queue(i) == v.queue(i).push(m1).push(m2)
            &&& forall|k: nat| k < n ==> #[trigger] drained(w, i, k).received(i)
                == ReceivedView::Frame(v.queue(i)[k as int])
            &&& drained(w, i, n).received(i) == ReceivedView::Frame(m1)
            &&& drained(w, i, n + 1).received(i) == ReceivedView::Frame(m2)
        }),
{
    assert(v.output_ok(o));
    let i = v.outputs[o].peer->Some_0;
    let w = v.sent(o, m1).sent(o, m2);
    let n = v.queue(i).len();
    assert forall|k: nat| k < n implies #[trigger] drained(w, i, k).received(i)
        == ReceivedView::Frame(v.queue(i)[k as int]) by {
        lemma_receive_in_order(w, i, k);
    }
    lemma_receive_in_order(w, i, n);
    lemma_receive_in_order(w, i, n + 1);
}

/// End of stream: once the producer of a channel has closed its output, the
/// consumer receives every frame that was sent before, in order, then the
/// end of the stream, and the end of the stream on every later receive.
pub proof fn lemma_end_of_stream(v: TransportView, o: int, k: nat)
    requires
        v.wf(),
        v.can_send(o),
    ensures
        ({
            let i = v.outputs[o].peer->Some_0;
            let w = v.close_output(o);
            &&& drained(w, i, k).received(i) == if k < v.queue(i).len() {
                ReceivedView::Frame(v.queue(i)[k as int])
            } else {
                ReceivedView::EndOfStream
            }
            &&& o <= usize::MAX ==> v.close(PortID::Output(OutputPortID(o as usize))) == w
        }),
{
    assert(v.output_ok(o));
    let i = v.outputs[o].peer->Some_0;
    let w = v.close_output(o);
    let n = v.queue(i).len();
    if k < n {
        lemma_receive_in_order(w, i, k);
    } else {
        lemma_drained(w, i, n);
        let u = drained(w, i, n);
        lemma_drained_empty(u, i, (k - n) as nat);
        lemma_drained_add(w, i, n, (k - n) as nat);
        assert(n + (k - n) as nat == k);
    }
}

/// Closing is idempotent: a second close of the same port changes nothing.
pub proof fn lemma_close_twice(v: TransportView, port: PortID)
    requires
        v.wf(),
    ensures
        v.close(port).close(port) == v.close(port),
        v.state(port) is Some ==> v.close(port).state(port) == Some(PortState::Closed),
{
    match port {
        PortID::Input(InputPortID(i)) => {
            if v.state(port) is Some {
                assert(v.input_ok(i as int));
            }
        },
        PortID::Output(OutputPortID(o)) => {
            if v.state(port) is Some {
                assert(v.output_ok(o as int));
            }
        },
    }
}

} // verus!
