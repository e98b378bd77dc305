//! A system that runs: which of its blocks have ended, and the closing of
//! the ports of a block that ends.

use crate::block::{BlockDescriptor, PortDescriptor};
use crate::laws::{advances, apply, lemma_apply_advances, rank, Op};
use crate::port::{state_or_closed, InputPortID, OutputPortID, PortID, PortState};
use crate::transport::{Transport, TransportView};
use vstd::prelude::*;

verus! {

/// The model after each port of `ports` was closed, first to last.
pub open spec fn close_all(v: TransportView, ports: Seq<PortID>) -> TransportView
    decreases ports.len(),
{
    if ports.len() == 0 {
        v
    } else {
        close_all(v, ports.drop_last()).close(ports.last())
    }
}

/// Whether `port` is closed in `v`; a port that `v` does not know counts as
/// closed.
pub open spec fn is_shut(v: TransportView, port: PortID) -> bool {
    state_or_closed(v.state(port)) == PortState::Closed
}

/// Closing a port leaves it shut, keeps shut what was shut, and moves no
/// port backwards.
pub proof fn lemma_close_shuts(v: TransportView, port: PortID)
    requires
        v.wf(),
    ensures
        v.close(port).wf(),
        advances(v, v.close(port)),
        is_shut(v.close(port), port),
        forall|q: PortID| is_shut(v, q) ==> is_shut(v.close(port), q),
{
    lemma_apply_advances(v, Op::Close(port));
    assert(apply(v, Op::Close(port)) == v.close(port));
    let w = v.close(port);
    match port {
        PortID::Input(InputPortID(i)) => {
            if v.state(port) is Some {
                assert(v.input_ok(i as int));
            }
        },
        PortID::Output(OutputPortID(o)) => {
            if v.state(port) is Some {
                assert(v.output_ok(o as int));
            }
        },
    }
    assert(w.inputs.len() == v.inputs.len());
    assert(w.outputs.len() == v.outputs.len());
    assert forall|q: PortID| is_shut(v, q) implies is_shut(w, q) by {
        if v.state(q) is Some {
            assert(w.state(q) is Some && rank(v.state(q)->Some_0) <= rank(w.state(q)->Some_0));
        } else {
            assert(w.state(q) is None);
        }
    }
}

/// Closing a list of ports leaves each of them shut and keeps shut what was
/// shut.
pub proof fn lemma_close_all_shuts(v: TransportView, ports: Seq<PortID>)
    requires
        v.wf(),
    ensures
        close_all(v, ports).wf(),
        forall|k: int| 0 <= k < ports.len() ==> is_shut(close_all(v, ports), #[trigger] ports[k]),
        forall|q: PortID| is_shut(v, q) ==> is_shut(close_all(v, ports), q),
    decreases ports.len(),
{
    if ports.len() > 0 {
        let u = close_all(v, ports.drop_last());
        lemma_close_all_shuts(v, ports.drop_last());
        lemma_close_shuts(u, ports.last());
        let w = close_all(v, ports);
        assert forall|k: int| 0 <= k < ports.len() implies is_shut(w, #[trigger] ports[k]) by {
            if k < ports.len() - 1 {
                assert(ports.drop_last()[k] == ports[k]);
                assert(is_shut(u, ports[k]));
            }
        }
    }
}

/// The first `n` input ports, in order.
pub open spec fn all_inputs(n: nat) -> Seq<PortID> {
    Seq::new(n, |i: int| PortID::Input(InputPortID(i as usize)))
}

/// Closing ports opens none: the transport knows the same ports after.
pub proof fn lemma_close_all_keeps_ports(v: TransportView, ports: Seq<PortID>)
    requires
        v.wf(),
    ensures
        close_all(v, ports).inputs.len() == v.inputs.len(),
        close_all(v, ports).outputs.len() == v.outputs.len(),
    decreases ports.len(),
{
    if ports.len() > 0 {
        lemma_close_all_keeps_ports(v, ports.drop_last());
        lemma_close_all_shuts(v, ports.drop_last());
        let u = close_all(v, ports.drop_last());
        match ports.last() {
            PortID::Input(InputPortID(i)) => {
                if u.state(ports.last()) is Some {
                    assert(u.input_ok(i as int));
                }
            },
            PortID::Output(OutputPortID(o)) => {
                if u.state(ports.last()) is Some {
                    assert(u.output_ok(o as int));
                }
            },
        }
    }
}

/// Closing one list of ports and then another is closing the two in a row.
pub proof fn lemma_close_all_concat(v: TransportView, a: Seq<PortID>, b: Seq<PortID>)
    ensures
        close_all(v, a + b) == close_all(close_all(v, a), b),
    decreases b.len(),
{
    if b.len() == 0 {
        assert(a + b =~= a);
    } else {
        lemma_close_all_concat(v, a, b.drop_last());
        assert((a + b).drop_last() =~= a + b.drop_last());
        assert((a + b).last() == b.last());
    }
}

/// Closes each of the listed ports on the transport, first to last.
pub fn close_ports(transport: &mut Transport, ports: &Vec<PortDescriptor>)
    requires
        old(transport).wf(),
    ensures
        final(transport).wf(),
        final(transport)@ == close_all(
            old(transport)@,
            ports@.map_values(|d: PortDescriptor| d.id),
        ),
{
    let ghost ids = ports@.map_values(|d: PortDescriptor| d.id);
    let mut k: usize = 0;
    proof {
        assert(ids.take(0) =~= Seq::<PortID>::empty());
    }
    while k < ports.len()
        invariant
            k <= ports.len(),
            ids == ports@.map_values(|d: PortDescriptor| d.id),
            transport.wf(),
            transport@ == close_all(old(transport)@, ids.take(k as int)),
        decreases ports.len() - k,
    {
        let _ = transport.close(ports[k].id);
        proof {
            assert(ids.take(k + 1).drop_last() =~= ids.take(k as int));
            assert(ids.take(k + 1).last() == ports@[k as int].id);
        }
        k += 1;
    }
    proof {
        assert(ids.take(k as int) =~= ids);
    }
}

/// A running system: its transport, its blocks, and which of them have
/// ended.
pub struct Process {
    pub transport: Transport,
    pub blocks: Vec<BlockDescriptor>,
    pub done: Vec<bool>,
}

impl Process {
    /// Whether every port of block `b` is shut.
    pub open spec fn block_shut(&self, b: int) -> bool {
        forall|k: int|
            0 <= k < self.blocks@[b].port_ids().len() ==> is_shut(
                self.transport@,
                #[trigger] self.blocks@[b].port_ids()[k],
            )
    }

    /// The invariant of a running system: every port of a block that has
    /// ended is shut.
    pub open spec fn wf(&self) -> bool {
        &&& self.transport.wf()
        &&& self.done@.len() == self.blocks@.len()
        &&& forall|b: int| 0 <= b < self.blocks@.len() && self.done@[b] ==> #[trigger] self.block_shut(b)
    }

    /// Whether every block has ended.
    pub open spec fn complete(&self) -> bool {
        forall|b: int| 0 <= b < self.done@.len() ==> self.done@[b]
    }

    /// Records that block `b` has ended, and closes every port of it that is
    /// not closed yet: its inputs first, then its outputs.
    pub fn finish_block(&mut self, b: usize)
        requires
            old(self).wf(),
            b < old(self).blocks@.len(),
        ensures
            final(self).wf(),
            final(self).blocks == old(self).blocks,
            final(self).done@ == old(self).done@.update(b as int, true),
            final(self).transport@ == close_all(
                old(self).transport@,
                old(self).blocks@[b as int].port_ids(),
            ),
            final(self).block_shut(b as int),
    {
        close_ports(&mut self.transport, &self.blocks[b].inputs);
        close_ports(&mut self.transport, &self.blocks[b].outputs);
        self.done.set(b, true);
        proof {
            let ports = self.blocks@[b as int].port_ids();
            lemma_close_all_concat(
                old(self).transport@,
                self.blocks@[b as int].input_ids(),
                self.blocks@[b as int].output_ids(),
            );
            lemma_close_all_shuts(old(self).transport@, ports);
            assert(self.block_shut(b as int));
            assert forall|c: int| 0 <= c < self.blocks@.len() && self.done@[c] implies #[trigger] self.block_shut(
                c,
            ) by {
                if c != b {
                    assert(old(self).block_shut(c));
                }
            }
        }
    }

    /// Shuts the run down: closes every input port, so that each consumer
    /// sees the end of its stream and each producer's sends fail.
    pub fn shutdown(&mut self)
        requires
            old(self).wf(),
        ensures
            final(self).wf(),
            final(self).blocks == old(self).blocks,
            final(self).done == old(self).done,
            final(self).transport@ == close_all(
                old(self).transport@,
                all_inputs(old(self).transport@.inputs.len()),
            ),
            final(self).transport@.inputs.len() == old(self).transport@.inputs.len(),
            forall|i: int|
                0 <= i < final(self).transport@.inputs.len() ==> (
                #[trigger] final(self).transport@.inputs[i]).state == PortState::Closed,
    {
        let n = self.transport.input_count();
        let ghost before = self.transport@;
        let ghost all = all_inputs(n as nat);
        let mut k: usize = 0;
        proof {
            assert(all.take(0) =~= Seq::<PortID>::empty());
        }
        while k < n
            invariant
                k <= n,
                n == before.inputs.len(),
                all == all_inputs(n as nat),
                before == old(self).transport@,
                before.wf(),
                self.transport.wf(),
                self.blocks == old(self).blocks,
                self.done == old(self).done,
                self.transport@ == close_all(before, all.take(k as int)),
            decreases n - k,
        {
            let _ = self.transport.close(PortID::Input(InputPortID(k)));
            proof {
                assert(all.take(k + 1).drop_last() =~= all.take(k as int));
                assert(all.take(k + 1).last() == PortID::Input(InputPortID(k)));
            }
            k += 1;
        }
        proof {
            assert(all.take(k as int) =~= all);
            lemma_close_all_shuts(before, all);
            lemma_close_all_keeps_ports(before, all);
            assert forall|i: int| 0 <= i < self.transport@.inputs.len() implies (
            #[trigger] self.transport@.inputs[i]).state == PortState::Closed by {
                assert(is_shut(self.transport@, all[i]));
            }
            assert forall|c: int| 0 <= c < self.blocks@.len() && self.done@[c] implies #[trigger] self.block_shut(
                c,
            ) by {
                assert(old(self).block_shut(c));
            }
        }
    }

    /// Whether block `b` has ended; `false` for a block that does not exist.
    pub fn is_done(&self, b: usize) -> (r: bool)
        ensures
            r == (b < self.done@.len() && self.done@[b as int]),
    {
        b < self.done.len() && self.done[b]
    }

    /// Whether every block has ended.
    pub fn is_complete(&self) -> (r: bool)
        ensures
            r == self.complete(),
    {
        let mut k: usize = 0;
        while k < self.done.len()
            invariant
                k <= self.done.len(),
                forall|b: int| 0 <= b < k ==> self.done@[b],
            decreases self.done.len() - k,
        {
            if !self.done[k] {
                return false;
            }
            k += 1;
        }
        true
    }
}

/// While a system runs its ports are only sent on, received from and
/// closed. Whatever is done to the transport that opens no port and moves no
/// port backwards keeps the invariant of the running system.
pub proof fn lemma_run_keeps_wf(p: Process, q: Process)
    requires
        p.wf(),
        q.transport.wf(),
        q.blocks == p.blocks,
        q.done == p.done,
        advances(p.transport@, q.transport@),
        q.transport@.inputs.len() == p.transport@.inputs.len(),
        q.transport@.outputs.len() == p.transport@.outputs.len(),
    ensures
        q.wf(),
{
    assert forall|b: int| 0 <= b < q.blocks@.len() && q.done@[b] implies #[trigger] q.block_shut(
        b,
    ) by {
        assert(p.block_shut(b));
        assert forall|k: int| 0 <= k < q.blocks@[b].port_ids().len() implies is_shut(
            q.transport@,
            #[trigger] q.blocks@[b].port_ids()[k],
        ) by {
            let port = p.blocks@[b].port_ids()[k];
            assert(is_shut(p.transport@, port));
            if p.transport@.state(port) is Some {
                assert(q.transport@.state(port) is Some && rank(p.transport@.state(port)->Some_0)
                    <= rank(q.transport@.state(port)->Some_0));
            }
        }
    }
}

/// Quiescence: once every block has ended, every port of every block is
/// closed, and so no port of a block is part of a live channel.
pub proof fn lemma_quiescence(p: Process, b: int, k: int)
    requires
        p.wf(),
        p.complete(),
        0 <= b < p.blocks@.len(),
        0 <= k < p.blocks@[b].port_ids().len(),
    ensures
        is_shut(p.transport@, p.blocks@[b].port_ids()[k]),
        p.transport@.state(p.blocks@[b].port_ids()[k]) != Some(PortState::Connected),
{
    assert(p.block_shut(b));
}

} // verus!
