//! Laws of the indexer: properties of every run of the state machine.
//!
//! A run is the fold of [`spec_step`] over a sequence of outcomes, starting
//! from [`StateM::Start`]; [`trace`] collects the events the machine emits
//! downstream along the way, in order, together with the full block behind
//! each `AddBlock`. The proof functions at the bottom state the guarantees:
//! whatever the adapter, the store and the downstream consumer do, the
//! emitted event sequence is chain-shaped — adds extend the head by a
//! parent-linked block, reverts unwind exactly one block at a time and never
//! the fork base, numbers between reverts strictly increase, nothing is
//! added twice without a revert in between, and every event is preceded by
//! the corresponding durable store operation.

use vstd::prelude::*;

use crate::event::NetworkIndexerEvent;
use crate::machine::Outcome;
use crate::machine::StateM;
use crate::machine::spec_step;
use crate::machine::wf;
use crate::types::Block;
use crate::types::BlockPointer;

verus! {

/// One emitted event, together with the block it concerns where there is
/// one. `Added { block }` stands for the downstream event
/// `AddBlock(block pointer)`; `Reverted { from, to }` for
/// `Revert { from, to }`.
pub enum TraceEvent {
    Added { block: Block },
    Reverted { from: BlockPointer, to: BlockPointer },
}

/// The downstream event a trace event stands for.
pub open spec fn event_of(t: TraceEvent) -> NetworkIndexerEvent {
    match t {
        TraceEvent::Added { block } => NetworkIndexerEvent::AddBlock(block.spec_pointer()),
        TraceEvent::Reverted { from, to } => NetworkIndexerEvent::Revert { from, to },
    }
}

/// The state after consuming a sequence of outcomes, starting at `Start`.
pub open spec fn run(outcomes: Seq<Outcome>) -> StateM
    decreases outcomes.len(),
{
    if outcomes.len() == 0 {
        StateM::Start
    } else {
        spec_step(run(outcomes.drop_last()), outcomes.last())
    }
}

/// The events emitted during one step: a step emits exactly when the state
/// was awaiting a downstream send and the send succeeded.
pub open spec fn step_events(s: StateM, o: Outcome) -> Seq<TraceEvent> {
    match s {
        StateM::EmitRevert { revert_chain, idx, .. } => match o {
            Outcome::Sent(Ok(())) => seq![
                TraceEvent::Reverted { from: revert_chain[idx], to: revert_chain[idx + 1] },
            ],
            _ => Seq::empty(),
        },
        StateM::EmitAddBlock { block, .. } => match o {
            Outcome::Sent(Ok(())) => seq![TraceEvent::Added { block }],
            _ => Seq::empty(),
        },
        _ => Seq::empty(),
    }
}

/// All events emitted along a run, in emission order.
pub open spec fn trace(outcomes: Seq<Outcome>) -> Seq<TraceEvent>
    decreases outcomes.len(),
{
    if outcomes.len() == 0 {
        Seq::empty()
    } else {
        trace(outcomes.drop_last()) + step_events(
            run(outcomes.drop_last()),
            outcomes.last(),
        )
    }
}

/// The local head as a state knows it: `None` for states that carry none.
/// The inner option is the head itself, which is empty while the store is.
pub open spec fn head_of(s: StateM) -> Option<Option<BlockPointer>> {
    match s {
        StateM::PollChainHead { local_head } => Some(local_head),
        StateM::FetchBlocks { local_head, .. } => Some(local_head),
        StateM::ProcessBlocks { local_head, .. } => Some(local_head),
        StateM::VetBlock { local_head, .. } => Some(local_head),
        StateM::WriteBlock { local_head, .. } => Some(local_head),
        StateM::EmitAddBlock { local_head, .. } => Some(local_head),
        StateM::FetchForkedBlocks { local_head, .. } => Some(Some(local_head)),
        StateM::FetchForkedParent { local_head, .. } => Some(Some(local_head)),
        StateM::CollectRevertChain { local_head, .. } => Some(Some(local_head)),
        StateM::RevertBlock { local_head, .. } => Some(Some(local_head)),
        StateM::EmitRevert { local_head, .. } => Some(Some(local_head)),
        _ => None,
    }
}

/// No revert is emitted after position `k`.
pub open spec fn no_revert_after(tr: Seq<TraceEvent>, k: int) -> bool {
    forall|m: int| k < m < tr.len() ==> !((#[trigger] tr[m]) is Reverted)
}

/// No event at all is emitted after position `k`.
pub open spec fn no_event_after(tr: Seq<TraceEvent>, k: int) -> bool {
    forall|m: int| k < m < tr.len() ==> !((#[trigger] tr[m]) is Reverted) && !(tr[m] is Added)
}

/// No revert is emitted strictly between positions `k1` and `k2`.
pub open spec fn no_revert_between(tr: Seq<TraceEvent>, k1: int, k2: int) -> bool {
    forall|m: int| k1 < m < k2 ==> !((#[trigger] tr[m]) is Reverted)
}

/// No event at all is emitted strictly between positions `k1` and `k2`.
pub open spec fn no_event_between(tr: Seq<TraceEvent>, k1: int, k2: int) -> bool {
    forall|m: int| k1 < m < k2 ==> !((#[trigger] tr[m]) is Reverted) && !(tr[m] is Added)
}

/// No revert emitted after position `k` goes below height `n`.
pub open spec fn no_descent_after(tr: Seq<TraceEvent>, k: int, n: u64) -> bool {
    forall|m: int|
        k < m < tr.len() ==> !(((#[trigger] tr[m]) is Reverted) && tr[m]->to.number < n)
}

/// A successful durable write of exactly this block occurred during the run.
pub open spec fn has_write_witness(o: Seq<Outcome>, b: Block) -> bool {
    exists|j: int|
        {
            &&& 0 <= j < o.len()
            &&& (#[trigger] run(o.take(j))) matches StateM::WriteBlock { block, .. } && block == b
            &&& o[j] matches Outcome::Written(Ok(()))
        }
}

/// A successful atomic store revert from `from` to `to` occurred during the
/// run.
pub open spec fn has_revert_witness(o: Seq<Outcome>, from: BlockPointer, to: BlockPointer) -> bool {
    exists|j: int|
        {
            &&& 0 <= j < o.len()
            &&& (#[trigger] run(o.take(j))) matches StateM::RevertBlock { revert_chain, idx, .. }
                && 0 <= idx && idx + 1 < revert_chain.len() && revert_chain[idx] == from
                && revert_chain[idx + 1] == to
            &&& o[j] matches Outcome::Reverted(Ok(()))
        }
}

/// Shape of the emitted events: the machine is past loading once anything
/// was emitted, and every revert unwinds exactly one block.
pub open spec fn inv_events(o: Seq<Outcome>) -> bool {
    let s = run(o);
    let tr = trace(o);
    &&& (tr.len() > 0 ==> !(s is Start) && !(s is LoadLocalHead))
    &&& (forall|k: int|
        0 <= k < tr.len() && ((#[trigger] tr[k]) is Reverted) ==> tr[k]->from.number
            == tr[k]->to.number + 1)
}

/// The local head against the emitted adds: every add not yet undone by a
/// revert lies at or below the head, and the newest such add, while no
/// event follows it, is the head.
pub open spec fn inv_heads(o: Seq<Outcome>) -> bool {
    let s = run(o);
    let tr = trace(o);
    &&& (!(s is Terminated) && !(s is Failed) ==> (forall|k: int|
        0 <= k < tr.len() && ((#[trigger] tr[k]) is Added) && no_revert_after(tr, k)
            ==> head_of(s) is Some && head_of(s)->0 is Some
            && tr[k]->block.spec_pointer().number <= head_of(s)->0->0.number))
    &&& (!(s is Terminated) && !(s is Failed) ==> (forall|k: int|
        0 <= k < tr.len() && ((#[trigger] tr[k]) is Added) && no_event_after(tr, k)
            ==> head_of(s) == Some(Some(tr[k]->block.spec_pointer()))))
}

/// Relations between pairs of emitted adds: adjacent adds are parent-linked
/// and adds between reverts strictly increase in number.
pub open spec fn inv_pairs(o: Seq<Outcome>) -> bool {
    let tr = trace(o);
    &&& (forall|k1: int, k2: int|
        0 <= k1 < k2 < tr.len() && ((#[trigger] tr[k1]) is Added) && ((#[trigger] tr[k2]) is Added)
            && no_event_between(tr, k1, k2) ==> tr[k2]->block.spec_parent_pointer() == Some(
            tr[k1]->block.spec_pointer(),
        ))
    &&& (forall|k1: int, k2: int|
        0 <= k1 < k2 < tr.len() && ((#[trigger] tr[k1]) is Added) && ((#[trigger] tr[k2]) is Added)
            && no_revert_between(tr, k1, k2) ==> tr[k1]->block.spec_pointer().number
            < tr[k2]->block.spec_pointer().number)
}

/// Durability: pending emissions and emitted events all have their store
/// operation already performed.
pub open spec fn inv_witnesses(o: Seq<Outcome>) -> bool {
    let s = run(o);
    let tr = trace(o);
    &&& (s matches StateM::EmitAddBlock { block, .. } ==> has_write_witness(o, block))
    &&& (s matches StateM::EmitRevert { revert_chain, idx, .. } ==> 0 <= idx && idx + 1
        < revert_chain.len() && has_revert_witness(o, revert_chain[idx], revert_chain[idx + 1]))
    &&& (forall|k: int|
        0 <= k < tr.len() && ((#[trigger] tr[k]) is Added) ==> has_write_witness(
            o,
            tr[k]->block,
        ))
    &&& (forall|k: int|
        0 <= k < tr.len() && ((#[trigger] tr[k]) is Reverted) ==> has_revert_witness(
            o,
            tr[k]->from,
            tr[k]->to,
        ))
}

/// The run invariant: everything the laws below need, proved inductively
/// over the outcome sequence by [`lemma_inv`].
pub open spec fn inv(o: Seq<Outcome>) -> bool {
    &&& wf(run(o))
    &&& inv_events(o)
    &&& inv_heads(o)
    &&& inv_pairs(o)
    &&& inv_witnesses(o)
}

/// The first `idx` pairs of the revert chain have been emitted, in order,
/// as the last `idx` events of the trace.
pub open spec fn batch_prefix_emitted(
    tr: Seq<TraceEvent>,
    chain: Seq<BlockPointer>,
    idx: int,
) -> bool {
    &&& tr.len() >= idx
    &&& (forall|i: int|
        0 <= i < idx ==> ((#[trigger] tr[tr.len() - idx + i]) is Reverted) && tr[tr.len() - idx
            + i]->from == chain[i] && tr[tr.len() - idx + i]->to == chain[i + 1])
}

/// While a revert sequence runs, exactly its already-reverted pairs stand at
/// the end of the trace.
pub open spec fn inv_batch(o: Seq<Outcome>) -> bool {
    let s = run(o);
    let tr = trace(o);
    &&& (s matches StateM::RevertBlock { revert_chain, idx, .. } ==> batch_prefix_emitted(
        tr,
        revert_chain,
        idx,
    ))
    &&& (s matches StateM::EmitRevert { revert_chain, idx, .. } ==> batch_prefix_emitted(
        tr,
        revert_chain,
        idx,
    ))
}

/// While no revert has gone below the height of an emitted add, the head
/// sits at or above that height, and so does the next pair a running revert
/// sequence would revert.
pub open spec fn inv_descent_heads(o: Seq<Outcome>) -> bool {
    let s = run(o);
    let tr = trace(o);
    !(s is Terminated) && !(s is Failed) ==> (forall|k: int|
        0 <= k < tr.len() && ((#[trigger] tr[k]) is Added) && no_descent_after(
            tr,
            k,
            tr[k]->block.spec_pointer().number,
        ) ==> ({
            let n = tr[k]->block.spec_pointer().number;
            &&& head_of(s) is Some
            &&& head_of(s)->0 is Some
            &&& n <= head_of(s)->0->0.number
            &&& (s matches StateM::RevertBlock { revert_chain, idx, .. }
                ==> revert_chain[idx].number >= n)
            &&& (s matches StateM::EmitRevert { revert_chain, idx, .. }
                ==> revert_chain[idx].number >= n)
        }))
}

/// The first revert to go below an added height starts exactly at it.
pub open spec fn inv_descent_first(o: Seq<Outcome>) -> bool {
    let tr = trace(o);
    forall|k: int, m: int|
        0 <= k < m < tr.len() && ((#[trigger] tr[k]) is Added) && ((#[trigger] tr[m]) is Reverted)
            && tr[m]->to.number < tr[k]->block.spec_pointer().number ==> (exists|j: int|
            k < j <= m && ((#[trigger] tr[j]) is Reverted) && tr[j]->from.number
                == tr[k]->block.spec_pointer().number)
}

/// Two adds at one height have a revert starting at that height in between.
pub open spec fn inv_descent_dups(o: Seq<Outcome>) -> bool {
    let tr = trace(o);
    forall|k1: int, k2: int|
        0 <= k1 < k2 < tr.len() && ((#[trigger] tr[k1]) is Added) && ((#[trigger] tr[k2]) is Added)
            && tr[k1]->block.spec_pointer().number == tr[k2]->block.spec_pointer().number ==> (
        exists|j: int|
            k1 < j < k2 && ((#[trigger] tr[j]) is Reverted) && tr[j]->from.number
                == tr[k1]->block.spec_pointer().number)
}

/// Unfolding one step of `run` and `trace`.
proof fn lemma_run_push(p: Seq<Outcome>, x: Outcome)
    ensures
        run(p.push(x)) == spec_step(run(p), x),
        trace(p.push(x)) == trace(p) + step_events(run(p), x),
        p.push(x).take(p.len() as int) == p,
        p.push(x)[p.len() as int] == x,
        trace(p.push(x)).len() == trace(p).len() + step_events(run(p), x).len(),
        forall|m: int| 0 <= m < trace(p).len() ==> #[trigger] trace(p.push(x))[m] == trace(p)[m],
{
    let o = p.push(x);
    assert(o.drop_last() =~= p);
    assert(o.take(p.len() as int) =~= p);
}

/// State-level facts about one transition: where the head can move and what
/// an emission says about the states around it.
proof fn lemma_head_shape(s0: StateM, x: Outcome)
    requires
        wf(s0),
    ensures
        spec_step(s0, x) is Start ==> s0 is Start,
        spec_step(s0, x) is LoadLocalHead ==> s0 is Start || s0 is LoadLocalHead,
        step_events(s0, x).len() == 0 ==> spec_step(s0, x) is Terminated || spec_step(s0, x)
            is Failed || head_of(spec_step(s0, x)) == head_of(s0) || s0 is Start || s0
            is LoadLocalHead,
        step_events(s0, x).len() > 0 ==> step_events(s0, x).len() == 1 && !(spec_step(s0, x)
            is Terminated) && !(spec_step(s0, x) is Failed) && !(spec_step(s0, x) is Start) && !(
        spec_step(s0, x) is LoadLocalHead),
        step_events(s0, x).len() == 1 && step_events(s0, x)[0] is Added ==> ({
            let b = step_events(s0, x)[0]->block;
            &&& s0 is EmitAddBlock
            &&& b.is_valid()
            &&& head_of(s0) is Some
            &&& b.spec_parent_pointer() == head_of(s0)->0
            &&& (head_of(s0)->0 is Some ==> b.spec_pointer().number == head_of(s0)->0->0.number
                + 1)
            &&& (!(head_of(s0)->0 is Some) ==> b.spec_pointer().number == 0)
            &&& head_of(spec_step(s0, x)) == Some(Some(b.spec_pointer()))
        }),
        step_events(s0, x).len() == 1 && step_events(s0, x)[0] is Reverted ==> ({
            let evt = step_events(s0, x)[0];
            &&& s0 is EmitRevert
            &&& evt->from.number == evt->to.number + 1
            &&& (head_of(spec_step(s0, x)) == head_of(s0) || head_of(spec_step(s0, x)) == Some(
                Some(evt->to),
            ))
        }),
{
    match s0 {
        StateM::EmitAddBlock { local_head, block, .. } => {
            match x {
                Outcome::Sent(Ok(())) => {
                    assert(block.spec_parent_pointer() == local_head);
                    match local_head {
                        Some(h) => {
                            assert(block.spec_pointer().number == h.number + 1);
                        },
                        None => {
                            assert(block.spec_pointer().number == 0);
                        },
                    }
                },
                _ => {},
            }
        },
        StateM::EmitRevert { local_head, revert_chain, idx, .. } => {
            match x {
                Outcome::Sent(Ok(())) => {
                    assert(revert_chain[idx].number as int == revert_chain[0].number - idx);
                    assert(revert_chain[idx + 1].number as int == revert_chain[0].number - idx
                        - 1);
                    if idx + 2 == revert_chain.len() {
                        assert(revert_chain.last() == revert_chain[idx + 1]);
                    }
                },
                _ => {},
            }
        },
        _ => {},
    }
}

/// One step preserves the event-shape clauses.
proof fn lemma_step_events(p: Seq<Outcome>, x: Outcome)
    requires
        wf(run(p)),
        inv_events(p),
    ensures
        inv_events(p.push(x)),
{
    let o = p.push(x);
    lemma_run_push(p, x);
    lemma_head_shape(run(p), x);
    let s0 = run(p);
    let s1 = run(o);
    let tr0 = trace(p);
    let ev = step_events(s0, x);
    let tr1 = trace(o);
    if tr1.len() > 0 {
        if s1 is Start || s1 is LoadLocalHead {
            assert(s0 is Start || s0 is LoadLocalHead);
            assert(tr0.len() == 0);
            assert(ev.len() == 0);
            assert(false);
        }
    }
    assert forall|k: int| 0 <= k < tr1.len() && ((#[trigger] tr1[k]) is Reverted) implies
        tr1[k]->from.number == tr1[k]->to.number + 1 by {
        if k < tr0.len() {
            assert(tr1[k] == tr0[k]);
        } else {
            assert(tr1[k] == ev[0]);
        }
    }
}

/// One step preserves the head-tracking clauses.
proof fn lemma_step_heads(p: Seq<Outcome>, x: Outcome)
    requires
        inv(p),
    ensures
        inv_heads(p.push(x)),
{
    let o = p.push(x);
    lemma_run_push(p, x);
    lemma_head_shape(run(p), x);
    let s0 = run(p);
    let s1 = run(o);
    let tr0 = trace(p);
    let ev = step_events(s0, x);
    let tr1 = trace(o);
    if !(s1 is Terminated) && !(s1 is Failed) {
        assert forall|k: int|
            0 <= k < tr1.len() && ((#[trigger] tr1[k]) is Added) && no_revert_after(tr1, k)
                implies head_of(s1) is Some && head_of(s1)->0 is Some
            && tr1[k]->block.spec_pointer().number <= head_of(s1)->0->0.number by {
            if k < tr0.len() {
                assert(tr1[k] == tr0[k]);
                assert(no_revert_after(tr0, k)) by {
                    assert(forall|m: int| k < m < tr0.len() ==> #[trigger] tr0[m] == tr1[m]);
                }
                assert(!(s0 is Start) && !(s0 is LoadLocalHead));
                if s0 is Terminated || s0 is Failed {
                    assert(s1 == s0);
                    assert(false);
                }
                if ev.len() == 0 {
                    assert(head_of(s1) == head_of(s0));
                } else if ev[0] is Reverted {
                    assert(tr1[tr0.len() as int] is Reverted);
                    assert(false);
                } else {
                    // an add was emitted: the old head moved up by one
                    let b = ev[0]->block;
                    assert(head_of(s0) is Some && head_of(s0)->0 is Some
                        && tr0[k]->block.spec_pointer().number <= head_of(s0)->0->0.number);
                    assert(b.spec_pointer().number == head_of(s0)->0->0.number + 1);
                    assert(head_of(s1) == Some(Some(b.spec_pointer())));
                }
            } else {
                assert(k == tr0.len());
                assert(tr1[k] == ev[0]);
                let b = ev[0]->block;
                assert(head_of(s1) == Some(Some(b.spec_pointer())));
            }
        }
        assert forall|k: int|
            0 <= k < tr1.len() && ((#[trigger] tr1[k]) is Added) && no_event_after(tr1, k) implies
            head_of(s1) == Some(Some(tr1[k]->block.spec_pointer())) by {
            if k < tr0.len() {
                assert(tr1[k] == tr0[k]);
                if ev.len() == 1 {
                    assert(tr1[tr0.len() as int] is Reverted || tr1[tr0.len() as int] is Added);
                    assert(false);
                } else {
                    assert(no_event_after(tr0, k)) by {
                        assert(forall|m: int| k < m < tr0.len() ==> #[trigger] tr0[m] == tr1[m]);
                    }
                    assert(!(s0 is Start) && !(s0 is LoadLocalHead));
                    if s0 is Terminated || s0 is Failed {
                        assert(s1 == s0);
                        assert(false);
                    }
                    assert(head_of(s1) == head_of(s0));
                }
            } else {
                assert(k == tr0.len());
                assert(tr1[k] == ev[0]);
            }
        }
    }
}

/// One step preserves the pairwise clauses.
proof fn lemma_step_pairs(p: Seq<Outcome>, x: Outcome)
    requires
        inv(p),
    ensures
        inv_pairs(p.push(x)),
{
    let o = p.push(x);
    lemma_run_push(p, x);
    lemma_head_shape(run(p), x);
    let s0 = run(p);
    let s1 = run(o);
    let tr0 = trace(p);
    let ev = step_events(s0, x);
    let tr1 = trace(o);
    assert forall|k1: int, k2: int|
        0 <= k1 < k2 < tr1.len() && ((#[trigger] tr1[k1]) is Added) && ((#[trigger] tr1[k2])
            is Added) && no_event_between(tr1, k1, k2) implies tr1[k2]->block.spec_parent_pointer()
        == Some(tr1[k1]->block.spec_pointer()) by {
        if k2 < tr0.len() {
            assert(tr1[k1] == tr0[k1] && tr1[k2] == tr0[k2]);
            assert(no_event_between(tr0, k1, k2)) by {
                assert(forall|m: int| k1 < m < k2 ==> #[trigger] tr0[m] == tr1[m]);
            }
        } else {
            assert(k2 == tr0.len());
            assert(tr1[k2] == ev[0]);
            assert(tr1[k1] == tr0[k1]);
            let b = ev[0]->block;
            // nothing was emitted after k1 in the old trace
            assert(no_event_after(tr0, k1)) by {
                assert(forall|m: int| k1 < m < tr0.len() ==> #[trigger] tr0[m] == tr1[m]);
            }
            assert(!(s0 is Terminated) && !(s0 is Failed));
            // so the old head is exactly the add at k1, and the new block
            // is parent-linked to the old head
            assert(head_of(s0) == Some(Some(tr0[k1]->block.spec_pointer())));
            assert(b.spec_parent_pointer() == head_of(s0)->0);
        }
    }
    assert forall|k1: int, k2: int|
        0 <= k1 < k2 < tr1.len() && ((#[trigger] tr1[k1]) is Added) && ((#[trigger] tr1[k2])
            is Added) && no_revert_between(tr1, k1, k2) implies tr1[k1]->block.spec_pointer().number
        < tr1[k2]->block.spec_pointer().number by {
        if k2 < tr0.len() {
            assert(tr1[k1] == tr0[k1] && tr1[k2] == tr0[k2]);
            assert(no_revert_between(tr0, k1, k2)) by {
                assert(forall|m: int| k1 < m < k2 ==> #[trigger] tr0[m] == tr1[m]);
            }
        } else {
            assert(k2 == tr0.len());
            assert(tr1[k2] == ev[0]);
            assert(tr1[k1] == tr0[k1]);
            let b = ev[0]->block;
            assert(no_revert_after(tr0, k1)) by {
                assert(forall|m: int| k1 < m < tr0.len() ==> #[trigger] tr0[m] == tr1[m]);
            }
            assert(!(s0 is Terminated) && !(s0 is Failed));
            assert(head_of(s0) is Some && head_of(s0)->0 is Some
                && tr0[k1]->block.spec_pointer().number <= head_of(s0)->0->0.number);
            assert(b.spec_pointer().number == head_of(s0)->0->0.number + 1);
        }
    }
}

/// Write witnesses survive extending the run.
proof fn lemma_write_witness_stable(p: Seq<Outcome>, x: Outcome, b: Block)
    requires
        has_write_witness(p, b),
    ensures
        has_write_witness(p.push(x), b),
{
    let o = p.push(x);
    let j = choose|j: int|
        {
            &&& 0 <= j < p.len()
            &&& (#[trigger] run(p.take(j))) matches StateM::WriteBlock { block, .. } && block == b
            &&& p[j] matches Outcome::Written(Ok(()))
        };
    assert(o.take(j) =~= p.take(j));
    assert(o[j] == p[j]);
    assert({
        &&& 0 <= j < o.len()
        &&& run(o.take(j)) matches StateM::WriteBlock { block, .. } && block == b
        &&& o[j] matches Outcome::Written(Ok(()))
    });
}

/// Revert witnesses survive extending the run.
proof fn lemma_revert_witness_stable(
    p: Seq<Outcome>,
    x: Outcome,
    from: BlockPointer,
    to: BlockPointer,
)
    requires
        has_revert_witness(p, from, to),
    ensures
        has_revert_witness(p.push(x), from, to),
{
    let o = p.push(x);
    let j = choose|j: int|
        {
            &&& 0 <= j < p.len()
            &&& (#[trigger] run(p.take(j))) matches StateM::RevertBlock { revert_chain, idx, .. }
                && 0 <= idx && idx + 1 < revert_chain.len() && revert_chain[idx] == from
                && revert_chain[idx + 1] == to
            &&& p[j] matches Outcome::Reverted(Ok(()))
        };
    assert(o.take(j) =~= p.take(j));
    assert(o[j] == p[j]);
    assert({
        &&& 0 <= j < o.len()
        &&& run(o.take(j)) matches StateM::RevertBlock { revert_chain, idx, .. } && 0 <= idx && idx
            + 1 < revert_chain.len() && revert_chain[idx] == from && revert_chain[idx + 1] == to
        &&& o[j] matches Outcome::Reverted(Ok(()))
    });
}

/// One step preserves the durability clauses.
proof fn lemma_step_witnesses(p: Seq<Outcome>, x: Outcome)
    requires
        inv(p),
    ensures
        inv_witnesses(p.push(x)),
{
    let o = p.push(x);
    lemma_run_push(p, x);
    lemma_head_shape(run(p), x);
    let s0 = run(p);
    let s1 = run(o);
    let tr0 = trace(p);
    let ev = step_events(s0, x);
    let tr1 = trace(o);

    // Witnesses of the shorter run still stand.
    assert forall|k: int| 0 <= k < tr0.len() && ((#[trigger] tr0[k]) is Added) implies
        has_write_witness(o, tr0[k]->block) by {
        lemma_write_witness_stable(p, x, tr0[k]->block);
    }
    assert forall|k: int| 0 <= k < tr0.len() && ((#[trigger] tr0[k]) is Reverted) implies
        has_revert_witness(o, tr0[k]->from, tr0[k]->to) by {
        lemma_revert_witness_stable(p, x, tr0[k]->from, tr0[k]->to);
    }

    // The pending-emission witnesses of the new state.
    match s1 {
        StateM::EmitAddBlock { block: block1, .. } => {
            match s0 {
                StateM::WriteBlock { block: b0, .. } => {
                    assert(b0 == block1);
                    assert(run(o.take(p.len() as int)) == s0);
                    assert(has_write_witness(o, block1));
                },
                StateM::EmitAddBlock { block: b0, .. } => {
                    assert(s1 == s0);
                    assert(b0 == block1);
                    lemma_write_witness_stable(p, x, block1);
                },
                _ => {
                    assert(false);
                },
            }
        },
        StateM::EmitRevert { revert_chain: chain1, idx: idx1, .. } => {
            match s0 {
                StateM::RevertBlock { revert_chain: c0, idx: i0, .. } => {
                    assert(c0 == chain1 && i0 == idx1);
                    assert(run(o.take(p.len() as int)) == s0);
                    assert(has_revert_witness(o, chain1[idx1], chain1[idx1 + 1]));
                },
                StateM::EmitRevert { revert_chain: c0, idx: i0, .. } => {
                    assert(s1 == s0);
                    assert(c0 == chain1 && i0 == idx1);
                    lemma_revert_witness_stable(p, x, chain1[idx1], chain1[idx1 + 1]);
                },
                _ => {
                    assert(false);
                },
            }
        },
        _ => {},
    }

    // The witnesses of a newly emitted event come from the pending-emission
    // clause of the state that emitted it.
    assert forall|k: int| 0 <= k < tr1.len() && ((#[trigger] tr1[k]) is Added) implies
        has_write_witness(o, tr1[k]->block) by {
        if k < tr0.len() {
            assert(tr1[k] == tr0[k]);
            lemma_write_witness_stable(p, x, tr0[k]->block);
        } else {
            assert(tr1[k] == ev[0]);
            match s0 {
                StateM::EmitAddBlock { block: b0, .. } => {
                    assert(ev[0]->block == b0);
                    lemma_write_witness_stable(p, x, b0);
                },
                _ => {
                    assert(false);
                },
            }
        }
    }
    assert forall|k: int| 0 <= k < tr1.len() && ((#[trigger] tr1[k]) is Reverted) implies
        has_revert_witness(o, tr1[k]->from, tr1[k]->to) by {
        if k < tr0.len() {
            assert(tr1[k] == tr0[k]);
            lemma_revert_witness_stable(p, x, tr0[k]->from, tr0[k]->to);
        } else {
            assert(tr1[k] == ev[0]);
            match s0 {
                StateM::EmitRevert { revert_chain: c0, idx: i0, .. } => {
                    assert(ev[0]->from == c0[i0] && ev[0]->to == c0[i0 + 1]);
                    lemma_revert_witness_stable(p, x, c0[i0], c0[i0 + 1]);
                },
                _ => {
                    assert(false);
                },
            }
        }
    }
}

/// One step preserves the height-tracking clause.
#[verifier::rlimit(100)]
#[verifier::spinoff_prover]
proof fn lemma_step_descent_heads(p: Seq<Outcome>, x: Outcome)
    requires
        wf(run(p)),
        inv_events(p),
        inv_descent_heads(p),
    ensures
        inv_descent_heads(p.push(x)),
{
    let o = p.push(x);
    lemma_run_push(p, x);
    lemma_head_shape(run(p), x);
    let s0 = run(p);
    let s1 = run(o);
    let tr0 = trace(p);
    let ev = step_events(s0, x);
    let tr1 = trace(o);

    // While no revert went below an added height, the head and any running
    // revert sequence stay at or above it.
    if !(s1 is Terminated) && !(s1 is Failed) {
        assert forall|k: int|
            0 <= k < tr1.len() && ((#[trigger] tr1[k]) is Added) && no_descent_after(
                tr1,
                k,
                tr1[k]->block.spec_pointer().number,
            ) implies ({
            let n = tr1[k]->block.spec_pointer().number;
            &&& head_of(s1) is Some
            &&& head_of(s1)->0 is Some
            &&& n <= head_of(s1)->0->0.number
            &&& (s1 matches StateM::RevertBlock { revert_chain, idx, .. } ==> revert_chain[
                idx
            ].number >= n)
            &&& (s1 matches StateM::EmitRevert { revert_chain, idx, .. } ==> revert_chain[
                idx
            ].number >= n)
        }) by {
            if k < tr0.len() {
                let n = tr0[k]->block.spec_pointer().number;
                assert(tr1[k] == tr0[k]);
                assert(no_descent_after(tr0, k, n)) by {
                    assert(forall|m: int| k < m < tr0.len() ==> #[trigger] tr0[m] == tr1[m]);
                }
                assert(!(s0 is Start) && !(s0 is LoadLocalHead));
                if s0 is Terminated || s0 is Failed {
                    assert(s1 == s0);
                    assert(false);
                }
                assert(head_of(s0) is Some && head_of(s0)->0 is Some && n <= head_of(
                    s0,
                )->0->0.number);
                if ev.len() == 0 {
                    assert(head_of(s1) == head_of(s0));
                    match s1 {
                        StateM::RevertBlock { .. } => {
                            match s0 {
                                StateM::CollectRevertChain { .. } => {},
                                StateM::RevertBlock { .. } => {
                                    assert(s1 == s0);
                                },
                                _ => {
                                    assert(false);
                                },
                            }
                        },
                        StateM::EmitRevert { .. } => {
                            match s0 {
                                StateM::RevertBlock { .. } => {},
                                StateM::EmitRevert { .. } => {
                                    assert(s1 == s0);
                                },
                                _ => {
                                    assert(false);
                                },
                            }
                        },
                        _ => {},
                    }
                } else if ev[0] is Reverted {
                    // the hypothesis says this revert did not go below n
                    assert(tr1[tr0.len() as int] == ev[0]);
                    assert(ev[0]->to.number >= n);
                    match s0 {
                        StateM::EmitRevert { revert_chain, idx, .. } => {
                            assert(ev[0]->to == revert_chain[idx + 1]);
                            if idx + 2 == revert_chain.len() {
                                assert(revert_chain.last() == revert_chain[idx + 1]);
                            }
                        },
                        _ => {
                            assert(false);
                        },
                    }
                } else {
                    // an add only moves the head up
                    assert(head_of(s1) == Some(Some(ev[0]->block.spec_pointer())));
                    assert(ev[0]->block.spec_pointer().number == head_of(s0)->0->0.number + 1);
                }
            } else {
                assert(k == tr0.len());
                assert(tr1[k] == ev[0]);
            }
        }
    }
}

/// One step preserves the first-descent clause.
#[verifier::rlimit(100)]
#[verifier::spinoff_prover]
proof fn lemma_step_descent_first(p: Seq<Outcome>, x: Outcome)
    requires
        wf(run(p)),
        inv_descent_heads(p),
        inv_descent_first(p),
    ensures
        inv_descent_first(p.push(x)),
{
    let o = p.push(x);
    lemma_run_push(p, x);
    lemma_head_shape(run(p), x);
    let s0 = run(p);
    let s1 = run(o);
    let tr0 = trace(p);
    let ev = step_events(s0, x);
    let tr1 = trace(o);

    // The first revert below an added height starts exactly at it.
    assert forall|k: int, m: int|
        0 <= k < m < tr1.len() && ((#[trigger] tr1[k]) is Added) && ((#[trigger] tr1[m])
            is Reverted) && tr1[m]->to.number < tr1[k]->block.spec_pointer().number implies (
    exists|j: int|
        k < j <= m && ((#[trigger] tr1[j]) is Reverted) && tr1[j]->from.number
            == tr1[k]->block.spec_pointer().number) by {
        let n = tr1[k]->block.spec_pointer().number;
        assert(tr1[k] == tr0[k]);
        if m < tr0.len() {
            assert(tr1[m] == tr0[m]);
            let j = choose|j: int|
                k < j <= m && ((#[trigger] tr0[j]) is Reverted) && tr0[j]->from.number == n;
            assert(tr1[j] == tr0[j]);
            assert(k < j <= m && (tr1[j] is Reverted) && tr1[j]->from.number == n);
        } else {
            assert(m == tr0.len());
            assert(tr1[m] == ev[0]);
            if exists|m0: int|
                k < m0 < tr0.len() && ((#[trigger] tr0[m0]) is Reverted) && tr0[m0]->to.number
                    < n {
                let m0 = choose|m0: int|
                    k < m0 < tr0.len() && ((#[trigger] tr0[m0]) is Reverted) && tr0[m0]->to.number
                        < n;
                let j = choose|j: int|
                    k < j <= m0 && ((#[trigger] tr0[j]) is Reverted) && tr0[j]->from.number == n;
                assert(tr1[j] == tr0[j]);
                assert(k < j <= m && (tr1[j] is Reverted) && tr1[j]->from.number == n);
            } else {
                // this is the first revert below n since the add at k
                assert(no_descent_after(tr0, k, n));
                assert(!(s0 is Terminated) && !(s0 is Failed));
                match s0 {
                    StateM::EmitRevert { revert_chain, idx, .. } => {
                        assert(revert_chain[idx].number >= n);
                        assert(ev[0]->from == revert_chain[idx]);
                        assert(ev[0]->to == revert_chain[idx + 1]);
                        assert(revert_chain[idx].number as int == revert_chain[0].number - idx);
                        assert(revert_chain[idx + 1].number as int == revert_chain[0].number - idx
                            - 1);
                        assert(ev[0]->from.number == n);
                        assert(k < m <= m && (tr1[m] is Reverted) && tr1[m]->from.number == n);
                    },
                    _ => {
                        assert(false);
                    },
                }
            }
        }
    }
}

/// One step preserves the duplicate-add clause.
#[verifier::rlimit(100)]
#[verifier::spinoff_prover]
proof fn lemma_step_descent_dups(p: Seq<Outcome>, x: Outcome)
    requires
        wf(run(p)),
        inv_descent_heads(p),
        inv_descent_first(p),
        inv_descent_dups(p),
    ensures
        inv_descent_dups(p.push(x)),
{
    let o = p.push(x);
    lemma_run_push(p, x);
    lemma_head_shape(run(p), x);
    let s0 = run(p);
    let s1 = run(o);
    let tr0 = trace(p);
    let ev = step_events(s0, x);
    let tr1 = trace(o);

    // Two adds at one height have a revert starting at that height between
    // them.
    assert forall|k1: int, k2: int|
        0 <= k1 < k2 < tr1.len() && ((#[trigger] tr1[k1]) is Added) && ((#[trigger] tr1[k2])
            is Added) && tr1[k1]->block.spec_pointer().number
            == tr1[k2]->block.spec_pointer().number implies (exists|j: int|
        k1 < j < k2 && ((#[trigger] tr1[j]) is Reverted) && tr1[j]->from.number
            == tr1[k1]->block.spec_pointer().number) by {
        let n = tr1[k1]->block.spec_pointer().number;
        assert(tr1[k1] == tr0[k1]);
        if k2 < tr0.len() {
            assert(tr1[k2] == tr0[k2]);
            let j = choose|j: int|
                k1 < j < k2 && ((#[trigger] tr0[j]) is Reverted) && tr0[j]->from.number == n;
            assert(tr1[j] == tr0[j]);
            assert(k1 < j < k2 && (tr1[j] is Reverted) && tr1[j]->from.number == n);
        } else {
            assert(k2 == tr0.len());
            assert(tr1[k2] == ev[0]);
            let b = ev[0]->block;
            assert(b.spec_pointer().number == n);
            assert(!(s0 is Terminated) && !(s0 is Failed));
            if no_descent_after(tr0, k1, n) {
                // then the head would still be at or above n, but the block
                // just added extends a head one below n
                assert(head_of(s0) is Some && head_of(s0)->0 is Some && n <= head_of(
                    s0,
                )->0->0.number);
                assert(b.spec_pointer().number == head_of(s0)->0->0.number + 1);
                assert(false);
            }
            let m0 = choose|m0: int|
                k1 < m0 < tr0.len() && ((#[trigger] tr0[m0]) is Reverted) && tr0[m0]->to.number
                    < n;
            let j = choose|j: int|
                k1 < j <= m0 && ((#[trigger] tr0[j]) is Reverted) && tr0[j]->from.number == n;
            assert(tr1[j] == tr0[j]);
            assert(k1 < j < k2 && (tr1[j] is Reverted) && tr1[j]->from.number == n);
        }
    }
}

/// One step preserves the batch clause.
proof fn lemma_step_batch(p: Seq<Outcome>, x: Outcome)
    requires
        wf(run(p)),
        inv_batch(p),
    ensures
        inv_batch(p.push(x)),
{
    let o = p.push(x);
    lemma_run_push(p, x);
    lemma_head_shape(run(p), x);
    let s0 = run(p);
    let s1 = run(o);
    let tr0 = trace(p);
    let ev = step_events(s0, x);
    let tr1 = trace(o);
    match s1 {
        StateM::RevertBlock { revert_chain: chain1, idx: idx1, .. } => {
            match s0 {
                StateM::CollectRevertChain { .. } => {
                    assert(idx1 == 0);
                    assert(batch_prefix_emitted(tr1, chain1, 0));
                },
                StateM::RevertBlock { .. } => {
                    assert(s1 == s0);
                    assert(ev.len() == 0);
                    assert(tr1 =~= tr0);
                },
                StateM::EmitRevert { revert_chain: chain0, idx: idx0, .. } => {
                    // a pair was just emitted and the sequence moved on
                    assert(chain1 == chain0 && idx1 == idx0 + 1);
                    assert(ev.len() == 1);
                    assert(tr1[tr1.len() - 1] == ev[0]);
                    assert(ev[0] == TraceEvent::Reverted {
                        from: chain0[idx0],
                        to: chain0[idx0 + 1],
                    });
                    assert forall|i: int| 0 <= i < idx1 implies ((#[trigger] tr1[tr1.len() - idx1
                        + i]) is Reverted) && tr1[tr1.len() - idx1 + i]->from == chain1[i]
                        && tr1[tr1.len() - idx1 + i]->to == chain1[i + 1] by {
                        if i < idx0 {
                            assert(tr1[tr1.len() - idx1 + i] == tr0[tr0.len() - idx0 + i]);
                        } else {
                            assert(tr1.len() - idx1 + i == tr1.len() - 1);
                        }
                    }
                },
                _ => {
                    assert(false);
                },
            }
        },
        StateM::EmitRevert { revert_chain: chain1, idx: idx1, .. } => {
            match s0 {
                StateM::RevertBlock { .. } => {
                    assert(ev.len() == 0);
                    assert(tr1 =~= tr0);
                },
                StateM::EmitRevert { .. } => {
                    assert(s1 == s0);
                    assert(ev.len() == 0);
                    assert(tr1 =~= tr0);
                },
                _ => {
                    assert(false);
                },
            }
        },
        _ => {},
    }
}

/// The batch clause holds of every run.
pub proof fn lemma_inv_batch_run(o: Seq<Outcome>)
    ensures
        inv_batch(o),
    decreases o.len(),
{
    if o.len() == 0 {
        assert(run(o) == StateM::Start);
    } else {
        let p = o.drop_last();
        let x = o.last();
        lemma_wf_run(p);
        lemma_inv_batch_run(p);
        assert(p.push(x) =~= o);
        lemma_step_batch(p, x);
    }
}

/// The machine state of every run is well formed.
pub proof fn lemma_wf_run(o: Seq<Outcome>)
    ensures
        wf(run(o)),
    decreases o.len(),
{
    if o.len() > 0 {
        let p = o.drop_last();
        lemma_wf_run(p);
        assert(p.push(o.last()) =~= o);
        lemma_run_push(p, o.last());
        crate::machine::lemma_step_preserves_wf(run(p), o.last());
    }
}

/// The event-shape clauses hold of every run.
pub proof fn lemma_inv_events_run(o: Seq<Outcome>)
    ensures
        inv_events(o),
    decreases o.len(),
{
    if o.len() == 0 {
        assert(trace(o) == Seq::<TraceEvent>::empty());
    } else {
        let p = o.drop_last();
        let x = o.last();
        lemma_wf_run(p);
        lemma_inv_events_run(p);
        assert(p.push(x) =~= o);
        lemma_step_events(p, x);
    }
}

/// The height-tracking clause holds of every run.
pub proof fn lemma_inv_descent_heads_run(o: Seq<Outcome>)
    ensures
        inv_descent_heads(o),
    decreases o.len(),
{
    if o.len() == 0 {
        assert(trace(o) == Seq::<TraceEvent>::empty());
    } else {
        let p = o.drop_last();
        let x = o.last();
        lemma_wf_run(p);
        lemma_inv_events_run(p);
        lemma_inv_descent_heads_run(p);
        assert(p.push(x) =~= o);
        lemma_step_descent_heads(p, x);
    }
}

/// The first-descent clause holds of every run.
pub proof fn lemma_inv_descent_first_run(o: Seq<Outcome>)
    ensures
        inv_descent_first(o),
    decreases o.len(),
{
    if o.len() == 0 {
        assert(trace(o) == Seq::<TraceEvent>::empty());
    } else {
        let p = o.drop_last();
        let x = o.last();
        lemma_wf_run(p);
        lemma_inv_descent_heads_run(p);
        lemma_inv_descent_first_run(p);
        assert(p.push(x) =~= o);
        lemma_step_descent_first(p, x);
    }
}

/// The duplicate-add clause holds of every run.
#[verifier::rlimit(100)]
#[verifier::spinoff_prover]
pub proof fn lemma_inv_descent_dups_run(o: Seq<Outcome>)
    ensures
        inv_descent_dups(o),
    decreases o.len(),
{
    if o.len() == 0 {
        assert(trace(o) == Seq::<TraceEvent>::empty());
    } else {
        let p = o.drop_last();
        let x = o.last();
        lemma_wf_run(p);
        lemma_inv_descent_heads_run(p);
        lemma_inv_descent_first_run(p);
        lemma_inv_descent_dups_run(p);
        assert(p.push(x) =~= o);
        lemma_step_descent_dups(p, x);
    }
}

/// The run invariant holds of every outcome sequence.
pub proof fn lemma_inv(o: Seq<Outcome>)
    ensures
        inv(o),
    decreases o.len(),
{
    if o.len() == 0 {
        assert(run(o) == StateM::Start);
        assert(trace(o) == Seq::<TraceEvent>::empty());
    } else {
        let p = o.drop_last();
        let x = o.last();
        lemma_inv(p);
        assert(p.push(x) =~= o);
        lemma_run_push(p, x);
        crate::machine::lemma_step_preserves_wf(run(p), x);
        lemma_step_events(p, x);
        lemma_step_heads(p, x);
        lemma_step_pairs(p, x);
        lemma_step_witnesses(p, x);
    }
}

/// Chain contiguity. Between any two consecutive `AddBlock` emissions with
/// no other emission in between, the later block names the earlier one as
/// its parent and sits one height above it: the added blocks form a
/// parent-linked chain, broken only where a `Revert` stands.
pub proof fn law_adds_parent_linked(o: Seq<Outcome>, k1: int, k2: int)
    requires
        0 <= k1 < k2 < trace(o).len(),
        trace(o)[k1] is Added,
        trace(o)[k2] is Added,
        no_event_between(trace(o), k1, k2),
    ensures
        trace(o)[k2]->block.spec_parent_pointer() == Some(trace(o)[k1]->block.spec_pointer()),
        trace(o)[k2]->block.spec_pointer().number == trace(o)[k1]->block.spec_pointer().number
            + 1,
{
    lemma_inv(o);
    let b2 = trace(o)[k2]->block;
    assert(b2.spec_parent_pointer() is Some);
    assert(b2.number->0 != 0);
}

/// Monotone extension between reverts. Between any two `AddBlock` emissions
/// with no `Revert` in between, block numbers strictly increase.
pub proof fn law_monotone_adds(o: Seq<Outcome>, k1: int, k2: int)
    requires
        0 <= k1 < k2 < trace(o).len(),
        trace(o)[k1] is Added,
        trace(o)[k2] is Added,
        no_revert_between(trace(o), k1, k2),
    ensures
        trace(o)[k1]->block.spec_pointer().number < trace(o)[k2]->block.spec_pointer().number,
{
    lemma_inv(o);
}

/// No duplicate adds. The same pointer is never emitted as `AddBlock`
/// twice unless a `Revert` stands between the two emissions.
pub proof fn law_no_duplicate_add(o: Seq<Outcome>, k1: int, k2: int)
    requires
        0 <= k1 < k2 < trace(o).len(),
        trace(o)[k1] is Added,
        trace(o)[k2] is Added,
        trace(o)[k1]->block.spec_pointer() == trace(o)[k2]->block.spec_pointer(),
    ensures
        !no_revert_between(trace(o), k1, k2),
{
    if no_revert_between(trace(o), k1, k2) {
        law_monotone_adds(o, k1, k2);
    }
}

/// No duplicate adds, sharpened: between two `AddBlock` emissions at the
/// same height stands a `Revert` that starts exactly at that height — the
/// revert that undid the first of the two blocks.
pub proof fn law_duplicate_add_is_reverted(o: Seq<Outcome>, k1: int, k2: int)
    requires
        0 <= k1 < k2 < trace(o).len(),
        trace(o)[k1] is Added,
        trace(o)[k2] is Added,
        trace(o)[k1]->block.spec_pointer() == trace(o)[k2]->block.spec_pointer(),
    ensures
        exists|j: int|
            k1 < j < k2 && ((#[trigger] trace(o)[j]) is Reverted) && trace(o)[j]->from.number
                == trace(o)[k1]->block.spec_pointer().number,
{
    lemma_inv_descent_dups_run(o);
}

/// Reverts unwind one block at a time: every emitted `Revert { from, to }`
/// has `from` exactly one block above `to`, so a reorg of depth `d` emits
/// `d` reverts in descending height order.
pub proof fn law_revert_steps_down(o: Seq<Outcome>, k: int)
    requires
        0 <= k < trace(o).len(),
        trace(o)[k] is Reverted,
    ensures
        trace(o)[k]->from.number == trace(o)[k]->to.number + 1,
{
    lemma_inv(o);
}

/// The fork base is never reverted: while a revert sequence runs, every
/// pair it reverts (the pairs of consecutive entries of the revert chain)
/// has a `from` strictly above the fork base, the chain's last entry.
pub proof fn law_fork_base_not_reverted(o: Seq<Outcome>)
    ensures
        run(o) matches StateM::RevertBlock { revert_chain, .. } ==> (forall|i: int|
            0 <= i < revert_chain.len() - 1 ==> (#[trigger] revert_chain[i]).number
                > revert_chain.last().number),
        run(o) matches StateM::EmitRevert { revert_chain, .. } ==> (forall|i: int|
            0 <= i < revert_chain.len() - 1 ==> (#[trigger] revert_chain[i]).number
                > revert_chain.last().number),
{
    lemma_inv(o);
}

/// Revert symmetry. At the step that completes a revert sequence and moves
/// the head down to the fork base, the events at the end of the trace are
/// exactly the reverts of the whole sequence, in order: they unwind, one
/// block at a time, precisely the span from the old head down to the fork
/// base, which itself stays.
pub proof fn law_completed_batch_covers_span(o: Seq<Outcome>, x: Outcome)
    requires
        run(o) is EmitRevert,
        x matches Outcome::Sent(Ok(())),
    ensures
        run(o) matches StateM::EmitRevert { local_head, revert_chain, idx, .. } ==> (idx + 2
            == revert_chain.len() ==> ({
            let tr = trace(o.push(x));
            let depth = revert_chain.len() - 1;
            &&& tr.len() >= depth
            &&& (forall|i: int|
                0 <= i < depth ==> ((#[trigger] tr[tr.len() - depth + i]) is Reverted) && tr[
                    tr.len() - depth + i
                ]->from == revert_chain[i] && tr[tr.len() - depth + i]->to == revert_chain[i
                    + 1])
            &&& revert_chain[0] == local_head
            &&& head_of(run(o.push(x))) == Some(Some(revert_chain.last()))
        })),
{
    lemma_wf_run(o);
    lemma_inv_batch_run(o);
    lemma_run_push(o, x);
    match run(o) {
        StateM::EmitRevert { revert_chain, idx, .. } => {
            if idx + 2 == revert_chain.len() {
                let tr0 = trace(o);
                let tr = trace(o.push(x));
                let ev = step_events(run(o), x);
                let depth = revert_chain.len() - 1;
                assert(tr[tr.len() - 1] == ev[0]);
                assert(ev[0] == TraceEvent::Reverted {
                    from: revert_chain[idx],
                    to: revert_chain[idx + 1],
                });
                assert(revert_chain.last() == revert_chain[idx + 1]);
                assert forall|i: int| 0 <= i < depth implies ((#[trigger] tr[tr.len() - depth
                    + i]) is Reverted) && tr[tr.len() - depth + i]->from == revert_chain[i] && tr[
                    tr.len() - depth + i
                ]->to == revert_chain[i + 1] by {
                    if i < idx {
                        assert(tr[tr.len() - depth + i] == tr0[tr0.len() - idx + i]);
                    } else {
                        assert(tr.len() - depth + i == tr.len() - 1);
                    }
                }
            }
        },
        _ => {},
    }
}

/// Durability before emission, adds. Every emitted `AddBlock` was preceded
/// by a successful durable write of exactly that block.
pub proof fn law_durability_add(o: Seq<Outcome>, k: int)
    requires
        0 <= k < trace(o).len(),
        trace(o)[k] is Added,
    ensures
        has_write_witness(o, trace(o)[k]->block),
{
    lemma_inv(o);
}

/// Durability before emission, reverts. Every emitted `Revert { from, to }`
/// was preceded by a successful atomic store revert from `from` to `to`.
pub proof fn law_durability_revert(o: Seq<Outcome>, k: int)
    requires
        0 <= k < trace(o).len(),
        trace(o)[k] is Reverted,
    ensures
        has_revert_witness(o, trace(o)[k]->from, trace(o)[k]->to),
{
    lemma_inv(o);
}

/// The trace records exactly what was sent: a step emits an event only when
/// the machine's pending effect was to send that very event downstream, and
/// the send succeeded.
pub proof fn law_events_are_the_sends(s: StateM, o: Outcome)
    requires
        step_events(s, o).len() > 0,
    ensures
        step_events(s, o).len() == 1,
        crate::machine::spec_effect(s) == (crate::machine::Effect::Emit {
            event: event_of(step_events(s, o)[0]),
        }),
        (o matches Outcome::Sent(r) && r is Ok),
{
}

/// The local head moves down only through a revert: whenever a step lowers
/// the head, that step emitted a `Revert` whose `to` is the new head, one
/// block below its `from`.
pub proof fn law_head_descends_only_by_revert(s0: StateM, x: Outcome)
    requires
        wf(s0),
        head_of(s0) is Some,
        head_of(s0)->0 is Some,
        head_of(spec_step(s0, x)) is Some,
        head_of(spec_step(s0, x))->0 is Some,
        head_of(spec_step(s0, x))->0->0.number < head_of(s0)->0->0.number,
    ensures
        step_events(s0, x).len() == 1,
        step_events(s0, x)[0] is Reverted,
        step_events(s0, x)[0]->to == head_of(spec_step(s0, x))->0->0,
        step_events(s0, x)[0]->from.number == head_of(spec_step(s0, x))->0->0.number + 1,
{
    lemma_head_shape(s0, x);
    match s0 {
        StateM::EmitRevert { revert_chain, idx, .. } => {
            match x {
                Outcome::Sent(Ok(())) => {
                    assert(revert_chain[idx].number as int == revert_chain[0].number - idx);
                    assert(revert_chain[idx + 1].number as int == revert_chain[0].number - idx
                        - 1);
                    if idx + 2 == revert_chain.len() {
                        assert(revert_chain.last() == revert_chain[idx + 1]);
                    }
                },
                _ => {},
            }
        },
        _ => {},
    }
}

/// Clean shutdown. When the downstream consumer goes away, the machine
/// terminates at once, from any state that has not already failed, and
/// emits nothing further.
pub proof fn law_closed_terminates(s: StateM)
    ensures
        !(s is Failed) ==> spec_step(s, Outcome::Closed) is Terminated,
        s is Failed ==> spec_step(s, Outcome::Closed) is Failed,
        step_events(s, Outcome::Closed) == Seq::<TraceEvent>::empty(),
{
}

} // verus!
