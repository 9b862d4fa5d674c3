//! The indexer state machine.
//!
//! The machine is a pure transition system. At any moment it is in a
//! [`State`]; [`State::effect`] names the one external operation the driver
//! must perform next (poll the chain head, pull a block from the current
//! range stream, write a block, emit an event, ...), and [`State::step`]
//! consumes the [`Outcome`] of that operation and moves to the next state.
//! The driver performs the operations but takes no decision of its own:
//! every decision the indexer makes is in [`spec_step`], which `step` is
//! proved to implement exactly.
//!
//! Before performing an effect the driver checks that the downstream event
//! channel is still open; if it is closed, it hands the machine
//! [`Outcome::Closed`] instead, and the machine terminates cleanly. This
//! mirrors the channel-readiness check at the top of every state of the
//! indexer's lifecycle.
//!
//! Streams are never cloned: the prefetched blocks carried across reorg
//! handling live in the `pending` stack (next block last), and the machine
//! pulls from the driver's range stream only when that stack is empty. On
//! every error path the machine returns to `PollChainHead` and discards both.

use vstd::prelude::*;

use crate::event::NetworkIndexerEvent;
use crate::types::Block;
use crate::types::BlockHash;
use crate::types::BlockPointer;
use crate::types::LightBlock;
use crate::types::option_pointer_eq;

verus! {

/// The largest number of blocks fetched as one range: bounds the in-memory
/// buffer and the latency between reorg checks.
pub const MAX_RANGE_SIZE: u64 = 1000;

/// The external operation the driver must perform next.
#[derive(Clone, Copy, Debug, PartialEq)]
pub enum Effect {
    /// Nothing to await: hand back `Outcome::Proceed` (after the usual check
    /// that the downstream channel is open).
    Proceed,
    /// The machine has terminated; stop driving it.
    Halt,
    /// Read the local head pointer of this deployment from the store.
    ReadLocalHead,
    /// Ask the adapter for the latest block on the network.
    PollHead,
    /// Replace the current range stream by one that fetches the blocks
    /// `from, from + 1, ..., from + size - 1`, in ascending order, with
    /// bounded fan-out; then hand back `Outcome::Proceed`.
    StartFetchRange { from: u64, size: u64 },
    /// Pull the next item from the current range stream.
    PullBlock,
    /// Look up whether the store holds a block entity for this pointer.
    CheckStore { ptr: BlockPointer },
    /// Fetch the block with this hash (with its uncles) from the adapter.
    FetchByHash { hash: BlockHash },
    /// Read the block entity for this pointer from the store and hand back
    /// its `parent` field, parsed from hex.
    ReadParent { ptr: BlockPointer },
    /// Atomically revert the store from `from` to `to`.
    RevertOp { from: BlockPointer, to: BlockPointer },
    /// Write the block (with its uncles) durably to the store.
    Write { block: Block },
    /// Send the event on the downstream channel.
    Emit { event: NetworkIndexerEvent },
}

/// The result of the operation the machine asked for. A unit error stands
/// for any upstream or store failure: the machine's decisions never depend
/// on the failure's detail, only on where it happened.
#[derive(Clone, Copy, Debug, PartialEq)]
pub enum Outcome {
    /// There was nothing to await.
    Proceed,
    /// The downstream channel is closed: the consumer is gone.
    Closed,
    /// The local head read finished.
    LocalHead(Result<Option<BlockPointer>, ()>),
    /// The chain head poll finished.
    ChainHead(Result<LightBlock, ()>),
    /// The range stream is exhausted.
    NoMoreBlocks,
    /// The remote had no block for the next number in the range.
    BlockGap,
    /// The next block of the range stream.
    NextBlock(Block),
    /// The range stream failed.
    StreamFailed,
    /// Whether the store holds the block the machine asked about.
    StoreHas(Result<bool, ()>),
    /// The fetch of a forked block's parent finished; `None` means the
    /// remote does not know the claimed parent hash.
    ParentBlock(Result<Option<Block>, ()>),
    /// The `parent` field of a stored block, parsed from hex; `None` means
    /// the entity is missing, or its `parent` field is absent or not a
    /// valid 32-byte hash.
    ParentField(Result<Option<BlockHash>, ()>),
    /// The atomic store revert finished.
    Reverted(Result<(), ()>),
    /// The block write finished.
    Written(Result<(), ()>),
    /// The downstream send finished; an error means the consumer went away
    /// before taking the event.
    Sent(Result<(), ()>),
}

/// A state of the machine. Each state's one pending operation is given by
/// [`State::effect`].
pub enum State {
    /// Entry state.
    Start,
    /// Awaiting the local head pointer from the store.
    LoadLocalHead,
    /// Awaiting a chain head light block from the adapter.
    PollChainHead { local_head: Option<BlockPointer> },
    /// Asking the driver to start fetching the range
    /// `[from, from + size)`.
    FetchBlocks {
        local_head: Option<BlockPointer>,
        chain_head: BlockPointer,
        from: u64,
        size: u64,
    },
    /// Taking the next block: from the `pending` stack (next block last)
    /// while it is not empty, else from the range stream.
    ProcessBlocks {
        local_head: Option<BlockPointer>,
        chain_head: BlockPointer,
        pending: Vec<Block>,
    },
    /// Deciding what to do with an incoming block: drop the stream on an
    /// invalid or stale block, write it if it extends the local head, else
    /// start reorg handling.
    VetBlock {
        local_head: Option<BlockPointer>,
        chain_head: BlockPointer,
        pending: Vec<Block>,
        block: Block,
    },
    /// Walking the new branch backwards: awaiting the store lookup that
    /// says whether the newest collected block (`forked` holds the branch,
    /// newest first) is already indexed, which would make it the fork base.
    FetchForkedBlocks {
        local_head: BlockPointer,
        chain_head: BlockPointer,
        pending: Vec<Block>,
        forked: Vec<Block>,
    },
    /// Awaiting the fetch of the parent of the oldest collected forked
    /// block.
    FetchForkedParent {
        local_head: BlockPointer,
        chain_head: BlockPointer,
        pending: Vec<Block>,
        forked: Vec<Block>,
    },
    /// Walking the local chain down from the old head: awaiting the stored
    /// `parent` field of the newest block in `revert_chain` (oldest last),
    /// until the fork base is reached.
    CollectRevertChain {
        local_head: BlockPointer,
        chain_head: BlockPointer,
        pending: Vec<Block>,
        revert_chain: Vec<BlockPointer>,
        fork_base: BlockPointer,
    },
    /// Awaiting the atomic store revert from `revert_chain[idx]` to
    /// `revert_chain[idx + 1]`.
    RevertBlock {
        local_head: BlockPointer,
        chain_head: BlockPointer,
        pending: Vec<Block>,
        revert_chain: Vec<BlockPointer>,
        idx: usize,
    },
    /// Awaiting the downstream send of the `Revert` event for the pair just
    /// reverted in the store.
    EmitRevert {
        local_head: BlockPointer,
        chain_head: BlockPointer,
        pending: Vec<Block>,
        revert_chain: Vec<BlockPointer>,
        idx: usize,
    },
    /// Awaiting the durable write of a block that extends the local head.
    WriteBlock {
        local_head: Option<BlockPointer>,
        chain_head: BlockPointer,
        pending: Vec<Block>,
        block: Block,
    },
    /// Awaiting the downstream send of the `AddBlock` event for the block
    /// just written; `local_head` still holds the pre-write head in case
    /// the send fails.
    EmitAddBlock {
        local_head: Option<BlockPointer>,
        chain_head: BlockPointer,
        pending: Vec<Block>,
        block: Block,
    },
    /// Clean shutdown: the downstream consumer went away.
    Terminated,
    /// Fatal: the initial local head could not be read, the store is
    /// broken. The supervising process should restart the indexer.
    Failed,
}

/// The mathematical model of a [`State`]: the same shape over `Seq` and
/// `int`.
pub enum StateM {
    Start,
    LoadLocalHead,
    PollChainHead { local_head: Option<BlockPointer> },
    FetchBlocks {
        local_head: Option<BlockPointer>,
        chain_head: BlockPointer,
        from: u64,
        size: u64,
    },
    ProcessBlocks {
        local_head: Option<BlockPointer>,
        chain_head: BlockPointer,
        pending: Seq<Block>,
    },
    VetBlock {
        local_head: Option<BlockPointer>,
        chain_head: BlockPointer,
        pending: Seq<Block>,
        block: Block,
    },
    FetchForkedBlocks {
        local_head: BlockPointer,
        chain_head: BlockPointer,
        pending: Seq<Block>,
        forked: Seq<Block>,
    },
    FetchForkedParent {
        local_head: BlockPointer,
        chain_head: BlockPointer,
        pending: Seq<Block>,
        forked: Seq<Block>,
    },
    CollectRevertChain {
        local_head: BlockPointer,
        chain_head: BlockPointer,
        pending: Seq<Block>,
        revert_chain: Seq<BlockPointer>,
        fork_base: BlockPointer,
    },
    RevertBlock {
        local_head: BlockPointer,
        chain_head: BlockPointer,
        pending: Seq<Block>,
        revert_chain: Seq<BlockPointer>,
        idx: int,
    },
    EmitRevert {
        local_head: BlockPointer,
        chain_head: BlockPointer,
        pending: Seq<Block>,
        revert_chain: Seq<BlockPointer>,
        idx: int,
    },
    WriteBlock {
        local_head: Option<BlockPointer>,
        chain_head: BlockPointer,
        pending: Seq<Block>,
        block: Block,
    },
    EmitAddBlock {
        local_head: Option<BlockPointer>,
        chain_head: BlockPointer,
        pending: Seq<Block>,
        block: Block,
    },
    Terminated,
    Failed,
}

impl View for State {
    type V = StateM;

    open spec fn view(&self) -> StateM {
        match self {
            State::Start => StateM::Start,
            State::LoadLocalHead => StateM::LoadLocalHead,
            State::PollChainHead { local_head } => StateM::PollChainHead {
                local_head: *local_head,
            },
            State::FetchBlocks { local_head, chain_head, from, size } => StateM::FetchBlocks {
                local_head: *local_head,
                chain_head: *chain_head,
                from: *from,
                size: *size,
            },
            State::ProcessBlocks { local_head, chain_head, pending } => StateM::ProcessBlocks {
                local_head: *local_head,
                chain_head: *chain_head,
                pending: pending@,
            },
            State::VetBlock { local_head, chain_head, pending, block } => StateM::VetBlock {
                local_head: *local_head,
                chain_head: *chain_head,
                pending: pending@,
                block: *block,
            },
            State::FetchForkedBlocks {
                local_head,
                chain_head,
                pending,
                forked,
            } => StateM::FetchForkedBlocks {
                local_head: *local_head,
                chain_head: *chain_head,
                pending: pending@,
                forked: forked@,
            },
            State::FetchForkedParent {
                local_head,
                chain_head,
                pending,
                forked,
            } => StateM::FetchForkedParent {
                local_head: *local_head,
                chain_head: *chain_head,
                pending: pending@,
                forked: forked@,
            },
            State::CollectRevertChain {
                local_head,
                chain_head,
                pending,
                revert_chain,
                fork_base,
            } => StateM::CollectRevertChain {
                local_head: *local_head,
                chain_head: *chain_head,
                pending: pending@,
                revert_chain: revert_chain@,
                fork_base: *fork_base,
            },
            State::RevertBlock {
                local_head,
                chain_head,
                pending,
                revert_chain,
                idx,
            } => StateM::RevertBlock {
                local_head: *local_head,
                chain_head: *chain_head,
                pending: pending@,
                revert_chain: revert_chain@,
                idx: *idx as int,
            },
            State::EmitRevert {
                local_head,
                chain_head,
                pending,
                revert_chain,
                idx,
            } => StateM::EmitRevert {
                local_head: *local_head,
                chain_head: *chain_head,
                pending: pending@,
                revert_chain: revert_chain@,
                idx: *idx as int,
            },
            State::WriteBlock { local_head, chain_head, pending, block } => StateM::WriteBlock {
                local_head: *local_head,
                chain_head: *chain_head,
                pending: pending@,
                block: *block,
            },
            State::EmitAddBlock { local_head, chain_head, pending, block } => StateM::EmitAddBlock {
                local_head: *local_head,
                chain_head: *chain_head,
                pending: pending@,
                block: *block,
            },
            State::Terminated => StateM::Terminated,
            State::Failed => StateM::Failed,
        }
    }
}

/// The number of the local head, or 0 while the store is empty: the bound
/// below which an incoming block counts as stale.
pub open spec fn head_number(local_head: Option<BlockPointer>) -> u64 {
    match local_head {
        Some(h) => h.number,
        None => 0,
    }
}

/// Well-formedness of a machine state. `State::Start` is well formed, and
/// every step preserves well-formedness, so the driver only ever holds well
/// formed states.
pub open spec fn wf(s: StateM) -> bool {
    match s {
        StateM::FetchForkedBlocks { forked, .. } => forked.len() >= 1 && (forall|i: int|
            0 <= i < forked.len() ==> (#[trigger] forked[i]).is_valid()),
        StateM::FetchForkedParent { forked, .. } => forked.len() >= 1 && (forall|i: int|
            0 <= i < forked.len() ==> (#[trigger] forked[i]).is_valid()),
        StateM::CollectRevertChain { local_head, revert_chain, fork_base, .. } => {
            &&& revert_chain.len() >= 1
            &&& revert_chain[0] == local_head
            &&& revert_chain.last() != fork_base
            &&& descending(revert_chain)
        },
        StateM::RevertBlock { local_head, revert_chain, idx, .. } => {
            &&& revert_chain.len() >= 2
            &&& 0 <= idx && idx + 1 < revert_chain.len()
            &&& revert_chain[0] == local_head
            &&& descending(revert_chain)
        },
        StateM::EmitRevert { local_head, revert_chain, idx, .. } => {
            &&& revert_chain.len() >= 2
            &&& 0 <= idx && idx + 1 < revert_chain.len()
            &&& revert_chain[0] == local_head
            &&& descending(revert_chain)
        },
        StateM::WriteBlock { local_head, block, .. } => block.is_valid()
            && block.spec_parent_pointer() == local_head,
        StateM::EmitAddBlock { local_head, block, .. } => block.is_valid()
            && block.spec_parent_pointer() == local_head,
        _ => true,
    }
}

/// The numbers along a revert chain descend by exactly one per step: entry
/// `i` points at the block `i` levels below the old local head.
pub open spec fn descending(chain: Seq<BlockPointer>) -> bool {
    forall|i: int|
        0 <= i < chain.len() ==> (#[trigger] chain[i]).number as int == chain[0].number - i
}

/// What `VetBlock` decides for an incoming block.
///
/// An invalid block, or one older than the local head, drops the stream and
/// re-polls the chain head. A block whose parent pointer equals the local
/// head (for genesis: an empty local head) extends the chain and is
/// written. Anything else is a reorg, and the walk back along the new
/// branch starts — the prefetched stream is carried across it, because the
/// blocks after this one are likely to be valid successors once the reorg
/// is reconciled. A reorg without a local head cannot be handled (there is
/// nothing to revert); it can only arise from a remote that numbers its
/// blocks inconsistently, and is treated as one more reason to re-poll.
pub open spec fn vet_decision(
    local_head: Option<BlockPointer>,
    chain_head: BlockPointer,
    pending: Seq<Block>,
    block: Block,
) -> StateM {
    if !block.is_valid() {
        StateM::PollChainHead { local_head }
    } else if block.spec_pointer().number < head_number(local_head) {
        StateM::PollChainHead { local_head }
    } else if block.spec_parent_pointer() == local_head {
        StateM::WriteBlock { local_head, chain_head, pending, block }
    } else {
        match local_head {
            Some(h) => StateM::FetchForkedBlocks {
                local_head: h,
                chain_head,
                pending,
                forked: seq![block],
            },
            None => StateM::PollChainHead { local_head: None },
        }
    }
}

/// What `PollChainHead` decides once a valid chain head `C` is in hand:
/// fetch the range of `min(C.number + 1 - next, 1000)` blocks starting at
/// `next`, the number after the local head (0 while the store is empty).
/// When the remote reports a head below the local head, there is nothing to
/// fetch and the range is empty.
pub open spec fn range_decision(
    local_head: Option<BlockPointer>,
    chain_head: BlockPointer,
) -> StateM {
    if local_head is Some && head_number(local_head) == u64::MAX {
        StateM::PollChainHead { local_head }
    } else {
        let next = if local_head is Some {
            (head_number(local_head) + 1) as u64
        } else {
            0u64
        };
        let size = if chain_head.number >= next {
            (if chain_head.number - next >= MAX_RANGE_SIZE - 1 {
                MAX_RANGE_SIZE
            } else {
                (chain_head.number - next + 1) as u64
            })
        } else {
            0u64
        };
        StateM::FetchBlocks { local_head, chain_head, from: next, size }
    }
}

/// The transition function of the machine: the next state, given the
/// current one and the outcome of its pending effect.
///
/// An outcome of a kind the current state's effect cannot produce leaves
/// the state unchanged. `Closed` terminates the machine from every
/// non-terminal state. Every failure of an external operation other than
/// the initial local-head read returns to `PollChainHead`, keeping the last
/// durable local head and discarding the prefetched stream.
pub open spec fn spec_step(s: StateM, o: Outcome) -> StateM {
    if s is Terminated {
        StateM::Terminated
    } else if s is Failed {
        StateM::Failed
    } else if o is Closed {
        StateM::Terminated
    } else {
        match s {
            StateM::Start => if o is Proceed {
                StateM::LoadLocalHead
            } else {
                s
            },
            StateM::LoadLocalHead => match o {
                Outcome::LocalHead(Ok(local_head)) => StateM::PollChainHead { local_head },
                Outcome::LocalHead(Err(_)) => StateM::Failed,
                _ => s,
            },
            StateM::PollChainHead { local_head } => match o {
                Outcome::ChainHead(Ok(lb)) => if lb.is_valid() {
                    range_decision(local_head, lb.spec_pointer())
                } else {
                    StateM::PollChainHead { local_head }
                },
                Outcome::ChainHead(Err(_)) => StateM::PollChainHead { local_head },
                _ => s,
            },
            StateM::FetchBlocks { local_head, chain_head, .. } => match o {
                Outcome::Proceed => StateM::ProcessBlocks {
                    local_head,
                    chain_head,
                    pending: Seq::empty(),
                },
                _ => s,
            },
            StateM::ProcessBlocks { local_head, chain_head, pending } => if pending.len() > 0 {
                match o {
                    Outcome::Proceed => StateM::VetBlock {
                        local_head,
                        chain_head,
                        pending: pending.drop_last(),
                        block: pending.last(),
                    },
                    _ => s,
                }
            } else {
                match o {
                    Outcome::NoMoreBlocks => StateM::PollChainHead { local_head },
                    Outcome::BlockGap => StateM::PollChainHead { local_head },
                    Outcome::StreamFailed => StateM::PollChainHead { local_head },
                    Outcome::NextBlock(block) => StateM::VetBlock {
                        local_head,
                        chain_head,
                        pending,
                        block,
                    },
                    _ => s,
                }
            },
            StateM::VetBlock { local_head, chain_head, pending, block } => match o {
                Outcome::Proceed => vet_decision(local_head, chain_head, pending, block),
                _ => s,
            },
            StateM::FetchForkedBlocks { local_head, chain_head, pending, forked } => match o {
                Outcome::StoreHas(Ok(true)) => {
                    let fork_base = forked.last().spec_pointer();
                    let pending2 = pending + forked.drop_last();
                    if local_head == fork_base {
                        StateM::ProcessBlocks {
                            local_head: Some(local_head),
                            chain_head,
                            pending: pending2,
                        }
                    } else {
                        StateM::CollectRevertChain {
                            local_head,
                            chain_head,
                            pending: pending2,
                            revert_chain: seq![local_head],
                            fork_base,
                        }
                    }
                },
                Outcome::StoreHas(Ok(false)) => StateM::FetchForkedParent {
                    local_head,
                    chain_head,
                    pending,
                    forked,
                },
                Outcome::StoreHas(Err(_)) => StateM::PollChainHead {
                    local_head: Some(local_head),
                },
                _ => s,
            },
            StateM::FetchForkedParent { local_head, chain_head, pending, forked } => match o {
                Outcome::ParentBlock(Ok(Some(parent))) => if parent.is_valid() {
                    StateM::FetchForkedBlocks {
                        local_head,
                        chain_head,
                        pending,
                        forked: forked.push(parent),
                    }
                } else {
                    StateM::PollChainHead { local_head: Some(local_head) }
                },
                Outcome::ParentBlock(Ok(None)) => StateM::PollChainHead {
                    local_head: Some(local_head),
                },
                Outcome::ParentBlock(Err(_)) => StateM::PollChainHead {
                    local_head: Some(local_head),
                },
                _ => s,
            },
            StateM::CollectRevertChain {
                local_head,
                chain_head,
                pending,
                revert_chain,
                fork_base,
            } => match o {
                Outcome::ParentField(Ok(Some(parent_hash))) => {
                    let last = revert_chain.last();
                    if last.number == 0 {
                        StateM::PollChainHead { local_head: Some(local_head) }
                    } else {
                        let parent = BlockPointer {
                            number: (last.number - 1) as u64,
                            hash: parent_hash,
                        };
                        let chain2 = revert_chain.push(parent);
                        if parent == fork_base {
                            StateM::RevertBlock {
                                local_head,
                                chain_head,
                                pending,
                                revert_chain: chain2,
                                idx: 0,
                            }
                        } else {
                            StateM::CollectRevertChain {
                                local_head,
                                chain_head,
                                pending,
                                revert_chain: chain2,
                                fork_base,
                            }
                        }
                    }
                },
                Outcome::ParentField(Ok(None)) => StateM::PollChainHead {
                    local_head: Some(local_head),
                },
                Outcome::ParentField(Err(_)) => StateM::PollChainHead {
                    local_head: Some(local_head),
                },
                _ => s,
            },
            StateM::RevertBlock { local_head, chain_head, pending, revert_chain, idx } => match o {
                Outcome::Reverted(Ok(())) => StateM::EmitRevert {
                    local_head,
                    chain_head,
                    pending,
                    revert_chain,
                    idx,
                },
                Outcome::Reverted(Err(_)) => StateM::PollChainHead {
                    local_head: Some(local_head),
                },
                _ => s,
            },
            StateM::EmitRevert { local_head, chain_head, pending, revert_chain, idx } => match o {
                Outcome::Sent(Ok(())) => if idx + 2 == revert_chain.len() {
                    StateM::ProcessBlocks {
                        local_head: Some(revert_chain.last()),
                        chain_head,
                        pending,
                    }
                } else {
                    StateM::RevertBlock {
                        local_head,
                        chain_head,
                        pending,
                        revert_chain,
                        idx: idx + 1,
                    }
                },
                Outcome::Sent(Err(_)) => StateM::PollChainHead {
                    local_head: Some(local_head),
                },
                _ => s,
            },
            StateM::WriteBlock { local_head, chain_head, pending, block } => match o {
                Outcome::Written(Ok(())) => StateM::EmitAddBlock {
                    local_head,
                    chain_head,
                    pending,
                    block,
                },
                Outcome::Written(Err(_)) => StateM::PollChainHead { local_head },
                _ => s,
            },
            StateM::EmitAddBlock { local_head, chain_head, pending, block } => match o {
                Outcome::Sent(Ok(())) => StateM::ProcessBlocks {
                    local_head: Some(block.spec_pointer()),
                    chain_head,
                    pending,
                },
                Outcome::Sent(Err(_)) => StateM::PollChainHead { local_head },
                _ => s,
            },
            StateM::Terminated => StateM::Terminated,
            StateM::Failed => StateM::Failed,
        }
    }
}

/// The effect pending in a state.
pub open spec fn spec_effect(s: StateM) -> Effect {
    match s {
        StateM::Start => Effect::Proceed,
        StateM::LoadLocalHead => Effect::ReadLocalHead,
        StateM::PollChainHead { .. } => Effect::PollHead,
        StateM::FetchBlocks { from, size, .. } => Effect::StartFetchRange { from, size },
        StateM::ProcessBlocks { pending, .. } => if pending.len() > 0 {
            Effect::Proceed
        } else {
            Effect::PullBlock
        },
        StateM::VetBlock { .. } => Effect::Proceed,
        StateM::FetchForkedBlocks { forked, .. } => Effect::CheckStore {
            ptr: forked.last().spec_pointer(),
        },
        StateM::FetchForkedParent { forked, .. } => Effect::FetchByHash {
            hash: forked.last().parent_hash,
        },
        StateM::CollectRevertChain { revert_chain, .. } => Effect::ReadParent {
            ptr: revert_chain.last(),
        },
        StateM::RevertBlock { revert_chain, idx, .. } => Effect::RevertOp {
            from: revert_chain[idx],
            to: revert_chain[idx + 1],
        },
        StateM::EmitRevert { revert_chain, idx, .. } => Effect::Emit {
            event: NetworkIndexerEvent::Revert {
                from: revert_chain[idx],
                to: revert_chain[idx + 1],
            },
        },
        StateM::WriteBlock { block, .. } => Effect::Write { block },
        StateM::EmitAddBlock { block, .. } => Effect::Emit {
            event: NetworkIndexerEvent::AddBlock(block.spec_pointer()),
        },
        StateM::Terminated => Effect::Halt,
        StateM::Failed => Effect::Halt,
    }
}

/// Every step preserves well-formedness.
pub proof fn lemma_step_preserves_wf(s: StateM, o: Outcome)
    requires
        wf(s),
    ensures
        wf(spec_step(s, o)),
{
    match s {
        StateM::FetchForkedBlocks { local_head, forked, .. } => {
            match o {
                Outcome::StoreHas(Ok(true)) => {
                    let fork_base = forked.last().spec_pointer();
                    if local_head != fork_base {
                        let chain = seq![local_head];
                        assert(descending(chain));
                    }
                },
                _ => {},
            }
        },
        StateM::FetchForkedParent { forked, .. } => {
            match o {
                Outcome::ParentBlock(Ok(Some(parent))) => {
                    if parent.is_valid() {
                        let forked2 = forked.push(parent);
                        assert(forall|i: int|
                            0 <= i < forked2.len() ==> (#[trigger] forked2[i]).is_valid());
                    }
                },
                _ => {},
            }
        },
        StateM::CollectRevertChain { local_head, revert_chain, fork_base, .. } => {
            match o {
                Outcome::ParentField(Ok(Some(parent_hash))) => {
                    let last = revert_chain.last();
                    if last.number != 0 {
                        let parent = BlockPointer {
                            number: (last.number - 1) as u64,
                            hash: parent_hash,
                        };
                        let chain2 = revert_chain.push(parent);
                        assert(last.number as int == chain2[0].number - (revert_chain.len()
                            - 1));
                        assert(descending(chain2)) by {
                            assert(forall|i: int|
                                0 <= i < revert_chain.len() ==> chain2[i]
                                    == #[trigger] revert_chain[i]);
                            assert(chain2[chain2.len() - 1] == parent);
                        }
                    }
                },
                _ => {},
            }
        },
        _ => {},
    }
}

impl State {
    /// The entry state of the machine.
    pub fn initial() -> (s: State)
        ensures
            s@ == StateM::Start,
            wf(s@),
    {
        State::Start
    }

    /// The external operation the driver must perform next.
    pub fn effect(&self) -> (e: Effect)
        requires
            wf(self@),
        ensures
            e == spec_effect(self@),
    {
        match self {
            State::Start => Effect::Proceed,
            State::LoadLocalHead => Effect::ReadLocalHead,
            State::PollChainHead { .. } => Effect::PollHead,
            State::FetchBlocks { from, size, .. } => Effect::StartFetchRange {
                from: *from,
                size: *size,
            },
            State::ProcessBlocks { pending, .. } => if pending.len() > 0 {
                Effect::Proceed
            } else {
                Effect::PullBlock
            },
            State::VetBlock { .. } => Effect::Proceed,
            State::FetchForkedBlocks { forked, .. } => {
                let last = forked[forked.len() - 1];
                match last.pointer() {
                    Some(ptr) => Effect::CheckStore { ptr },
                    None => unreached(),
                }
            },
            State::FetchForkedParent { forked, .. } => {
                let last = forked[forked.len() - 1];
                Effect::FetchByHash { hash: last.parent_hash }
            },
            State::CollectRevertChain { revert_chain, .. } => Effect::ReadParent {
                ptr: revert_chain[revert_chain.len() - 1],
            },
            State::RevertBlock { revert_chain, idx, .. } => {
                let n = revert_chain.len();
                proof {
                    assert(*idx as int + 1 < n as int);
                }
                Effect::RevertOp { from: revert_chain[*idx], to: revert_chain[*idx + 1] }
            },
            State::EmitRevert { revert_chain, idx, .. } => {
                let n = revert_chain.len();
                proof {
                    assert(*idx as int + 1 < n as int);
                }
                Effect::Emit {
                    event: NetworkIndexerEvent::Revert {
                        from: revert_chain[*idx],
                        to: revert_chain[*idx + 1],
                    },
                }
            },
            State::WriteBlock { block, .. } => Effect::Write { block: *block },
            State::EmitAddBlock { block, .. } => {
                match block.pointer() {
                    Some(ptr) => Effect::Emit { event: NetworkIndexerEvent::AddBlock(ptr) },
                    None => unreached(),
                }
            },
            State::Terminated => Effect::Halt,
            State::Failed => Effect::Halt,
        }
    }

    /// Performs one transition: consumes the outcome of the pending effect
    /// and moves to the next state, exactly as [`spec_step`] says.
    pub fn step(self, o: Outcome) -> (r: State)
        requires
            wf(self@),
        ensures
            r@ == spec_step(self@, o),
            wf(r@),
    {
        proof {
            lemma_step_preserves_wf(self@, o);
        }
        match &self {
            State::Terminated => {
                return State::Terminated;
            },
            State::Failed => {
                return State::Failed;
            },
            _ => {},
        }
        if matches!(o, Outcome::Closed) {
            return State::Terminated;
        }
        match self {
            State::Start => match o {
                Outcome::Proceed => State::LoadLocalHead,
                _ => State::Start,
            },
            State::LoadLocalHead => match o {
                Outcome::LocalHead(Ok(local_head)) => State::PollChainHead { local_head },
                Outcome::LocalHead(Err(())) => State::Failed,
                _ => State::LoadLocalHead,
            },
            State::PollChainHead { local_head } => match o {
                Outcome::ChainHead(Ok(lb)) => match lb.pointer() {
                    Some(chain_head) => Self::decide_range(local_head, chain_head),
                    None => State::PollChainHead { local_head },
                },
                Outcome::ChainHead(Err(())) => State::PollChainHead { local_head },
                _ => State::PollChainHead { local_head },
            },
            State::FetchBlocks { local_head, chain_head, from, size } => match o {
                Outcome::Proceed => State::ProcessBlocks {
                    local_head,
                    chain_head,
                    pending: Vec::new(),
                },
                _ => State::FetchBlocks { local_head, chain_head, from, size },
            },
            State::ProcessBlocks { local_head, chain_head, mut pending } => {
                if pending.len() > 0 {
                    match o {
                        Outcome::Proceed => {
                            let ghost pending0 = pending@;
                            let block = match pending.pop() {
                                Some(b) => b,
                                None => unreached(),
                            };
                            proof {
                                assert(pending@ =~= pending0.drop_last());
                            }
                            State::VetBlock { local_head, chain_head, pending, block }
                        },
                        _ => State::ProcessBlocks { local_head, chain_head, pending },
                    }
                } else {
                    match o {
                        Outcome::NoMoreBlocks => State::PollChainHead { local_head },
                        Outcome::BlockGap => State::PollChainHead { local_head },
                        Outcome::StreamFailed => State::PollChainHead { local_head },
                        Outcome::NextBlock(block) => State::VetBlock {
                            local_head,
                            chain_head,
                            pending,
                            block,
                        },
                        _ => State::ProcessBlocks { local_head, chain_head, pending },
                    }
                }
            },
            State::VetBlock { local_head, chain_head, pending, block } => match o {
                Outcome::Proceed => Self::vet(local_head, chain_head, pending, block),
                _ => State::VetBlock { local_head, chain_head, pending, block },
            },
            State::FetchForkedBlocks { local_head, chain_head, mut pending, mut forked } => {
                match o {
                    Outcome::StoreHas(Ok(true)) => {
                        let ghost pending0 = pending@;
                        let ghost forked0 = forked@;
                        let fork_base = match forked[forked.len() - 1].pointer() {
                            Some(ptr) => ptr,
                            None => unreached(),
                        };
                        forked.pop();
                        pending.append(&mut forked);
                        proof {
                            assert(pending@ =~= pending0 + forked0.drop_last());
                        }
                        if local_head == fork_base {
                            State::ProcessBlocks {
                                local_head: Some(local_head),
                                chain_head,
                                pending,
                            }
                        } else {
                            let mut revert_chain: Vec<BlockPointer> = Vec::new();
                            revert_chain.push(local_head);
                            proof {
                                assert(revert_chain@ =~= seq![local_head]);
                            }
                            State::CollectRevertChain {
                                local_head,
                                chain_head,
                                pending,
                                revert_chain,
                                fork_base,
                            }
                        }
                    },
                    Outcome::StoreHas(Ok(false)) => State::FetchForkedParent {
                        local_head,
                        chain_head,
                        pending,
                        forked,
                    },
                    Outcome::StoreHas(Err(())) => State::PollChainHead {
                        local_head: Some(local_head),
                    },
                    _ => State::FetchForkedBlocks { local_head, chain_head, pending, forked },
                }
            },
            State::FetchForkedParent { local_head, chain_head, pending, mut forked } => match o {
                Outcome::ParentBlock(Ok(Some(parent))) => {
                    let valid = match parent.pointer() {
                        Some(_) => true,
                        None => false,
                    };
                    if valid {
                        forked.push(parent);
                        State::FetchForkedBlocks { local_head, chain_head, pending, forked }
                    } else {
                        State::PollChainHead { local_head: Some(local_head) }
                    }
                },
                Outcome::ParentBlock(Ok(None)) => State::PollChainHead {
                    local_head: Some(local_head),
                },
                Outcome::ParentBlock(Err(())) => State::PollChainHead {
                    local_head: Some(local_head),
                },
                _ => State::FetchForkedParent { local_head, chain_head, pending, forked },
            },
            State::CollectRevertChain {
                local_head,
                chain_head,
                pending,
                mut revert_chain,
                fork_base,
            } => match o {
                Outcome::ParentField(Ok(Some(parent_hash))) => {
                    let last = revert_chain[revert_chain.len() - 1];
                    if last.number == 0 {
                        State::PollChainHead { local_head: Some(local_head) }
                    } else {
                        let parent = BlockPointer { number: last.number - 1, hash: parent_hash };
                        revert_chain.push(parent);
                        if parent == fork_base {
                            State::RevertBlock {
                                local_head,
                                chain_head,
                                pending,
                                revert_chain,
                                idx: 0,
                            }
                        } else {
                            State::CollectRevertChain {
                                local_head,
                                chain_head,
                                pending,
                                revert_chain,
                                fork_base,
                            }
                        }
                    }
                },
                Outcome::ParentField(Ok(None)) => State::PollChainHead {
                    local_head: Some(local_head),
                },
                Outcome::ParentField(Err(())) => State::PollChainHead {
                    local_head: Some(local_head),
                },
                _ => State::CollectRevertChain {
                    local_head,
                    chain_head,
                    pending,
                    revert_chain,
                    fork_base,
                },
            },
            State::RevertBlock { local_head, chain_head, pending, revert_chain, idx } => match o {
                Outcome::Reverted(Ok(())) => State::EmitRevert {
                    local_head,
                    chain_head,
                    pending,
                    revert_chain,
                    idx,
                },
                Outcome::Reverted(Err(())) => State::PollChainHead {
                    local_head: Some(local_head),
                },
                _ => State::RevertBlock { local_head, chain_head, pending, revert_chain, idx },
            },
            State::EmitRevert { local_head, chain_head, pending, revert_chain, idx } => match o {
                Outcome::Sent(Ok(())) => {
                    let n = revert_chain.len();
                    proof {
                        assert(idx as int + 1 < n as int);
                    }
                    if idx + 2 == n {
                        let fork_base = revert_chain[revert_chain.len() - 1];
                        State::ProcessBlocks { local_head: Some(fork_base), chain_head, pending }
                    } else {
                        State::RevertBlock {
                            local_head,
                            chain_head,
                            pending,
                            revert_chain,
                            idx: idx + 1,
                        }
                    }
                },
                Outcome::Sent(Err(())) => State::PollChainHead {
                    local_head: Some(local_head),
                },
                _ => State::EmitRevert { local_head, chain_head, pending, revert_chain, idx },
            },
            State::WriteBlock { local_head, chain_head, pending, block } => match o {
                Outcome::Written(Ok(())) => State::EmitAddBlock {
                    local_head,
                    chain_head,
                    pending,
                    block,
                },
                Outcome::Written(Err(())) => State::PollChainHead { local_head },
                _ => State::WriteBlock { local_head, chain_head, pending, block },
            },
            State::EmitAddBlock { local_head, chain_head, pending, block } => match o {
                Outcome::Sent(Ok(())) => {
                    let ptr = match block.pointer() {
                        Some(p) => p,
                        None => unreached(),
                    };
                    State::ProcessBlocks { local_head: Some(ptr), chain_head, pending }
                },
                Outcome::Sent(Err(())) => State::PollChainHead { local_head },
                _ => State::EmitAddBlock { local_head, chain_head, pending, block },
            },
            State::Terminated => unreached(),
            State::Failed => unreached(),
        }
    }

    /// Applies the chain-head decision of [`range_decision`].
    fn decide_range(local_head: Option<BlockPointer>, chain_head: BlockPointer) -> (r: State)
        ensures
            r@ == range_decision(local_head, chain_head),
            wf(r@),
    {
        let head_num = match local_head {
            Some(h) => h.number,
            None => 0,
        };
        if local_head.is_some() && head_num == u64::MAX {
            return State::PollChainHead { local_head };
        }
        let next = if local_head.is_some() {
            head_num + 1
        } else {
            0
        };
        let size = if chain_head.number >= next {
            if chain_head.number - next >= MAX_RANGE_SIZE - 1 {
                MAX_RANGE_SIZE
            } else {
                chain_head.number - next + 1
            }
        } else {
            0
        };
        State::FetchBlocks { local_head, chain_head, from: next, size }
    }

    /// Applies the decision of [`vet_decision`].
    fn vet(
        local_head: Option<BlockPointer>,
        chain_head: BlockPointer,
        pending: Vec<Block>,
        block: Block,
    ) -> (r: State)
        ensures
            r@ == vet_decision(local_head, chain_head, pending@, block),
            wf(r@),
    {
        let ptr = match block.pointer() {
            Some(p) => p,
            None => {
                return State::PollChainHead { local_head };
            },
        };
        let head_num = match local_head {
            Some(h) => h.number,
            None => 0,
        };
        if ptr.number < head_num {
            return State::PollChainHead { local_head };
        }
        let parent = block.parent_pointer();
        if option_pointer_eq(&parent, &local_head) {
            State::WriteBlock { local_head, chain_head, pending, block }
        } else {
            match local_head {
                Some(h) => {
                    let mut forked: Vec<Block> = Vec::new();
                    forked.push(block);
                    proof {
                        assert(forked@ =~= seq![block]);
                    }
                    State::FetchForkedBlocks { local_head: h, chain_head, pending, forked }
                },
                None => State::PollChainHead { local_head: None },
            }
        }
    }
}

} // verus!
