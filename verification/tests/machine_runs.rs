//! End-to-end runs of the indexer state machine, driven by hand: the test
//! plays the adapter, the store, the block writer and the downstream
//! consumer, handing the machine the outcome of each effect it asks for.

use network_indexer::event::NetworkIndexerEvent;
use network_indexer::machine::Effect;
use network_indexer::machine::Outcome;
use network_indexer::machine::State;
use network_indexer::types::Block;
use network_indexer::types::BlockHash;
use network_indexer::types::BlockPointer;
use network_indexer::types::LightBlock;

fn hash(tag: u64) -> BlockHash {
    BlockHash { w0: 0, w1: 0, w2: 0, w3: tag }
}

fn ptr(number: u64, tag: u64) -> BlockPointer {
    BlockPointer { number, hash: hash(tag) }
}

fn block(number: u64, tag: u64, parent_tag: u64) -> Block {
    Block { number: Some(number), hash: Some(hash(tag)), parent_hash: hash(parent_tag) }
}

fn light(number: u64, tag: u64) -> LightBlock {
    LightBlock { number: Some(number), hash: Some(hash(tag)) }
}

/// Feeds the outcomes to the machine one by one and collects every event
/// whose downstream send succeeded.
fn drive(mut state: State, outcomes: &[Outcome]) -> (State, Vec<NetworkIndexerEvent>) {
    let mut events = Vec::new();
    for &outcome in outcomes {
        if let Effect::Emit { event } = state.effect() {
            if outcome == Outcome::Sent(Ok(())) {
                events.push(event);
            }
        }
        state = state.step(outcome);
    }
    (state, events)
}

fn add(number: u64, tag: u64) -> NetworkIndexerEvent {
    NetworkIndexerEvent::AddBlock(ptr(number, tag))
}

fn revert(from: BlockPointer, to: BlockPointer) -> NetworkIndexerEvent {
    NetworkIndexerEvent::Revert { from, to }
}

#[test]
fn empty_store_chain_head_at_height_zero() {
    // Empty store, remote head at #0: exactly one AddBlock for the genesis
    // block, whose (absent) parent matches the empty local head.
    let (state, events) = drive(
        State::initial(),
        &[
            Outcome::Proceed,
            Outcome::LocalHead(Ok(None)),
            Outcome::ChainHead(Ok(light(0, 0xaa))),
            Outcome::Proceed,
            Outcome::NextBlock(block(0, 0xaa, 0x00)),
            Outcome::Proceed,
            Outcome::Written(Ok(())),
            Outcome::Sent(Ok(())),
            Outcome::NoMoreBlocks,
        ],
    );
    assert_eq!(events, vec![add(0, 0xaa)]);
    assert!(matches!(
        state,
        State::PollChainHead { local_head: Some(p) } if p == ptr(0, 0xaa)
    ));
}

#[test]
fn linear_catch_up() {
    // Empty store, remote head #2: three blocks added in ascending order.
    let mut outcomes = vec![
        Outcome::Proceed,
        Outcome::LocalHead(Ok(None)),
        Outcome::ChainHead(Ok(light(2, 0xcc))),
        Outcome::Proceed,
    ];
    for b in [block(0, 0xaa, 0x00), block(1, 0xbb, 0xaa), block(2, 0xcc, 0xbb)] {
        outcomes.push(Outcome::NextBlock(b));
        outcomes.push(Outcome::Proceed);
        outcomes.push(Outcome::Written(Ok(())));
        outcomes.push(Outcome::Sent(Ok(())));
    }
    outcomes.push(Outcome::NoMoreBlocks);
    let (state, events) = drive(State::initial(), &outcomes);
    assert_eq!(events, vec![add(0, 0xaa), add(1, 0xbb), add(2, 0xcc)]);
    assert!(matches!(
        state,
        State::PollChainHead { local_head: Some(p) } if p == ptr(2, 0xcc)
    ));
    // Monotone extension: the added numbers strictly increase.
    for pair in events.windows(2) {
        match (&pair[0], &pair[1]) {
            (NetworkIndexerEvent::AddBlock(a), NetworkIndexerEvent::AddBlock(b)) => {
                assert!(a.number < b.number);
            },
            _ => panic!("only adds expected"),
        }
    }
}

#[test]
fn remote_head_equal_to_local_head_emits_nothing() {
    // The remote reports the block the store already holds as its head: the
    // range is empty and the machine just returns to polling.
    let state = State::PollChainHead { local_head: Some(ptr(5, 0x55)) };
    let (state, events) = drive(
        state,
        &[Outcome::ChainHead(Ok(light(5, 0x55))), Outcome::Proceed, Outcome::NoMoreBlocks],
    );
    assert!(events.is_empty());
    assert!(matches!(
        state,
        State::PollChainHead { local_head: Some(p) } if p == ptr(5, 0x55)
    ));
}

#[test]
fn range_size_is_capped_at_one_thousand() {
    // 1000 blocks remaining: one full range.
    let state = State::PollChainHead { local_head: None };
    let state = state.step(Outcome::ChainHead(Ok(light(999, 0x01))));
    assert_eq!(state.effect(), Effect::StartFetchRange { from: 0, size: 1000 });

    // 1001 remaining: first a range of 1000 ...
    let state = State::PollChainHead { local_head: None };
    let state = state.step(Outcome::ChainHead(Ok(light(1000, 0x02))));
    assert_eq!(state.effect(), Effect::StartFetchRange { from: 0, size: 1000 });

    // ... and after those were indexed, a range of 1.
    let state = State::PollChainHead { local_head: Some(ptr(999, 0x03)) };
    let state = state.step(Outcome::ChainHead(Ok(light(1000, 0x02))));
    assert_eq!(state.effect(), Effect::StartFetchRange { from: 1000, size: 1 });
}

#[test]
fn fetch_gap_triggers_repoll() {
    // Blocks before the gap are processed; the gap drops the range and the
    // machine re-polls with the head it reached.
    let (state, events) = drive(
        State::initial(),
        &[
            Outcome::Proceed,
            Outcome::LocalHead(Ok(None)),
            Outcome::ChainHead(Ok(light(2, 0xcc))),
            Outcome::Proceed,
            Outcome::NextBlock(block(0, 0xaa, 0x00)),
            Outcome::Proceed,
            Outcome::Written(Ok(())),
            Outcome::Sent(Ok(())),
            Outcome::BlockGap,
        ],
    );
    assert_eq!(events, vec![add(0, 0xaa)]);
    assert!(matches!(
        state,
        State::PollChainHead { local_head: Some(p) } if p == ptr(0, 0xaa)
    ));
}

#[test]
fn adapter_flake_mid_range_keeps_progress() {
    // A stream error after #0 was indexed: what was emitted stays emitted,
    // and the machine re-polls with local head #0.
    let (state, events) = drive(
        State::initial(),
        &[
            Outcome::Proceed,
            Outcome::LocalHead(Ok(None)),
            Outcome::ChainHead(Ok(light(2, 0xcc))),
            Outcome::Proceed,
            Outcome::NextBlock(block(0, 0xaa, 0x00)),
            Outcome::Proceed,
            Outcome::Written(Ok(())),
            Outcome::Sent(Ok(())),
            Outcome::StreamFailed,
        ],
    );
    assert_eq!(events, vec![add(0, 0xaa)]);
    assert!(matches!(
        state,
        State::PollChainHead { local_head: Some(p) } if p == ptr(0, 0xaa)
    ));
}

#[test]
fn write_failure_keeps_old_head_and_emits_nothing() {
    // write_block(#2/0xcc) fails: no AddBlock(#2/0xcc), local head stays at
    // #1/0xbb, the machine returns to polling.
    let state = State::ProcessBlocks {
        local_head: Some(ptr(1, 0xbb)),
        chain_head: ptr(2, 0xcc),
        pending: Vec::new(),
    };
    let (state, events) = drive(
        state,
        &[
            Outcome::NextBlock(block(2, 0xcc, 0xbb)),
            Outcome::Proceed,
            Outcome::Written(Err(())),
        ],
    );
    assert!(events.is_empty());
    assert!(matches!(
        state,
        State::PollChainHead { local_head: Some(p) } if p == ptr(1, 0xbb)
    ));
}

#[test]
fn send_failure_keeps_pre_write_head() {
    // The block was written but the event could not be delivered: the
    // machine keeps the pre-write head and re-polls.
    let state = State::ProcessBlocks {
        local_head: Some(ptr(1, 0xbb)),
        chain_head: ptr(2, 0xcc),
        pending: Vec::new(),
    };
    let (state, events) = drive(
        state,
        &[
            Outcome::NextBlock(block(2, 0xcc, 0xbb)),
            Outcome::Proceed,
            Outcome::Written(Ok(())),
            Outcome::Sent(Err(())),
        ],
    );
    assert!(events.is_empty());
    assert!(matches!(
        state,
        State::PollChainHead { local_head: Some(p) } if p == ptr(1, 0xbb)
    ));
}

#[test]
fn downstream_closed_terminates_cleanly() {
    // The consumer went away: the machine terminates from any state, emits
    // nothing further and asks for no further work.
    let state = State::ProcessBlocks {
        local_head: Some(ptr(1, 0xbb)),
        chain_head: ptr(2, 0xcc),
        pending: Vec::new(),
    };
    let (state, events) = drive(state, &[Outcome::Closed, Outcome::Proceed]);
    assert!(events.is_empty());
    assert!(matches!(state, State::Terminated));
    assert_eq!(state.effect(), Effect::Halt);
}

#[test]
fn store_failure_on_initial_head_is_fatal() {
    let (state, events) = drive(
        State::initial(),
        &[Outcome::Proceed, Outcome::LocalHead(Err(()))],
    );
    assert!(events.is_empty());
    assert!(matches!(state, State::Failed));
    assert_eq!(state.effect(), Effect::Halt);
}

#[test]
fn invalid_chain_head_is_polled_again() {
    let state = State::PollChainHead { local_head: None };
    let state = state.step(Outcome::ChainHead(Ok(LightBlock {
        number: Some(3),
        hash: None,
    })));
    assert!(matches!(state, State::PollChainHead { local_head: None }));
    assert_eq!(state.effect(), Effect::PollHead);
}

#[test]
fn stale_block_drops_the_stream() {
    // A block below the local head: the stream is dropped and the machine
    // re-polls with its head unchanged.
    let state = State::ProcessBlocks {
        local_head: Some(ptr(5, 0x55)),
        chain_head: ptr(6, 0x66),
        pending: Vec::new(),
    };
    let (state, events) = drive(
        state,
        &[Outcome::NextBlock(block(3, 0x33, 0x22)), Outcome::Proceed],
    );
    assert!(events.is_empty());
    assert!(matches!(
        state,
        State::PollChainHead { local_head: Some(p) } if p == ptr(5, 0x55)
    ));
}

#[test]
fn invalid_block_in_stream_drops_the_stream() {
    // A block missing its hash cannot be vetted: the stream is dropped and
    // the machine re-polls.
    let state = State::ProcessBlocks {
        local_head: Some(ptr(1, 0xbb)),
        chain_head: ptr(2, 0xcc),
        pending: Vec::new(),
    };
    let broken = Block { number: Some(2), hash: None, parent_hash: hash(0xbb) };
    let (state, events) = drive(state, &[Outcome::NextBlock(broken), Outcome::Proceed]);
    assert!(events.is_empty());
    assert!(matches!(
        state,
        State::PollChainHead { local_head: Some(p) } if p == ptr(1, 0xbb)
    ));
}

#[test]
fn mismatched_block_without_local_head_repolls() {
    // With an empty store only a genesis block can extend the chain; a
    // block that claims a predecessor leaves nothing to revert to, so the
    // machine re-polls rather than attempt a reorg.
    let state = State::ProcessBlocks {
        local_head: None,
        chain_head: ptr(5, 0x55),
        pending: Vec::new(),
    };
    let (state, events) = drive(
        state,
        &[Outcome::NextBlock(block(5, 0x55, 0x44)), Outcome::Proceed],
    );
    assert!(events.is_empty());
    assert!(matches!(state, State::PollChainHead { local_head: None }));
}

#[test]
fn simple_reorg_depth_one() {
    // Local head #2/0xcc with #1/0xbb stored. The remote now follows
    // #2/0xdd: revert to the fork base #1/0xbb, then add the new branch.
    let state = State::PollChainHead { local_head: Some(ptr(2, 0xcc)) };
    let outcomes = [
        Outcome::ChainHead(Ok(light(3, 0xee))),
        Outcome::Proceed,
        Outcome::NextBlock(block(3, 0xee, 0xdd)),
        Outcome::Proceed,
        // walk the new branch back: #3/0xee, #2/0xdd are unknown, #1/0xbb
        // is in the store and becomes the fork base
        Outcome::StoreHas(Ok(false)),
        Outcome::ParentBlock(Ok(Some(block(2, 0xdd, 0xbb)))),
        Outcome::StoreHas(Ok(false)),
        Outcome::ParentBlock(Ok(Some(block(1, 0xbb, 0xaa)))),
        Outcome::StoreHas(Ok(true)),
        // walk the local chain down from #2/0xcc to the fork base
        Outcome::ParentField(Ok(Some(hash(0xbb)))),
        // revert #2/0xcc -> #1/0xbb, then emit the revert
        Outcome::Reverted(Ok(())),
        Outcome::Sent(Ok(())),
        // the carried branch replays oldest-first: #2/0xdd then #3/0xee
        Outcome::Proceed,
        Outcome::Proceed,
        Outcome::Written(Ok(())),
        Outcome::Sent(Ok(())),
        Outcome::Proceed,
        Outcome::Proceed,
        Outcome::Written(Ok(())),
        Outcome::Sent(Ok(())),
        Outcome::NoMoreBlocks,
    ];
    let (state, events) = drive(state, &outcomes);
    assert_eq!(
        events,
        vec![revert(ptr(2, 0xcc), ptr(1, 0xbb)), add(2, 0xdd), add(3, 0xee)]
    );
    assert!(matches!(
        state,
        State::PollChainHead { local_head: Some(p) } if p == ptr(3, 0xee)
    ));
}

#[test]
fn reorg_depth_three() {
    // Local head #4/0x44 over stored #3/0x33, #2/0x22, #1/0x11; the remote
    // now reports #4/0x4b whose ancestors rejoin the local chain at #1/0x11.
    let state = State::ProcessBlocks {
        local_head: Some(ptr(4, 0x44)),
        chain_head: ptr(4, 0x4b),
        pending: Vec::new(),
    };
    let outcomes = [
        Outcome::NextBlock(block(4, 0x4b, 0x3b)),
        Outcome::Proceed,
        // walk the new branch back to the fork base #1/0x11
        Outcome::StoreHas(Ok(false)),
        Outcome::ParentBlock(Ok(Some(block(3, 0x3b, 0x2b)))),
        Outcome::StoreHas(Ok(false)),
        Outcome::ParentBlock(Ok(Some(block(2, 0x2b, 0x11)))),
        Outcome::StoreHas(Ok(false)),
        Outcome::ParentBlock(Ok(Some(block(1, 0x11, 0x00)))),
        Outcome::StoreHas(Ok(true)),
        // collect the local chain #4/0x44 -> #3/0x33 -> #2/0x22 -> #1/0x11
        Outcome::ParentField(Ok(Some(hash(0x33)))),
        Outcome::ParentField(Ok(Some(hash(0x22)))),
        Outcome::ParentField(Ok(Some(hash(0x11)))),
        // three reverts in descending height order
        Outcome::Reverted(Ok(())),
        Outcome::Sent(Ok(())),
        Outcome::Reverted(Ok(())),
        Outcome::Sent(Ok(())),
        Outcome::Reverted(Ok(())),
        Outcome::Sent(Ok(())),
        // replay the new branch in ascending height order
        Outcome::Proceed,
        Outcome::Proceed,
        Outcome::Written(Ok(())),
        Outcome::Sent(Ok(())),
        Outcome::Proceed,
        Outcome::Proceed,
        Outcome::Written(Ok(())),
        Outcome::Sent(Ok(())),
        Outcome::Proceed,
        Outcome::Proceed,
        Outcome::Written(Ok(())),
        Outcome::Sent(Ok(())),
        Outcome::NoMoreBlocks,
    ];
    let (state, events) = drive(state, &outcomes);
    assert_eq!(
        events,
        vec![
            revert(ptr(4, 0x44), ptr(3, 0x33)),
            revert(ptr(3, 0x33), ptr(2, 0x22)),
            revert(ptr(2, 0x22), ptr(1, 0x11)),
            add(2, 0x2b),
            add(3, 0x3b),
            add(4, 0x4b),
        ]
    );
    assert!(matches!(
        state,
        State::PollChainHead { local_head: Some(p) } if p == ptr(4, 0x4b)
    ));
    // Every revert unwinds exactly one block, and the fork base #1/0x11 is
    // never the `from` of a revert.
    for e in &events {
        if let NetworkIndexerEvent::Revert { from, to } = e {
            assert_eq!(from.number, to.number + 1);
            assert_ne!(*from, ptr(1, 0x11));
        }
    }
}

#[test]
fn carried_block_with_stale_parent_triggers_second_reorg() {
    // After a reorg the carried stream may hold a block whose parent no
    // longer matches the new tip: it falls into the reorg branch again.
    let state = State::ProcessBlocks {
        local_head: Some(ptr(2, 0xdd)),
        chain_head: ptr(4, 0x99),
        pending: vec![block(3, 0x77, 0x66)],
    };
    // the pending block's parent #2/0x66 does not match the tip #2/0xdd
    let state = state.step(Outcome::Proceed);
    let state = state.step(Outcome::Proceed);
    assert_eq!(state.effect(), Effect::CheckStore { ptr: ptr(3, 0x77) });
}

#[test]
fn reorg_walk_failure_returns_to_polling() {
    // The remote does not know a claimed ancestor: the reorg attempt is
    // abandoned and the machine re-polls with its head unchanged.
    let state = State::ProcessBlocks {
        local_head: Some(ptr(2, 0xcc)),
        chain_head: ptr(3, 0xee),
        pending: Vec::new(),
    };
    let (state, events) = drive(
        state,
        &[
            Outcome::NextBlock(block(3, 0xee, 0xdd)),
            Outcome::Proceed,
            Outcome::StoreHas(Ok(false)),
            Outcome::ParentBlock(Ok(None)),
        ],
    );
    assert!(events.is_empty());
    assert!(matches!(
        state,
        State::PollChainHead { local_head: Some(p) } if p == ptr(2, 0xcc)
    ));
}

#[test]
fn revert_failure_keeps_old_head() {
    // The store revert fails: the store is unchanged by atomicity, and the
    // machine keeps the old head and re-polls.
    let state = State::ProcessBlocks {
        local_head: Some(ptr(2, 0xcc)),
        chain_head: ptr(3, 0xee),
        pending: Vec::new(),
    };
    let (state, events) = drive(
        state,
        &[
            Outcome::NextBlock(block(3, 0xee, 0xdd)),
            Outcome::Proceed,
            Outcome::StoreHas(Ok(false)),
            Outcome::ParentBlock(Ok(Some(block(2, 0xdd, 0xbb)))),
            Outcome::StoreHas(Ok(false)),
            Outcome::ParentBlock(Ok(Some(block(1, 0xbb, 0xaa)))),
            Outcome::StoreHas(Ok(true)),
            Outcome::ParentField(Ok(Some(hash(0xbb)))),
            Outcome::Reverted(Err(())),
        ],
    );
    assert!(events.is_empty());
    assert!(matches!(
        state,
        State::PollChainHead { local_head: Some(p) } if p == ptr(2, 0xcc)
    ));
}

#[test]
fn missing_parent_field_is_a_store_inconsistency() {
    // A block of the local chain has no readable parent: the revert attempt
    // fails and the head is unchanged.
    let state = State::CollectRevertChain {
        local_head: ptr(2, 0xcc),
        chain_head: ptr(3, 0xee),
        pending: Vec::new(),
        revert_chain: vec![ptr(2, 0xcc)],
        fork_base: ptr(1, 0xbb),
    };
    let state = state.step(Outcome::ParentField(Ok(None)));
    assert!(matches!(
        state,
        State::PollChainHead { local_head: Some(p) } if p == ptr(2, 0xcc)
    ));
}

#[test]
fn fork_base_equal_to_local_head_reverts_nothing() {
    // The walk finds the local head itself on the new branch: there is
    // nothing to revert and processing resumes at once.
    let state = State::FetchForkedBlocks {
        local_head: ptr(2, 0xcc),
        chain_head: ptr(3, 0xee),
        pending: Vec::new(),
        forked: vec![block(3, 0xee, 0xcc), block(2, 0xcc, 0xbb)],
    };
    let (state, events) = drive(state, &[Outcome::StoreHas(Ok(true))]);
    assert!(events.is_empty());
    match &state {
        State::ProcessBlocks { local_head, pending, .. } => {
            assert_eq!(*local_head, Some(ptr(2, 0xcc)));
            assert_eq!(pending.len(), 1);
            assert_eq!(pending[0], block(3, 0xee, 0xcc));
        },
        _ => panic!("expected ProcessBlocks"),
    }
}
