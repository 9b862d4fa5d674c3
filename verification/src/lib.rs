//! A verified core for a blockchain network indexer.
//!
//! The indexer maintains a local, linearized copy of a remote append-only
//! chain of blocks: it polls the remote chain head, fetches blocks, checks
//! parent/child continuity, detects chain reorganizations, reverts to the
//! fork base when one occurs, and emits `AddBlock` / `Revert` events to a
//! downstream consumer.
//!
//! This crate holds the decision logic: the block and pointer data model,
//! the hex encoding used for store keys and event display, and the indexer
//! state machine as a pure transition function from a state and the outcome
//! of the last external operation to the next state. Every external
//! operation (adapter calls, store reads and writes, channel sends) is
//! requested through an [`machine::Effect`] value and performed by an
//! unverified driver, which hands the result back as a [`machine::Outcome`].
//! The [`laws`] module states and proves what every run of the machine
//! guarantees about the emitted event sequence.

pub mod encoding;
pub mod event;
pub mod laws;
pub mod machine;
pub mod types;
