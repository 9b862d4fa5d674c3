//! Events the indexer emits downstream: a block was added to the indexed
//! chain, or a span of blocks was reverted during reorg handling.

use vstd::prelude::*;
use vstd::string::StringExecFns;

use crate::encoding::append_decimal;
use crate::encoding::append_hash_hex;
use crate::encoding::dec_digits;
use crate::encoding::hash_hex;
use crate::types::BlockPointer;

verus! {

/// An event emitted to the downstream consumer.
#[derive(Clone, Copy, Debug, PartialEq, Eq, Structural)]
pub enum NetworkIndexerEvent {
    /// The span from block `from` down to (excluding) block `to` was
    /// reverted; `to` is the new tip.
    Revert { from: BlockPointer, to: BlockPointer },
    /// The block behind the pointer was durably indexed and is the new tip.
    AddBlock(BlockPointer),
}

/// The display form of a block pointer: `#<number>/<hex_hash>`.
pub open spec fn pointer_display(p: BlockPointer) -> Seq<char> {
    "#"@ + dec_digits(p.number as nat) + "/"@ + hash_hex(p.hash)
}

/// The display form of an event, which is stable:
/// `Add block: #<n>/<hex>` and `Revert: From #<n>/<hex> to #<n>/<hex>`.
pub open spec fn event_display(e: NetworkIndexerEvent) -> Seq<char> {
    match e {
        NetworkIndexerEvent::Revert { from, to } => "Revert: From "@ + pointer_display(from)
            + " to "@ + pointer_display(to),
        NetworkIndexerEvent::AddBlock(p) => "Add block: "@ + pointer_display(p),
    }
}

/// Appends `#<number>/<hex_hash>` for the pointer to `out`.
pub fn append_pointer(out: &mut String, p: &BlockPointer)
    ensures
        final(out)@ == old(out)@ + pointer_display(*p),
{
    out.append("#");
    append_decimal(out, p.number);
    out.append("/");
    append_hash_hex(out, &p.hash);
    proof {
        assert(final(out)@ =~= old(out)@ + pointer_display(*p));
    }
}

/// The display form of a block pointer, `#<number>/<hex_hash>`.
pub fn format_block_pointer(p: &BlockPointer) -> (r: String)
    ensures
        r@ == pointer_display(*p),
{
    let mut out = String::new();
    append_pointer(&mut out, p);
    proof {
        assert(out@ =~= pointer_display(*p));
    }
    out
}

impl NetworkIndexerEvent {
    /// The stable display form of the event.
    pub fn display_string(&self) -> (r: String)
        ensures
            r@ == event_display(*self),
    {
        let mut out = String::new();
        match self {
            NetworkIndexerEvent::Revert { from, to } => {
                out.append("Revert: From ");
                append_pointer(&mut out, from);
                out.append(" to ");
                append_pointer(&mut out, to);
            },
            NetworkIndexerEvent::AddBlock(p) => {
                out.append("Add block: ");
                append_pointer(&mut out, p);
            },
        }
        proof {
            assert(out@ =~= event_display(*self));
        }
        out
    }
}

} // verus!
