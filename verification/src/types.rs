//! Data model of the indexed chain: block hashes, block pointers, the light
//! header returned by chain-head polling, and the fully fetched block header.

use vstd::prelude::*;

verus! {

/// A 32-byte block hash, held as four 64-bit words in big-endian order:
/// `w0` holds the first eight bytes of the hash, `w3` the last eight.
#[derive(Clone, Copy, Debug, PartialEq, Eq, Structural)]
pub struct BlockHash {
    pub w0: u64,
    pub w1: u64,
    pub w2: u64,
    pub w3: u64,
}

/// A block pointer `(number, hash)`; uniquely identifies an indexed block.
#[derive(Clone, Copy, Debug, PartialEq, Eq, Structural)]
pub struct BlockPointer {
    pub number: u64,
    pub hash: BlockHash,
}

/// The block header view returned by chain-head polling. The remote node may
/// report headers that are still missing a number or a hash; such a light
/// block is not valid.
#[derive(Clone, Copy, Debug, PartialEq)]
pub struct LightBlock {
    pub number: Option<u64>,
    pub hash: Option<BlockHash>,
}

impl LightBlock {
    /// A light block is valid iff both its number and its hash are present.
    pub open spec fn is_valid(self) -> bool {
        self.number is Some && self.hash is Some
    }

    /// The pointer of a valid light block.
    pub open spec fn spec_pointer(self) -> BlockPointer
        recommends
            self.is_valid(),
    {
        BlockPointer { number: self.number->0, hash: self.hash->0 }
    }

    /// Returns the pointer of the light block, or `None` if the remote left
    /// the number or the hash out.
    pub fn pointer(&self) -> (r: Option<BlockPointer>)
        ensures
            r == if self.is_valid() {
                Some(self.spec_pointer())
            } else {
                None::<BlockPointer>
            },
    {
        match (self.number, self.hash) {
            (Some(number), Some(hash)) => Some(BlockPointer { number, hash }),
            _ => None,
        }
    }
}

/// A fully fetched block header (the header of a block-with-uncles). The
/// number and hash come from the remote and may be missing; the parent hash
/// is always present. The block body and the uncle headers are payload that
/// the indexing decisions never read, so they stay with the driver.
#[derive(Clone, Copy, Debug, PartialEq)]
pub struct Block {
    pub number: Option<u64>,
    pub hash: Option<BlockHash>,
    pub parent_hash: BlockHash,
}

impl Block {
    /// A block is valid iff both its number and its hash are present.
    pub open spec fn is_valid(self) -> bool {
        self.number is Some && self.hash is Some
    }

    /// The pointer of a valid block.
    pub open spec fn spec_pointer(self) -> BlockPointer
        recommends
            self.is_valid(),
    {
        BlockPointer { number: self.number->0, hash: self.hash->0 }
    }

    /// The parent pointer of a valid block: `(number - 1, parent_hash)` for
    /// `number > 0`, and `None` for the genesis block, which has no
    /// predecessor.
    pub open spec fn spec_parent_pointer(self) -> Option<BlockPointer>
        recommends
            self.is_valid(),
    {
        if self.number->0 == 0 {
            None
        } else {
            Some(BlockPointer { number: (self.number->0 - 1) as u64, hash: self.parent_hash })
        }
    }

    /// Returns the pointer of the block, or `None` if the remote left the
    /// number or the hash out.
    pub fn pointer(&self) -> (r: Option<BlockPointer>)
        ensures
            r == if self.is_valid() {
                Some(self.spec_pointer())
            } else {
                None::<BlockPointer>
            },
    {
        match (self.number, self.hash) {
            (Some(number), Some(hash)) => Some(BlockPointer { number, hash }),
            _ => None,
        }
    }

    /// Returns the parent pointer of a valid block.
    pub fn parent_pointer(&self) -> (r: Option<BlockPointer>)
        requires
            self.is_valid(),
        ensures
            r == self.spec_parent_pointer(),
    {
        let number = match self.number {
            Some(n) => n,
            None => unreached(),
        };
        if number == 0 {
            None
        } else {
            Some(BlockPointer { number: number - 1, hash: self.parent_hash })
        }
    }
}

/// Equality test on optional block pointers, as used when the parent pointer
/// of an incoming block is compared against the local head (which is `None`
/// while the store is empty).
pub fn option_pointer_eq(a: &Option<BlockPointer>, b: &Option<BlockPointer>) -> (r: bool)
    ensures
        r == (a == b),
{
    match (a, b) {
        (Some(x), Some(y)) => x == y,
        (None, None) => true,
        _ => false,
    }
}

} // verus!
