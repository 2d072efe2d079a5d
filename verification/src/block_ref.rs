//! The block-reference table's records: which version refers to which
//! block.

use vstd::prelude::*;
use crate::data::{BlockHash, Uuid};

verus! {

/// A reference from a version to a block. The flag only ever goes from
/// live to deleted.
#[derive(Debug, Clone, Copy, PartialEq, Eq)]
pub struct BlockRef {
    /// The block referred to; with `version`, the record's identity.
    pub block: BlockHash,
    /// The version that refers to it.
    pub version: Uuid,
    /// Set once the reference has been dropped. Never reset.
    pub deleted: bool,
}

impl BlockRef {
    /// Whether two records stand under the same (block, version).
    pub open spec fn same_key(self, other: BlockRef) -> bool {
        self.block == other.block && self.version == other.version
    }

    /// What merging `other` into `self` gives: deleted as soon as either
    /// is.
    pub open spec fn merged(self, other: BlockRef) -> BlockRef {
        BlockRef { block: self.block, version: self.version, deleted: self.deleted || other.deleted }
    }

    /// A live reference from `version` to `block`.
    pub fn new(block: BlockHash, version: Uuid) -> (r: BlockRef)
        ensures
            r == (BlockRef { block, version, deleted: false }),
    {
        BlockRef { block, version, deleted: false }
    }

    /// Merges another record of the same reference into this one.
    pub fn merge(&mut self, other: &BlockRef)
        ensures
            *final(self) == old(self).merged(*other),
    {
        if other.deleted {
            self.deleted = true;
        }
    }
}

/// Merging block references is idempotent, commutative under one key, and
/// associative; and a deleted reference stays deleted.
pub proof fn lemma_block_ref_merge_laws(a: BlockRef, b: BlockRef, c: BlockRef)
    ensures
        a.merged(a) == a,
        a.same_key(b) ==> a.merged(b) == b.merged(a),
        a.merged(b).merged(c) == a.merged(b.merged(c)),
        a.deleted ==> a.merged(b).deleted,
        b.deleted ==> a.merged(b).deleted,
{
}

} // verus!
