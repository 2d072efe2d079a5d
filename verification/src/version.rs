//! The version table's records: the blocks that make up one stored version.

use vstd::prelude::*;
use crate::data::{BlockHash, Uuid, lemma_hash_ext};
use crate::entries::{
    Entry, lemma_merged, lemma_merged_associative, lemma_merged_commutative,
    lemma_merged_idempotent, lemma_position_is, lemma_rank_is, lemma_upsert, merged, upsert,
    well_formed,
};
use crate::order::{lemma_lex_max_laws, lemma_text_max_laws, lex_le, lex_max, str_le, text_max};

verus! {

/// One block of a version: where it starts in the payload, and its content
/// address.
#[derive(Debug, Clone, Copy, PartialEq, Eq)]
pub struct VersionBlock {
    /// The offset of the block's first byte within the payload.
    pub offset: u64,
    /// The digest of the block's bytes.
    pub hash: BlockHash,
}

impl Entry for VersionBlock {
    type Id = u64;

    /// A block is identified, within its version, by its offset.
    open spec fn id(self) -> u64 {
        self.offset
    }

    /// Blocks are laid out by offset.
    open spec fn before(self, other: Self) -> bool {
        self.offset < other.offset
    }

    open spec fn valid(self) -> bool {
        true
    }

    /// Two blocks recorded at one offset merge into the one with the
    /// greater hash.
    open spec fn join(self, other: Self) -> Self {
        if lex_le(self.hash@, other.hash@) {
            VersionBlock { offset: self.offset, hash: other.hash }
        } else {
            self
        }
    }

    proof fn lemma_before(a: Self, b: Self, c: Self) {
    }

    proof fn lemma_join(a: Self, b: Self, c: Self) {
        lemma_lex_max_laws(a.hash@, b.hash@, c.hash@);
        assert(a.join(b).hash@ == lex_max(a.hash@, b.hash@));
        assert(b.join(a).hash@ == lex_max(b.hash@, a.hash@));
        assert(b.join(c).hash@ == lex_max(b.hash@, c.hash@));
        assert(a.join(b).join(c).hash@ == lex_max(lex_max(a.hash@, b.hash@), c.hash@));
        assert(a.join(b.join(c)).hash@ == lex_max(a.hash@, lex_max(b.hash@, c.hash@)));
        lemma_hash_ext(a.join(b).hash, b.join(a).hash);
        lemma_hash_ext(a.join(b).join(c).hash, a.join(b.join(c)).hash);
        lemma_hash_ext(a.join(a).hash, a.hash);
    }
}

impl VersionBlock {
    /// Merges another record of the same block into this one.
    pub fn merge(&mut self, other: &VersionBlock)
        ensures
            *final(self) == old(self).join(*other),
    {
        if self.hash.le(&other.hash) {
            self.hash = other.hash;
        }
    }
}

/// The blocks of one stored version, at most one per offset, laid out by
/// offset.
#[derive(Debug, Clone, PartialEq, Eq)]
pub struct Version {
    uuid: Uuid,
    deleted: bool,
    blocks: Vec<VersionBlock>,
    bucket: String,
    key: String,
}

/// The mathematical value of a `Version`.
pub struct VersionView {
    /// Identifies the version; the record's identity.
    pub uuid: Uuid,
    /// Set once the version has been removed. Never reset.
    pub deleted: bool,
    /// The blocks, by increasing offset.
    pub blocks: Seq<VersionBlock>,
    /// The bucket of the object that the version belongs to.
    pub bucket: Seq<char>,
    /// The key of the object that the version belongs to.
    pub key: Seq<char>,
}

impl VersionView {
    /// The blocks are laid out by strictly increasing offset.
    pub open spec fn wf(self) -> bool {
        well_formed(self.blocks)
    }

    /// Whether two records stand under the same uuid.
    pub open spec fn same_key(self, other: VersionView) -> bool {
        self.uuid == other.uuid
    }

    /// Whether a block at `offset` can be appended: the list is empty or
    /// ends below `offset`.
    pub open spec fn can_append(self, offset: u64) -> bool {
        self.blocks.len() == 0 || self.blocks.last().offset < offset
    }

    /// What merging `other` into `self` gives: deleted as soon as either
    /// is, the blocks of both (the greater hash where both record one
    /// offset), and the greater bucket and key.
    pub open spec fn merged(self, other: VersionView) -> VersionView {
        VersionView {
            uuid: self.uuid,
            deleted: self.deleted || other.deleted,
            blocks: merged(self.blocks, other.blocks),
            bucket: text_max(self.bucket, other.bucket),
            key: text_max(self.key, other.key),
        }
    }
}

impl View for Version {
    type V = VersionView;

    closed spec fn view(&self) -> VersionView {
        VersionView {
            uuid: self.uuid,
            deleted: self.deleted,
            blocks: self.blocks@,
            bucket: self.bucket@,
            key: self.key@,
        }
    }
}

/// Puts `b` into a well-formed list of blocks.
fn upsert_block(blocks: &mut Vec<VersionBlock>, b: VersionBlock)
    requires
        well_formed(old(blocks)@),
    ensures
        final(blocks)@ == upsert(old(blocks)@, b),
        well_formed(final(blocks)@),
{
    let ghost before = blocks@;
    proof {
        lemma_upsert(before, b);
    }
    let mut p: usize = 0;
    while p < blocks.len() && blocks[p].offset != b.offset
        invariant
            p <= blocks@.len(),
            blocks@ == before,
            forall|i: int| 0 <= i < p ==> (#[trigger] before[i]).offset != b.offset,
        decreases blocks@.len() - p,
    {
        p += 1;
    }
    proof {
        lemma_position_is(before, b.offset, p as int);
    }
    let joined = if p < blocks.len() {
        let mut held = blocks.remove(p);
        held.merge(&b);
        held
    } else {
        b
    };
    let ghost rest = blocks@;
    let mut k: usize = 0;
    while k < blocks.len() && blocks[k].offset < joined.offset
        invariant
            k <= blocks@.len(),
            blocks@ == rest,
            forall|i: int| 0 <= i < k ==> (#[trigger] rest[i]).before(joined),
        decreases blocks@.len() - k,
    {
        k += 1;
    }
    proof {
        lemma_rank_is(rest, joined, k as int);
    }
    blocks.insert(k, joined);
}

impl Version {
    /// The record's invariant: see `VersionView::wf`.
    pub open spec fn wf(&self) -> bool {
        self@.wf()
    }

    /// The version `uuid` of the object at (`bucket`, `key`), holding the
    /// given blocks. They may come in any order; blocks that share an
    /// offset are joined.
    pub fn new(
        uuid: Uuid,
        bucket: String,
        key: String,
        deleted: bool,
        blocks: Vec<VersionBlock>,
    ) -> (v: Version)
        ensures
            v.wf(),
            v@ == (VersionView {
                uuid,
                deleted,
                blocks: merged(Seq::empty(), blocks@),
                bucket: bucket@,
                key: key@,
            }),
    {
        let mut held: Vec<VersionBlock> = Vec::new();
        let mut i: usize = 0;
        while i < blocks.len()
            invariant
                i <= blocks@.len(),
                well_formed(held@),
                held@ == merged(Seq::empty(), blocks@.take(i as int)),
            decreases blocks@.len() - i,
        {
            proof {
                assert(blocks@.take(i + 1).drop_last() =~= blocks@.take(i as int));
            }
            upsert_block(&mut held, blocks[i]);
            i += 1;
        }
        proof {
            assert(blocks@.take(i as int) =~= blocks@);
        }
        Version { uuid, deleted, blocks: held, bucket, key }
    }

    /// The uuid that identifies the version.
    pub fn uuid(&self) -> (r: Uuid)
        ensures
            r == self@.uuid,
    {
        self.uuid
    }

    /// Whether the version has been removed.
    pub fn is_deleted(&self) -> (r: bool)
        ensures
            r == self@.deleted,
    {
        self.deleted
    }

    /// The bucket of the object that the version belongs to.
    pub fn bucket(&self) -> (r: &String)
        ensures
            r@ == self@.bucket,
    {
        &self.bucket
    }

    /// The key of the object that the version belongs to.
    pub fn key(&self) -> (r: &String)
        ensures
            r@ == self@.key,
    {
        &self.key
    }

    /// The blocks, by increasing offset.
    pub fn blocks(&self) -> (r: &Vec<VersionBlock>)
        ensures
            r@ == self@.blocks,
    {
        &self.blocks
    }

    /// A copy of the record.
    pub fn duplicate(&self) -> (r: Version)
        ensures
            r@ == self@,
    {
        let mut blocks: Vec<VersionBlock> = Vec::new();
        let mut i: usize = 0;
        while i < self.blocks.len()
            invariant
                i <= self.blocks@.len(),
                blocks@ == self.blocks@.take(i as int),
            decreases self.blocks@.len() - i,
        {
            blocks.push(self.blocks[i]);
            proof {
                assert(blocks@ =~= self.blocks@.take(i + 1));
            }
            i += 1;
        }
        proof {
            assert(self.blocks@.take(i as int) =~= self.blocks@);
        }
        Version {
            uuid: self.uuid,
            deleted: self.deleted,
            blocks,
            bucket: self.bucket.clone(),
            key: self.key.clone(),
        }
    }

    /// Appends a block. The offset must lie above that of every block
    /// already held; otherwise nothing changes and the block is refused.
    pub fn add_block(&mut self, new: VersionBlock) -> (r: Result<(), ()>)
        requires
            old(self).wf(),
        ensures
            final(self).wf(),
            r is Ok <==> old(self)@.can_append(new.offset),
            r is Ok ==> final(self)@ == (VersionView {
                blocks: old(self)@.blocks.push(new),
                ..old(self)@
            }),
            r is Err ==> final(self)@ == old(self)@,
    {
        let n = self.blocks.len();
        if n == 0 || self.blocks[n - 1].offset < new.offset {
            self.blocks.push(new);
            Ok(())
        } else {
            Err(())
        }
    }

    /// Merges another record of the same version into this one.
    pub fn merge(&mut self, other: &Version)
        requires
            old(self).wf(),
            other.wf(),
        ensures
            final(self).wf(),
            final(self)@ == old(self)@.merged(other@),
    {
        if other.deleted {
            self.deleted = true;
        }
        if str_le(self.bucket.as_str(), other.bucket.as_str()) {
            self.bucket = other.bucket.clone();
        }
        if str_le(self.key.as_str(), other.key.as_str()) {
            self.key = other.key.clone();
        }
        let ghost mine = self.blocks@;
        let mut i: usize = 0;
        while i < other.blocks.len()
            invariant
                i <= other.blocks@.len(),
                well_formed(self.blocks@),
                self.blocks@ == merged(mine, other.blocks@.take(i as int)),
                self.uuid == old(self).uuid,
                self.deleted == (old(self).deleted || other.deleted),
                self.bucket@ == text_max(old(self).bucket@, other.bucket@),
                self.key@ == text_max(old(self).key@, other.key@),
            decreases other.blocks@.len() - i,
        {
            proof {
                assert(other.blocks@.take(i + 1).drop_last() =~= other.blocks@.take(i as int));
            }
            upsert_block(&mut self.blocks, other.blocks[i]);
            i += 1;
        }
        proof {
            assert(other.blocks@.take(i as int) =~= other.blocks@);
        }
    }
}

/// Merging two well-formed records gives a well-formed record.
pub proof fn lemma_version_merge_wf(a: VersionView, b: VersionView)
    requires
        a.wf(),
        b.wf(),
    ensures
        a.merged(b).wf(),
{
    lemma_merged(a.blocks, b.blocks);
}

/// Merging a record with itself is the identity.
pub proof fn lemma_version_merge_idempotent(a: VersionView)
    requires
        a.wf(),
    ensures
        a.merged(a) == a,
{
    lemma_merged_idempotent(a.blocks);
    lemma_text_max_laws(a.bucket, a.bucket, a.bucket);
    lemma_text_max_laws(a.key, a.key, a.key);
}

/// Two records of one version merge into the same record whichever is
/// merged into the other.
pub proof fn lemma_version_merge_commutative(a: VersionView, b: VersionView)
    requires
        a.wf(),
        b.wf(),
        a.same_key(b),
    ensures
        a.merged(b) == b.merged(a),
{
    lemma_merged_commutative(a.blocks, b.blocks);
    lemma_text_max_laws(a.bucket, b.bucket, b.bucket);
    lemma_text_max_laws(a.key, b.key, b.key);
}

/// Three records merge into the same record however the merges are
/// grouped.
pub proof fn lemma_version_merge_associative(a: VersionView, b: VersionView, c: VersionView)
    requires
        a.wf(),
        b.wf(),
        c.wf(),
    ensures
        a.merged(b).merged(c) == a.merged(b.merged(c)),
{
    lemma_merged_associative(a.blocks, b.blocks, c.blocks);
    lemma_text_max_laws(a.bucket, b.bucket, c.bucket);
    lemma_text_max_laws(a.key, b.key, c.key);
}

} // verus!
