//! The PUT pipeline's decisions: what to commit for the first block of a
//! body, for each further block, and at the end.
//!
//! The caller reads the body, ships blocks and writes to the tables; the
//! functions here say what to ship and what to write.

use vstd::prelude::*;
use vstd::pervasive::unreached;
use vstd::string::*;
use crate::block_ref::BlockRef;
use crate::chunker::{chunks, concat, lemma_chunks, split_body};
use crate::data::{BlockHash, Uuid, digest, hash};
use crate::error::Error;
use crate::object::{
    DataView, Object, ObjectVersion, ObjectVersionData, ObjectVersionView, single_version,
};
use crate::version::{Version, VersionBlock, VersionView};

verus! {

/// A first block shorter than this is stored in the object record itself.
pub const INLINE_THRESHOLD: usize = 3072;

/// What has to be written for one block of a body: the block itself, to
/// the block store, and the two metadata records that point to it.
#[derive(Debug)]
pub struct BlockWrite {
    /// The block's content address.
    pub hash: BlockHash,
    /// The block's bytes, to be stored under `hash`.
    pub block: Vec<u8>,
    /// The version record that lists this block, for the version table.
    pub version: Version,
    /// The reference from the version to the block, for the block-reference
    /// table.
    pub block_ref: BlockRef,
}

impl BlockWrite {
    /// Whether this is the write for `block`, found at `offset` in the
    /// payload of version `uuid` of the object at (`bucket`, `key`).
    pub open spec fn is_for(
        self,
        uuid: Uuid,
        bucket: Seq<char>,
        key: Seq<char>,
        offset: u64,
        block: Seq<u8>,
    ) -> bool {
        &&& self.block@ == block
        &&& self.hash == digest(block)
        &&& self.version.wf()
        &&& self.version@ == (VersionView {
            uuid,
            deleted: false,
            blocks: seq![VersionBlock { offset, hash: digest(block) }],
            bucket,
            key,
        })
        &&& self.block_ref == (BlockRef { block: digest(block), version: uuid, deleted: false })
    }
}

/// The version record and the block reference to write for the block with
/// content address `hash` that starts at `offset`: the given record grown
/// by that block, and a live reference to it.
pub fn put_block_meta(version: &Version, offset: u64, hash: BlockHash) -> (r: (Version, BlockRef))
    requires
        version.wf(),
        version@.can_append(offset),
    ensures
        r.0.wf(),
        r.0@ == (VersionView {
            blocks: version@.blocks.push(VersionBlock { offset, hash }),
            ..version@
        }),
        r.1 == (BlockRef { block: hash, version: version@.uuid, deleted: false }),
{
    let mut grown = version.duplicate();
    let added = grown.add_block(VersionBlock { offset, hash });
    assert(added is Ok);
    let block_ref = BlockRef::new(hash, grown.uuid());
    (grown, block_ref)
}

/// What a streaming PUT carries from one block to the next.
#[derive(Debug)]
pub struct PutSession {
    uuid: Uuid,
    timestamp: u64,
    mime_type: String,
    bucket: String,
    key: String,
    first_block: BlockHash,
    next_offset: u64,
}

/// The mathematical value of a `PutSession`.
pub struct PutSessionView {
    pub uuid: Uuid,
    pub timestamp: u64,
    pub mime_type: Seq<char>,
    pub bucket: Seq<char>,
    pub key: Seq<char>,
    /// The content address of the body's first block.
    pub first_block: BlockHash,
    /// How many bytes of the body have been handed to the pipeline.
    pub next_offset: u64,
}

impl PutSessionView {
    /// The version as the object table sees it while blocks are still
    /// being written, or once all are: it points to the first block, and
    /// its size is what has been handed in so far.
    pub open spec fn object_version(self, is_complete: bool) -> ObjectVersionView {
        ObjectVersionView {
            uuid: self.uuid,
            timestamp: self.timestamp,
            mime_type: self.mime_type,
            size: self.next_offset,
            is_complete,
            data: DataView::FirstBlock(self.first_block),
        }
    }
}

impl View for PutSession {
    type V = PutSessionView;

    closed spec fn view(&self) -> PutSessionView {
        PutSessionView {
            uuid: self.uuid,
            timestamp: self.timestamp,
            mime_type: self.mime_type@,
            bucket: self.bucket@,
            key: self.key@,
            first_block: self.first_block,
            next_offset: self.next_offset,
        }
    }
}

/// How a PUT starts, once the first block of the body is known.
#[derive(Debug)]
pub enum PutStart {
    /// The body fits in the object record: insert `object`, and the PUT is
    /// done.
    Inline { object: Object },
    /// The body is stored block by block: insert `object`, which shows the
    /// version as in progress; then perform `write` while reading the next
    /// block, and hand that block to `session`.
    Streaming { object: Object, write: BlockWrite, session: PutSession },
}

/// What to do after a block has been written and the next one read.
#[derive(Debug)]
pub enum PutStep {
    /// Perform this write while reading the next block.
    Write(BlockWrite),
    /// The body has ended: insert `object`, which shows the version as
    /// complete, and the PUT is done.
    Finish { object: Object },
}

/// Builds the write for one block.
fn block_write(uuid: Uuid, bucket: &String, key: &String, offset: u64, block: Vec<u8>) -> (w:
    BlockWrite)
    ensures
        w.is_for(uuid, bucket@, key@, offset, block@),
{
    let h = hash(block.as_slice());
    let empty = Version::new(uuid, bucket.clone(), key.clone(), false, Vec::new());
    assert(empty@.blocks =~= Seq::empty());
    let (version, block_ref) = put_block_meta(&empty, offset, h);
    assert(version@.blocks =~= seq![VersionBlock { offset, hash: h }]);
    BlockWrite { hash: h, block, version, block_ref }
}

/// Starts a PUT of version `version_uuid`, written at `timestamp`, to the
/// object at (`bucket`, `key`), given the first block of the body.
///
/// Without a first block the body is empty and the PUT is refused. A first
/// block shorter than `inline_threshold` goes into the object record; a
/// longer one starts the streaming path.
pub fn handle_put(
    version_uuid: Uuid,
    timestamp: u64,
    mime_type: &str,
    bucket: &str,
    key: &str,
    first_block: Option<Vec<u8>>,
    inline_threshold: usize,
) -> (r: Result<PutStart, Error>)
    ensures
        match first_block {
            None => r matches Err(e) && e.is_bad_request("Empty body"@),
            Some(b) => if b@.len() < inline_threshold {
                &&& r matches Ok(PutStart::Inline { object })
                &&& object.wf()
                &&& object@ == single_version(
                    bucket@,
                    key@,
                    ObjectVersionView {
                        uuid: version_uuid,
                        timestamp,
                        mime_type: mime_type@,
                        size: b@.len() as u64,
                        is_complete: true,
                        data: DataView::Inline(b@),
                    },
                )
            } else {
                &&& r matches Ok(PutStart::Streaming { object, write, session })
                &&& session@ == (PutSessionView {
                    uuid: version_uuid,
                    timestamp,
                    mime_type: mime_type@,
                    bucket: bucket@,
                    key: key@,
                    first_block: digest(b@),
                    next_offset: b@.len() as u64,
                })
                &&& object.wf()
                &&& object@ == single_version(bucket@, key@, session@.object_version(false))
                &&& write.is_for(version_uuid, bucket@, key@, 0, b@)
            },
        },
{
    let first = match first_block {
        Some(b) => b,
        None => {
            return Err(Error::BadRequest("Empty body".to_string()));
        },
    };
    let size = first.len() as u64;
    if first.len() < inline_threshold {
        let version = ObjectVersion {
            uuid: version_uuid,
            timestamp,
            mime_type: mime_type.to_string(),
            size,
            is_complete: true,
            data: ObjectVersionData::Inline(first),
        };
        let object = Object::single(bucket.to_string(), key.to_string(), version);
        return Ok(PutStart::Inline { object });
    }
    let bucket = bucket.to_string();
    let key = key.to_string();
    let first_hash = hash(first.as_slice());
    let version = ObjectVersion {
        uuid: version_uuid,
        timestamp,
        mime_type: mime_type.to_string(),
        size,
        is_complete: false,
        data: ObjectVersionData::FirstBlock(first_hash),
    };
    let object = Object::single(bucket.clone(), key.clone(), version);
    let write = block_write(version_uuid, &bucket, &key, 0, first);
    let session = PutSession {
        uuid: version_uuid,
        timestamp,
        mime_type: mime_type.to_string(),
        bucket,
        key,
        first_block: first_hash,
        next_offset: size,
    };
    Ok(PutStart::Streaming { object, write, session })
}

impl PutSession {
    /// The uuid of the version being written.
    pub fn uuid(&self) -> (u: Uuid)
        ensures
            u == self@.uuid,
    {
        self.uuid
    }

    /// How many bytes of the body have been handed in.
    pub fn next_offset(&self) -> (n: u64)
        ensures
            n == self@.next_offset,
    {
        self.next_offset
    }

    /// Whether a block of `len` bytes can still be taken: the payload's
    /// size has to fit in 64 bits.
    pub fn has_room(&self, len: usize) -> (r: bool)
        ensures
            r == (self@.next_offset + len <= u64::MAX),
    {
        len as u64 <= u64::MAX - self.next_offset
    }

    /// Takes what the last read of the body gave, once the previous write
    /// is through.
    ///
    /// A block is written at the offset where the previous one ended. When
    /// the body has ended, the version is committed as complete, with the
    /// payload's full size.
    pub fn advance(&mut self, next_block: Option<Vec<u8>>) -> (step: PutStep)
        requires
            match next_block {
                Some(b) => old(self)@.next_offset + b@.len() <= u64::MAX,
                None => true,
            },
        ensures
            match next_block {
                Some(b) => {
                    &&& step matches PutStep::Write(w)
                    &&& w.is_for(
                        old(self)@.uuid,
                        old(self)@.bucket,
                        old(self)@.key,
                        old(self)@.next_offset,
                        b@,
                    )
                    &&& final(self)@ == (PutSessionView {
                        next_offset: (old(self)@.next_offset + b@.len()) as u64,
                        ..old(self)@
                    })
                },
                None => {
                    &&& step matches PutStep::Finish { object }
                    &&& object.wf()
                    &&& object@ == single_version(
                        old(self)@.bucket,
                        old(self)@.key,
                        old(self)@.object_version(true),
                    )
                    &&& final(self)@ == old(self)@
                },
            },
    {
        match next_block {
            Some(block) => {
                let len = block.len() as u64;
                let write = block_write(self.uuid, &self.bucket, &self.key, self.next_offset, block);
                self.next_offset = self.next_offset + len;
                PutStep::Write(write)
            },
            None => {
                let version = ObjectVersion {
                    uuid: self.uuid,
                    timestamp: self.timestamp,
                    mime_type: self.mime_type.clone(),
                    size: self.next_offset,
                    is_complete: true,
                    data: ObjectVersionData::FirstBlock(self.first_block),
                };
                let object = Object::single(self.bucket.clone(), self.key.clone(), version);
                PutStep::Finish { object }
            },
        }
    }
}

/// How many bytes of the payload stand before the `i`-th block.
pub open spec fn offset_of(blocks: Seq<Seq<u8>>, i: int) -> int
    decreases i,
{
    if i <= 0 {
        0
    } else {
        offset_of(blocks, i - 1) + blocks[i - 1].len()
    }
}

/// The offsets grow with the blocks, and end at the payload's length.
pub proof fn lemma_offset_of(blocks: Seq<Seq<u8>>, i: int)
    requires
        0 <= i <= blocks.len(),
    ensures
        0 <= offset_of(blocks, i) <= concat(blocks).len(),
        offset_of(blocks, i) == concat(blocks.take(i)).len(),
    decreases i,
{
    if i == 0 {
        assert(concat(blocks.take(0)) =~= Seq::<u8>::empty());
    } else {
        lemma_offset_of(blocks, i - 1);
        lemma_concat_push(blocks.take(i - 1), blocks[i - 1]);
        assert(blocks.take(i - 1).push(blocks[i - 1]) =~= blocks.take(i));
    }
    lemma_concat_take(blocks, i);
}

/// Appending a block appends its bytes.
pub proof fn lemma_concat_push(blocks: Seq<Seq<u8>>, last: Seq<u8>)
    ensures
        concat(blocks.push(last)) == concat(blocks) + last,
    decreases blocks.len(),
{
    let all = blocks.push(last);
    if blocks.len() == 0 {
        assert(all.drop_first() =~= Seq::<Seq<u8>>::empty());
        assert(concat(all.drop_first()) =~= Seq::<u8>::empty());
        assert(concat(all) =~= last);
        assert(concat(blocks) + last =~= last);
    } else {
        lemma_concat_push(blocks.drop_first(), last);
        assert(all.drop_first() =~= blocks.drop_first().push(last));
        assert(concat(all) =~= blocks[0] + (concat(blocks.drop_first()) + last));
        assert(concat(blocks) + last =~= blocks[0] + (concat(blocks.drop_first()) + last));
    }
}

/// The bytes of the first `i` blocks are no more than the bytes of all.
pub proof fn lemma_concat_take(blocks: Seq<Seq<u8>>, i: int)
    requires
        0 <= i <= blocks.len(),
    ensures
        concat(blocks.take(i)).len() <= concat(blocks).len(),
    decreases blocks.len() - i,
{
    if i == blocks.len() {
        assert(blocks.take(i) =~= blocks);
    } else {
        lemma_concat_take(blocks, i + 1);
        lemma_concat_push(blocks.take(i), blocks[i]);
        assert(blocks.take(i).push(blocks[i]) =~= blocks.take(i + 1));
    }
}

/// Everything that a PUT of a whole body commits, in order.
#[derive(Debug)]
pub struct PutPlan {
    /// The object record to insert first: the whole version where the body
    /// is inlined, else the version in progress.
    pub first: Object,
    /// The writes for the body's blocks, in order. None where the body is
    /// inlined.
    pub writes: Vec<BlockWrite>,
    /// The object record that completes the version, to insert once every
    /// write is through. None where the body is inlined.
    pub last: Option<Object>,
}

/// The session of a streaming PUT of `blocks` after `n` of them.
pub open spec fn session_after(
    uuid: Uuid,
    timestamp: u64,
    mime_type: Seq<char>,
    bucket: Seq<char>,
    key: Seq<char>,
    blocks: Seq<Seq<u8>>,
    n: int,
) -> PutSessionView {
    PutSessionView {
        uuid,
        timestamp,
        mime_type,
        bucket,
        key,
        first_block: digest(blocks[0]),
        next_offset: offset_of(blocks, n) as u64,
    }
}

/// Runs a PUT on a body that is held in memory: cuts it into blocks of
/// `block_size` bytes and gives every record that the pipeline commits.
///
/// An empty body is refused. Where the first block is shorter than
/// `inline_threshold`, that block is inlined and nothing else is written.
/// Otherwise the version is shown as in progress, each block is written at
/// the offset where the one before it ended, and the version is completed
/// with the body's length as its size.
pub fn plan_put(
    version_uuid: Uuid,
    timestamp: u64,
    mime_type: &str,
    bucket: &str,
    key: &str,
    body: &[u8],
    block_size: usize,
    inline_threshold: usize,
) -> (r: Result<PutPlan, Error>)
    ensures
        ({
            let blocks = chunks(body@, block_size as nat);
            if blocks.len() == 0 {
                r matches Err(e) && e.is_bad_request("Empty body"@)
            } else if blocks[0].len() < inline_threshold {
                &&& r matches Ok(plan)
                &&& plan.first.wf()
                &&& plan.first@ == single_version(
                    bucket@,
                    key@,
                    ObjectVersionView {
                        uuid: version_uuid,
                        timestamp,
                        mime_type: mime_type@,
                        size: blocks[0].len() as u64,
                        is_complete: true,
                        data: DataView::Inline(blocks[0]),
                    },
                )
                &&& plan.writes@.len() == 0
                &&& plan.last is None
            } else {
                &&& r matches Ok(plan)
                &&& plan.first.wf()
                &&& plan.first@ == single_version(
                    bucket@,
                    key@,
                    session_after(
                        version_uuid,
                        timestamp,
                        mime_type@,
                        bucket@,
                        key@,
                        blocks,
                        1,
                    ).object_version(false),
                )
                &&& plan.writes@.len() == blocks.len()
                &&& forall|i: int|
                    0 <= i < blocks.len() ==> (#[trigger] plan.writes@[i]).is_for(
                        version_uuid,
                        bucket@,
                        key@,
                        offset_of(blocks, i) as u64,
                        blocks[i],
                    )
                &&& plan.last matches Some(last)
                &&& last.wf()
                &&& last@ == single_version(
                    bucket@,
                    key@,
                    session_after(
                        version_uuid,
                        timestamp,
                        mime_type@,
                        bucket@,
                        key@,
                        blocks,
                        blocks.len() as int,
                    ).object_version(true),
                )
                &&& offset_of(blocks, blocks.len() as int) == body@.len()
            }
        }),
{
    let mut blocks = split_body(body, block_size);
    let ghost all = chunks(body@, block_size as nat);
    let n = blocks.len();
    if n == 0 {
        return match handle_put(
            version_uuid,
            timestamp,
            mime_type,
            bucket,
            key,
            None,
            inline_threshold,
        ) {
            Err(e) => Err(e),
            Ok(_) => unreached(),
        };
    }
    proof {
        lemma_chunks(body@, block_size as nat);
        lemma_offset_of(all, all.len() as int);
        assert(all.take(all.len() as int) =~= all);
    }
    // Hand the blocks over one by one, first to last.
    let mut rest: Vec<Vec<u8>> = Vec::new();
    while blocks.len() > 1
        invariant
            n == all.len(),
            1 <= blocks@.len() <= n,
            blocks@.len() + rest@.len() == n,
            forall|i: int| 0 <= i < blocks@.len() ==> (#[trigger] blocks@[i])@ == all[i],
            forall|i: int|
                0 <= i < rest@.len() ==> (#[trigger] rest@[i])@ == all[n - 1 - i],
        decreases blocks@.len(),
    {
        let b = blocks.pop().unwrap();
        rest.push(b);
    }
    let first = blocks.pop().unwrap();
    assert(first@ == all[0]);
    let start = handle_put(
        version_uuid,
        timestamp,
        mime_type,
        bucket,
        key,
        Some(first),
        inline_threshold,
    );
    let (object, write, mut session) = match start {
        Err(e) => {
            return Err(e);
        },
        Ok(PutStart::Inline { object }) => {
            return Ok(PutPlan { first: object, writes: Vec::new(), last: None });
        },
        Ok(PutStart::Streaming { object, write, session }) => (object, write, session),
    };
    let mut writes: Vec<BlockWrite> = Vec::new();
    writes.push(write);
    let mut done: usize = 1;
    proof {
        assert(offset_of(all, 0) == 0);
        assert(offset_of(all, 1) == offset_of(all, 0) + all[0].len());
        vstd::slice::axiom_spec_len(body);
    }
    while done < n
        invariant
            n == all.len(),
            all == chunks(body@, block_size as nat),
            offset_of(all, n as int) == body@.len(),
            concat(all) == body@,
            body@.len() <= usize::MAX,
            1 <= done <= n,
            rest@.len() == n - done,
            forall|i: int|
                0 <= i < rest@.len() ==> (#[trigger] rest@[i])@ == all[n - 1 - i],
            writes@.len() == done,
            forall|i: int|
                0 <= i < done ==> (#[trigger] writes@[i]).is_for(
                    version_uuid,
                    bucket@,
                    key@,
                    offset_of(all, i) as u64,
                    all[i],
                ),
            session@ == session_after(
                version_uuid,
                timestamp,
                mime_type@,
                bucket@,
                key@,
                all,
                done as int,
            ),
        decreases n - done,
    {
        let b = rest.pop().unwrap();
        proof {
            assert(b@ == all[done as int]);
            lemma_offset_of(all, done as int);
            lemma_offset_of(all, done + 1);
            assert(offset_of(all, done + 1) == offset_of(all, done as int) + all[done as int].len());
        }
        match session.advance(Some(b)) {
            PutStep::Write(w) => {
                writes.push(w);
            },
            PutStep::Finish { object: _ } => unreached(),
        }
        done += 1;
    }
    match session.advance(None) {
        PutStep::Finish { object: last } => Ok(PutPlan { first: object, writes, last: Some(last) }),
        PutStep::Write(_) => unreached(),
    }
}

} // verus!
