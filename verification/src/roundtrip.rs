//! What a completed PUT leaves in the tables, and that a GET reads it
//! back.

use vstd::prelude::*;
use crate::chunker::{chunks, concat, first_len, lemma_chunks};
use crate::data::{BlockHash, Uuid, digest};
use crate::delete::{after_delete, delete_marker, has_active_version};
use crate::entries::{
    Entry, holds, lemma_get_index, lemma_merged, lemma_merged_one, lemma_position,
    lemma_position_is, lemma_rank_is, merged, position, well_formed,
};
use crate::get::{hashes, latest, lemma_latest, lemma_latest_is, passes};
use crate::object::{
    ObjectVersionView, ObjectView, lemma_data_max_laws, lemma_object_merge_versions,
    single_version,
};
use crate::order::lemma_text_max_laws;
use crate::put::{PutSessionView, lemma_offset_of, offset_of};
use crate::version::{VersionBlock, VersionView};

verus! {

/// Merging in a version that is newer than every version held, under a
/// uuid that is not held, appends it.
pub proof fn lemma_newest_is_appended(existing: Seq<ObjectVersionView>, v: ObjectVersionView)
    requires
        well_formed(existing),
        forall|i: int|
            0 <= i < existing.len() ==> (#[trigger] existing[i]).before(v) && existing[i].uuid
                != v.uuid,
    ensures
        merged(existing, seq![v]) == existing.push(v),
{
    lemma_merged_one(existing, v);
    lemma_position_is(existing, v.uuid, existing.len() as int);
    lemma_rank_is(existing, v, existing.len() as int);
    assert(existing.insert(existing.len() as int, v) =~= existing.push(v));
}

/// A complete version that is newer than every other version is the one
/// that a GET reads.
pub proof fn lemma_newest_is_read(existing: ObjectView, v: ObjectVersionView)
    requires
        existing.wf(),
        v.is_complete,
        forall|i: int|
            0 <= i < existing.versions.len() ==> (#[trigger] existing.versions[i]).before(v)
                && existing.versions[i].uuid != v.uuid,
    ensures
        existing.merged(single_version(existing.bucket, existing.key, v)).versions
            == existing.versions.push(v),
        latest(
            existing.merged(single_version(existing.bucket, existing.key, v)).versions,
            false,
        ) == Some(existing.versions.len() as int),
{
    lemma_newest_is_appended(existing.versions, v);
    lemma_latest_is(existing.versions.push(v), false, existing.versions.len() as int);
}

/// What the object table holds once a streaming PUT is through.
///
/// The PUT inserts the version as in progress after its first block and
/// as complete at the end. Merged into a record whose versions are all
/// older, the two leave the complete version, with the payload's full
/// size, as the newest: the one that a GET reads.
pub proof fn lemma_committed_put_is_read(
    existing: ObjectView,
    started: PutSessionView,
    finished: PutSessionView,
)
    requires
        existing.wf(),
        finished == (PutSessionView { next_offset: finished.next_offset, ..started }),
        started.next_offset <= finished.next_offset,
        forall|i: int|
            0 <= i < existing.versions.len() ==> (#[trigger] existing.versions[i]).before(
                started.object_version(false),
            ) && existing.versions[i].uuid != started.uuid,
    ensures
        existing.merged(
            single_version(existing.bucket, existing.key, started.object_version(false)),
        ).merged(
            single_version(existing.bucket, existing.key, finished.object_version(true)),
        ).versions == existing.versions.push(finished.object_version(true)),
        latest(existing.versions.push(finished.object_version(true)), false) == Some(
            existing.versions.len() as int,
        ),
{
    let p = started.object_version(false);
    let f = finished.object_version(true);
    let n = existing.versions.len() as int;
    lemma_newest_is_appended(existing.versions, p);
    let a1 = existing.versions.push(p);
    lemma_merged_one(a1, f);
    lemma_position_is(a1, f.uuid, n);
    lemma_data_max_laws(p.data, p.data, p.data);
    lemma_text_max_laws(p.mime_type, p.mime_type, p.mime_type);
    assert(p.join(f) == f);
    assert(a1.remove(n) =~= existing.versions);
    lemma_rank_is(existing.versions, f, n);
    assert(existing.versions.insert(n, f) =~= existing.versions.push(f));
    lemma_latest_is(existing.versions.push(f), false, n);
}

/// The blocks of a payload as the version table lists them: each at the
/// offset where the one before it ended, under its content address.
pub open spec fn block_list(blocks: Seq<Seq<u8>>) -> Seq<VersionBlock> {
    Seq::new(
        blocks.len(),
        |i: int| VersionBlock { offset: offset_of(blocks, i) as u64, hash: digest(blocks[i]) },
    )
}

/// The version record that the write for the `i`-th block carries.
pub open spec fn write_record(
    uuid: Uuid,
    bucket: Seq<char>,
    key: Seq<char>,
    blocks: Seq<Seq<u8>>,
    i: int,
) -> VersionView {
    VersionView { uuid, deleted: false, blocks: seq![block_list(blocks)[i]], bucket, key }
}

/// What the version table holds after the writes for the first `n` blocks
/// of a payload, merged one after the other.
pub open spec fn written(
    uuid: Uuid,
    bucket: Seq<char>,
    key: Seq<char>,
    blocks: Seq<Seq<u8>>,
    n: int,
) -> VersionView
    decreases n,
{
    if n <= 1 {
        write_record(uuid, bucket, key, blocks, 0)
    } else {
        written(uuid, bucket, key, blocks, n - 1).merged(
            write_record(uuid, bucket, key, blocks, n - 1),
        )
    }
}

/// The offsets of non-empty blocks grow strictly.
pub proof fn lemma_offsets_grow(blocks: Seq<Seq<u8>>, i: int, j: int)
    requires
        0 <= i < j <= blocks.len(),
        forall|k: int| 0 <= k < blocks.len() - 1 ==> (#[trigger] blocks[k]).len() > 0,
    ensures
        offset_of(blocks, i) < offset_of(blocks, j) || (j == blocks.len() && offset_of(blocks, i)
            <= offset_of(blocks, j)),
        j < blocks.len() ==> offset_of(blocks, i) < offset_of(blocks, j),
    decreases j - i,
{
    if j == i + 1 {
        assert(offset_of(blocks, j) == offset_of(blocks, i) + blocks[i].len());
    } else {
        lemma_offsets_grow(blocks, i, j - 1);
        assert(offset_of(blocks, j) == offset_of(blocks, j - 1) + blocks[j - 1].len());
    }
}

/// What the version table holds once a streaming PUT is through: the
/// blocks of the payload, in order, each under its content address.
pub proof fn lemma_written_version(
    uuid: Uuid,
    bucket: Seq<char>,
    key: Seq<char>,
    blocks: Seq<Seq<u8>>,
    n: int,
)
    requires
        1 <= n <= blocks.len(),
        forall|k: int| 0 <= k < blocks.len() - 1 ==> (#[trigger] blocks[k]).len() > 0,
        concat(blocks).len() <= u64::MAX,
    ensures
        written(uuid, bucket, key, blocks, n).wf(),
        written(uuid, bucket, key, blocks, n) == (VersionView {
            uuid,
            deleted: false,
            blocks: block_list(blocks).take(n),
            bucket,
            key,
        }),
    decreases n,
{
    let list = block_list(blocks);
    if n <= 1 {
        assert(seq![list[0]] =~= list.take(1));
    } else {
        lemma_written_version(uuid, bucket, key, blocks, n - 1);
        let held = list.take(n - 1);
        let new = list[n - 1];
        lemma_merged_one(held, new);
        lemma_offset_of(blocks, n - 1);
        assert forall|i: int| 0 <= i < held.len() implies (#[trigger] held[i]).offset
            < new.offset by {
            lemma_offset_of(blocks, i);
            lemma_offsets_grow(blocks, i, n - 1);
        }
        lemma_position_is(held, new.offset, n - 1);
        lemma_rank_is(held, new, n - 1);
        assert(held.insert(n - 1, new) =~= list.take(n));
        lemma_text_max_laws(bucket, bucket, bucket);
        lemma_text_max_laws(key, key, key);
        assert forall|i: int, j: int| 0 <= i < j < list.take(n).len() implies (
        #[trigger] list.take(n)[i]).offset < (#[trigger] list.take(n)[j]).offset by {
            lemma_offset_of(blocks, i);
            lemma_offset_of(blocks, j);
            lemma_offsets_grow(blocks, i, j);
        }
    }
}

/// The bytes that a GET streams: for each block of the version, in order,
/// what the block store holds under its hash.
pub open spec fn assembled(order: Seq<BlockHash>, store: Map<BlockHash, Seq<u8>>) -> Seq<u8> {
    concat(order.map_values(|h: BlockHash| store[h]))
}

/// A GET of a version that a PUT has written reads the payload back.
///
/// Where the block store holds each block of the payload under its
/// content address, streaming the blocks in the order of the version
/// record gives the payload, and its length is the offset at which the
/// PUT ended: the size that the complete version carries.
pub proof fn lemma_put_then_get(blocks: Seq<Seq<u8>>, store: Map<BlockHash, Seq<u8>>)
    requires
        forall|i: int|
            0 <= i < blocks.len() ==> store.dom().contains(digest(#[trigger] blocks[i]))
                && store[digest(blocks[i])] == blocks[i],
    ensures
        assembled(hashes(block_list(blocks)), store) == concat(blocks),
        concat(blocks).len() == offset_of(blocks, blocks.len() as int),
{
    let order = hashes(block_list(blocks));
    assert(order.map_values(|h: BlockHash| store[h]) =~= blocks);
    lemma_offset_of(blocks, blocks.len() as int);
    assert(blocks.take(blocks.len() as int) =~= blocks);
}

/// PUT then GET gives the body back.
///
/// A body that is not empty is cut into blocks; once the write for every
/// block is through, the version table lists the blocks in order, and a
/// GET that finds each block in the block store under its content address
/// streams the body, byte for byte, at the length that the complete
/// version carries as its size.
pub proof fn lemma_body_is_read_back(
    uuid: Uuid,
    bucket: Seq<char>,
    key: Seq<char>,
    body: Seq<u8>,
    block_size: nat,
    store: Map<BlockHash, Seq<u8>>,
)
    requires
        block_size > 0,
        0 < body.len() <= u64::MAX,
        forall|i: int|
            0 <= i < chunks(body, block_size).len() ==> store.dom().contains(
                digest(#[trigger] chunks(body, block_size)[i]),
            ) && store[digest(chunks(body, block_size)[i])] == chunks(body, block_size)[i],
    ensures
        ({
            let blocks = chunks(body, block_size);
            let version = written(uuid, bucket, key, blocks, blocks.len() as int);
            &&& version.wf()
            &&& version.blocks == block_list(blocks)
            &&& assembled(hashes(version.blocks), store) == body
            &&& offset_of(blocks, blocks.len() as int) == body.len()
        }),
{
    let blocks = chunks(body, block_size);
    lemma_chunks(body, block_size);
    assert(blocks.len() > 0);
    lemma_written_version(uuid, bucket, key, blocks, blocks.len() as int);
    assert(block_list(blocks).take(blocks.len() as int) =~= block_list(blocks));
    lemma_put_then_get(blocks, store);
}

/// A body that is inlined is inlined whole.
///
/// Where the threshold for inlining does not exceed the block size, a
/// first block shorter than the threshold is the whole body: the version
/// that the PUT commits holds every byte, and a GET answers with them.
pub proof fn lemma_inline_holds_the_body(body: Seq<u8>, block_size: nat, inline_threshold: nat)
    requires
        inline_threshold <= block_size,
        body.len() > 0,
        chunks(body, block_size)[0].len() < inline_threshold,
    ensures
        chunks(body, block_size) == seq![body],
{
    let n = first_len(body.len(), block_size) as int;
    assert(chunks(body, block_size)[0] == body.take(n));
    assert(body.take(n) =~= body);
    assert(body.skip(n).len() == 0);
    assert(chunks(body.skip(n), block_size) =~= Seq::<Seq<u8>>::empty());
    assert(chunks(body, block_size) =~= seq![body]);
}

/// Two replicas that have each seen a different PUT agree, once merged,
/// on the later one.
///
/// `i` and `j` are the latest complete versions of `a` and of `b`, and the
/// one of `b` is the later. The records share no uuid. Then the latest
/// complete version of their merge, whichever is merged into the other, is
/// that version of `b`.
pub proof fn lemma_later_version_wins(a: ObjectView, b: ObjectView, i: int, j: int)
    requires
        a.wf(),
        b.wf(),
        a.same_key(b),
        latest(a.versions, false) == Some(i),
        latest(b.versions, false) == Some(j),
        a.versions[i].before(b.versions[j]),
        forall|p: int, q: int|
            0 <= p < a.versions.len() && 0 <= q < b.versions.len() ==> (
            #[trigger] a.versions[p]).uuid != (#[trigger] b.versions[q]).uuid,
    ensures
        a.merged(b) == b.merged(a),
        latest(a.merged(b).versions, false) matches Some(m) && a.merged(b).versions[m]
            == b.versions[j],
{
    crate::object::lemma_object_merge_commutative(a, b);
    let all = a.merged(b).versions;
    lemma_merged(a.versions, b.versions);
    lemma_latest(a.versions, false);
    lemma_latest(b.versions, false);
    let won = b.versions[j];
    let lost = a.versions[i];
    lemma_get_index(b.versions, j);
    lemma_position(a.versions, won.uuid);
    lemma_object_merge_versions(a, b, won.uuid);
    lemma_position(all, won.uuid);
    let m = position(all, won.uuid) as int;
    assert(all[m] == won);
    assert forall|k: int| m < k < all.len() implies !passes(#[trigger] all[k], false) by {
        let x = all[k];
        assert(won.before(x));
        lemma_get_index(all, k);
        lemma_object_merge_versions(a, b, x.uuid);
        lemma_position(a.versions, x.uuid);
        lemma_position(b.versions, x.uuid);
        if holds(a.versions, x.uuid) {
            let p = position(a.versions, x.uuid) as int;
            assert(x == a.versions[p]);
            ObjectVersionView::lemma_before(lost, won, x);
            ObjectVersionView::lemma_before(x, lost, x);
            if p < i {
                assert(x.before(lost));
            }
        } else {
            let q = position(b.versions, x.uuid) as int;
            assert(x == b.versions[q]);
            ObjectVersionView::lemma_before(x, won, x);
            if q < j {
                assert(x.before(won));
            }
        }
    }
    lemma_latest_is(all, false, m);
}

/// DELETE then GET finds nothing.
///
/// Where a DELETE writes its marker with a timestamp later than that of
/// every version held, the marker is the latest complete version of what
/// the object table holds afterwards: the version that a GET reads, and
/// answers `NotFound` for.
pub proof fn lemma_delete_then_get(existing: ObjectView, version_uuid: Uuid, timestamp: u64)
    requires
        existing.wf(),
        has_active_version(existing.versions),
        forall|i: int|
            0 <= i < existing.versions.len() ==> (#[trigger] existing.versions[i]).before(
                delete_marker(version_uuid, timestamp),
            ) && existing.versions[i].uuid != version_uuid,
    ensures
        after_delete(Some(existing), version_uuid, timestamp) matches Some(o) && o.versions
            == existing.versions.push(delete_marker(version_uuid, timestamp)) && latest(
            o.versions,
            false,
        ) == Some(existing.versions.len() as int),
{
    lemma_newest_is_read(existing, delete_marker(version_uuid, timestamp));
}

} // verus!
