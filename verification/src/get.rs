//! The GET and HEAD pipelines' decisions: which version answers a read,
//! what its headers are, and in which order its blocks are fetched.

use vstd::prelude::*;
use vstd::string::*;
use crate::data::{BlockHash, Uuid};
use crate::error::Error;
use crate::object::{DataView, Object, ObjectVersion, ObjectVersionData, ObjectVersionView, views};
use crate::version::{Version, VersionBlock};

verus! {

/// Whether a version can answer a read. Both reads want a complete
/// version; HEAD also refuses a delete marker.
pub open spec fn passes(v: ObjectVersionView, head: bool) -> bool {
    v.is_complete && (head ==> !(v.data is DeleteMarker))
}

/// The index of the latest version that can answer the read: the last one
/// in the layout that passes.
pub open spec fn latest(versions: Seq<ObjectVersionView>, head: bool) -> Option<int>
    decreases versions.len(),
{
    if versions.len() == 0 {
        None
    } else if passes(versions.last(), head) {
        Some(versions.len() - 1)
    } else {
        latest(versions.drop_last(), head)
    }
}

/// `latest` is the only index that holds a passing version with none
/// passing after it; and it is `None` only if no version passes.
pub proof fn lemma_latest(versions: Seq<ObjectVersionView>, head: bool)
    ensures
        match latest(versions, head) {
            Some(i) => 0 <= i < versions.len() && passes(versions[i], head) && forall|j: int|
                i < j < versions.len() ==> !passes(#[trigger] versions[j], head),
            None => forall|j: int| 0 <= j < versions.len() ==> !passes(#[trigger] versions[j], head),
        },
    decreases versions.len(),
{
    if versions.len() > 0 && !passes(versions.last(), head) {
        let front = versions.drop_last();
        lemma_latest(front, head);
        assert forall|j: int| 0 <= j < front.len() implies front[j] == versions[j] by {}
        match latest(front, head) {
            Some(i) => {
                assert forall|j: int| i < j < versions.len() implies !passes(
                    #[trigger] versions[j],
                    head,
                ) by {
                    if j < front.len() {
                        assert(front[j] == versions[j]);
                    }
                }
            },
            None => {
                assert forall|j: int| 0 <= j < versions.len() implies !passes(
                    #[trigger] versions[j],
                    head,
                ) by {
                    if j < front.len() {
                        assert(front[j] == versions[j]);
                    }
                }
            },
        }
    }
}

/// An index that holds a passing version with none passing after it is
/// `latest`.
pub proof fn lemma_latest_is(versions: Seq<ObjectVersionView>, head: bool, i: int)
    requires
        0 <= i < versions.len(),
        passes(versions[i], head),
        forall|j: int| i < j < versions.len() ==> !passes(#[trigger] versions[j], head),
    ensures
        latest(versions, head) == Some(i),
{
    lemma_latest(versions, head);
}

/// The headers of an answer.
#[derive(Debug, Clone, PartialEq, Eq)]
pub struct ResponseHeaders {
    /// `Content-Type`: the version's mime type.
    pub content_type: String,
    /// `Content-Length`: the version's size.
    pub content_length: u64,
    /// `Last-Modified`: the version's timestamp, in milliseconds since the
    /// epoch.
    pub last_modified: u64,
}

impl ResponseHeaders {
    /// Whether these are the headers that answer for `v`.
    pub open spec fn describes(self, v: ObjectVersionView) -> bool {
        &&& self.content_type@ == v.mime_type
        &&& self.content_length == v.size
        &&& self.last_modified == v.timestamp
    }
}

/// Where the body of an answer comes from.
#[derive(Debug, Clone, PartialEq, Eq)]
pub enum BodyPlan {
    /// The body is these bytes.
    Inline(Vec<u8>),
    /// The body is the blocks of version `version_uuid`, of which
    /// `first_block` is the first: fetch that block and the version record
    /// together, then ask `block_sequence` for the rest.
    Blocks { version_uuid: Uuid, first_block: BlockHash },
}

impl BodyPlan {
    /// Whether this plan is the one that serves the payload of `v`.
    pub open spec fn serves(self, v: ObjectVersionView) -> bool {
        match v.data {
            DataView::DeleteMarker => false,
            DataView::Inline(bytes) => self matches BodyPlan::Inline(b) && b@ == bytes,
            DataView::FirstBlock(h) => self == (BodyPlan::Blocks {
                version_uuid: v.uuid,
                first_block: h,
            }),
        }
    }
}

/// The headers that answer for `v`.
pub fn headers_of(v: &ObjectVersion) -> (h: ResponseHeaders)
    ensures
        h.describes(v@),
{
    ResponseHeaders {
        content_type: v.mime_type.clone(),
        content_length: v.size,
        last_modified: v.timestamp,
    }
}

/// The latest version of `object` that can answer the read.
pub fn select_version(object: &Object, head: bool) -> (r: Option<usize>)
    ensures
        match r {
            Some(i) => i < object@.versions.len() && latest(object@.versions, head) == Some(
                i as int,
            ),
            None => latest(object@.versions, head) is None,
        },
{
    let versions = object.versions();
    let ghost all = object@.versions;
    proof {
        lemma_latest(all, head);
        assert(all.len() == versions@.len());
    }
    let mut i: usize = versions.len();
    while i > 0
        invariant
            i <= versions@.len(),
            views(versions@) == all,
            all == object@.versions,
            forall|j: int| i <= j < all.len() ==> !passes(#[trigger] all[j], head),
        decreases i,
    {
        i -= 1;
        let v = &versions[i];
        assert(all[i as int] == v@);
        if v.is_complete && !(head && v.data.is_delete_marker()) {
            proof {
                lemma_latest_is(all, head, i as int);
            }
            return Some(i);
        }
    }
    None
}

/// Answers a HEAD, given the record that the object table holds: the
/// headers of the latest complete version that is not a delete marker, or
/// `NotFound` where there is none.
pub fn handle_head(object: Option<&Object>) -> (r: Result<ResponseHeaders, Error>)
    ensures
        match object {
            Some(o) => match latest(o@.versions, true) {
                Some(i) => r matches Ok(h) && h.describes(o@.versions[i]),
                None => r matches Err(Error::NotFound),
            },
            None => r matches Err(Error::NotFound),
        },
{
    let held = match object {
        Some(o) => o,
        None => {
            return Err(Error::NotFound);
        },
    };
    match select_version(held, true) {
        Some(i) => {
            let versions = held.versions();
            assert(views(versions@)[i as int] == versions@[i as int]@);
            Ok(headers_of(&versions[i]))
        },
        None => Err(Error::NotFound),
    }
}

/// Answers a GET, given the record that the object table holds: the
/// headers of the latest complete version and the plan for its body.
/// `NotFound` where the object is absent, has no complete version, or its
/// latest complete version is a delete marker.
pub fn handle_get(object: Option<&Object>) -> (r: Result<(ResponseHeaders, BodyPlan), Error>)
    ensures
        match object {
            Some(o) => match latest(o@.versions, false) {
                Some(i) => if o@.versions[i].data is DeleteMarker {
                    r matches Err(Error::NotFound)
                } else {
                    r matches Ok((h, plan)) && h.describes(o@.versions[i]) && plan.serves(
                        o@.versions[i],
                    )
                },
                None => r matches Err(Error::NotFound),
            },
            None => r matches Err(Error::NotFound),
        },
{
    let held = match object {
        Some(o) => o,
        None => {
            return Err(Error::NotFound);
        },
    };
    let i = match select_version(held, false) {
        Some(i) => i,
        None => {
            return Err(Error::NotFound);
        },
    };
    let versions = held.versions();
    assert(views(versions@)[i as int] == versions@[i as int]@);
    let v = &versions[i];
    let plan = match &v.data {
        ObjectVersionData::DeleteMarker => {
            return Err(Error::NotFound);
        },
        ObjectVersionData::Inline(bytes) => BodyPlan::Inline(
            vstd::slice::slice_to_vec(bytes.as_slice()),
        ),
        ObjectVersionData::FirstBlock(h) => BodyPlan::Blocks {
            version_uuid: v.uuid,
            first_block: *h,
        },
    };
    Ok((headers_of(v), plan))
}

/// One block of a body to stream: its content address, and its bytes where
/// they have been fetched already.
#[derive(Debug, Clone, PartialEq, Eq)]
pub struct BlockFetch {
    /// The block's content address.
    pub hash: BlockHash,
    /// The block's bytes, if they are at hand.
    pub prefetched: Option<Vec<u8>>,
}

/// The hashes of a version's blocks, in the order of their offsets.
pub open spec fn hashes(blocks: Seq<VersionBlock>) -> Seq<BlockHash> {
    blocks.map_values(|b: VersionBlock| b.hash)
}

/// The blocks of a body in the order in which they are streamed, given the
/// version record and the bytes of the first block.
///
/// The sequence follows the record's blocks by offset; the first entry
/// carries the bytes that were fetched, the others are fetched when the
/// stream reaches them. `NotFound` where the version record is absent;
/// `Internal` where it lists no block at all.
pub fn block_sequence(version: Option<&Version>, first_block: Vec<u8>) -> (r: Result<
    Vec<BlockFetch>,
    Error,
>)
    ensures
        match version {
            None => r matches Err(Error::NotFound),
            Some(v) => if v@.blocks.len() == 0 {
                r matches Err(Error::Internal(_))
            } else {
                &&& r matches Ok(seq)
                &&& seq@.len() == v@.blocks.len()
                &&& forall|i: int|
                    0 <= i < seq@.len() ==> (#[trigger] seq@[i]).hash == v@.blocks[i].hash
                &&& seq@[0].prefetched matches Some(bytes) && bytes@ == first_block@
                &&& forall|i: int| 1 <= i < seq@.len() ==> (#[trigger] seq@[i]).prefetched is None
            },
        },
{
    let version = match version {
        Some(v) => v,
        None => {
            return Err(Error::NotFound);
        },
    };
    let blocks = version.blocks();
    if blocks.len() == 0 {
        return Err(Error::Internal("Version lists no block".to_string()));
    }
    let mut seq: Vec<BlockFetch> = Vec::new();
    seq.push(BlockFetch { hash: blocks[0].hash, prefetched: Some(first_block) });
    let mut i: usize = 1;
    while i < blocks.len()
        invariant
            1 <= i <= blocks@.len(),
            blocks@ == version@.blocks,
            seq@.len() == i,
            forall|j: int| 0 <= j < i ==> (#[trigger] seq@[j]).hash == blocks@[j].hash,
            seq@[0].prefetched matches Some(bytes) && bytes@ == first_block@,
            forall|j: int| 1 <= j < i ==> (#[trigger] seq@[j]).prefetched is None,
        decreases blocks@.len() - i,
    {
        seq.push(BlockFetch { hash: blocks[i].hash, prefetched: None });
        i += 1;
    }
    Ok(seq)
}

} // verus!
