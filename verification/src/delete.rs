//! The DELETE pipeline's decision: whether there is anything to delete, and
//! the tombstone to write if there is.

use vstd::prelude::*;
use vstd::string::*;
use crate::data::{Uuid, zero_uuid_bytes};
use crate::entries::{
    Entry, entry_of, holds, lemma_get_index, lemma_merged, lemma_position, merged, position,
};
use crate::get::{latest, lemma_latest, lemma_latest_is, passes};
use crate::object::{
    DataView, Object, ObjectVersion, ObjectVersionData, ObjectVersionView, ObjectView,
    lemma_data_max_laws, lemma_object_merge_versions, single_version, views,
};

verus! {

/// Whether some version is not a delete marker.
pub open spec fn has_active_version(versions: Seq<ObjectVersionView>) -> bool {
    exists|i: int| 0 <= i < versions.len() && !((#[trigger] versions[i]).data is DeleteMarker)
}

/// Whether a DELETE has something to delete: the object exists and not all
/// of its versions are delete markers.
pub open spec fn needs_delete(existing: Option<ObjectView>) -> bool {
    match existing {
        None => false,
        Some(o) => has_active_version(o.versions),
    }
}

/// The tombstone version that a DELETE writes.
pub open spec fn delete_marker(uuid: Uuid, timestamp: u64) -> ObjectVersionView {
    ObjectVersionView {
        uuid,
        timestamp,
        mime_type: "application/x-delete-marker"@,
        size: 0,
        is_complete: true,
        data: DataView::DeleteMarker,
    }
}

/// What a DELETE answers and writes.
#[derive(Debug)]
pub struct Deletion {
    /// The uuid to answer with: that of the tombstone, or the all-zero
    /// sentinel when there was nothing to delete.
    pub version_uuid: Uuid,
    /// The record to insert into the object table, if any.
    pub insert: Option<Object>,
}

/// Whether some version of `object` is not a delete marker.
pub fn is_active(object: &Object) -> (r: bool)
    ensures
        r == has_active_version(object@.versions),
{
    let versions = object.versions();
    let mut i: usize = 0;
    while i < versions.len()
        invariant
            i <= versions@.len(),
            views(versions@) == object@.versions,
            forall|j: int| 0 <= j < i ==> (#[trigger] object@.versions[j]).data is DeleteMarker,
        decreases versions@.len() - i,
    {
        if !versions[i].data.is_delete_marker() {
            assert(!(object@.versions[i as int].data is DeleteMarker));
            return true;
        }
        i += 1;
    }
    false
}

/// Decides a DELETE of the object at (`bucket`, `key`), given the record
/// that the object table holds for it, if any.
///
/// Where the object is absent, or every version of it is a delete marker,
/// nothing is written and the answer is the zero uuid. Otherwise a complete
/// delete marker `version_uuid`, written at `timestamp`, is to be inserted,
/// and `version_uuid` is the answer.
pub fn handle_delete(
    existing: Option<&Object>,
    bucket: &str,
    key: &str,
    version_uuid: Uuid,
    timestamp: u64,
) -> (d: Deletion)
    ensures
        match existing {
            Some(o) if has_active_version(o@.versions) => {
                &&& d.version_uuid == version_uuid
                &&& d.insert matches Some(object)
                &&& object.wf()
                &&& object@ == single_version(
                    bucket@,
                    key@,
                    delete_marker(version_uuid, timestamp),
                )
            },
            _ => d.version_uuid@ == zero_uuid_bytes() && d.insert is None,
        },
{
    let exists = match existing {
        None => false,
        Some(o) => is_active(o),
    };
    if !exists {
        return Deletion { version_uuid: Uuid::zero(), insert: None };
    }
    let marker = ObjectVersion {
        uuid: version_uuid,
        timestamp,
        mime_type: "application/x-delete-marker".to_string(),
        size: 0,
        is_complete: true,
        data: ObjectVersionData::DeleteMarker,
    };
    let object = Object::single(bucket.to_string(), key.to_string(), marker);
    Deletion { version_uuid, insert: Some(object) }
}

/// What the object table holds after a DELETE, given what it held before:
/// the same where there was nothing to delete, else the record with the
/// delete marker merged in.
pub open spec fn after_delete(
    existing: Option<ObjectView>,
    version_uuid: Uuid,
    timestamp: u64,
) -> Option<ObjectView> {
    match existing {
        Some(o) if has_active_version(o.versions) => Some(
            o.merged(single_version(o.bucket, o.key, delete_marker(version_uuid, timestamp))),
        ),
        _ => existing,
    }
}

/// A DELETE of an object that is absent, or whose versions are all delete
/// markers, changes nothing; so the DELETE that follows it finds nothing to
/// delete either.
pub proof fn lemma_delete_of_deleted(existing: Option<ObjectView>, version_uuid: Uuid, timestamp: u64)
    requires
        !needs_delete(existing),
    ensures
        after_delete(existing, version_uuid, timestamp) == existing,
        !needs_delete(after_delete(existing, version_uuid, timestamp)),
{
}

/// A delete marker that a GET reads is still what a GET reads after older
/// versions have been merged in.
///
/// `marker` is the index of the latest complete version of `a`, a delete
/// marker. Every version of `b` is older than it, and none of them is the
/// complete record of a version that `a` holds, in progress, as newer than
/// the marker. Then the latest complete version of the merge is the same
/// delete marker.
pub proof fn lemma_delete_marker_survives(a: ObjectView, b: ObjectView, marker: int)
    requires
        a.wf(),
        b.wf(),
        latest(a.versions, false) == Some(marker),
        a.versions[marker].data is DeleteMarker,
        forall|j: int|
            0 <= j < b.versions.len() ==> (#[trigger] b.versions[j]).timestamp
                < a.versions[marker].timestamp,
        forall|j: int, k: int|
            0 <= j < b.versions.len() && marker < k < a.versions.len() && (
            #[trigger] b.versions[j]).uuid == (#[trigger] a.versions[k]).uuid
                ==> !b.versions[j].is_complete,
    ensures
        latest(a.merged(b).versions, false) matches Some(m) && a.merged(b).versions[m].data
            is DeleteMarker && a.merged(b).versions[m].uuid == a.versions[marker].uuid
            && a.merged(b).versions[m].timestamp == a.versions[marker].timestamp,
{
    let all = a.merged(b).versions;
    lemma_merged(a.versions, b.versions);
    lemma_latest(a.versions, false);
    let d = a.versions[marker];
    lemma_get_index(a.versions, marker);
    lemma_object_merge_versions(a, b, d.uuid);
    lemma_position(all, d.uuid);
    let m = position(all, d.uuid) as int;
    let kept = all[m];
    if holds(b.versions, d.uuid) {
        lemma_position(b.versions, d.uuid);
        let other = entry_of(b.versions, d.uuid);
        lemma_data_max_laws(d.data, other.data, other.data);
    }
    assert(kept.is_complete && kept.data is DeleteMarker && kept.timestamp == d.timestamp
        && kept.uuid == d.uuid);
    assert forall|j: int| m < j < all.len() implies !passes(#[trigger] all[j], false) by {
        let x = all[j];
        assert(kept.before(x));
        assert(kept.uuid != x.uuid);
        lemma_get_index(all, j);
        lemma_object_merge_versions(a, b, x.uuid);
        if holds(a.versions, x.uuid) {
            lemma_position(a.versions, x.uuid);
            let k = position(a.versions, x.uuid) as int;
            let mine = a.versions[k];
            ObjectVersionView::lemma_before(mine, d, mine);
            if k < marker {
                assert(mine.before(d));
            }
            if holds(b.versions, x.uuid) {
                lemma_position(b.versions, x.uuid);
                let q = position(b.versions, x.uuid) as int;
                let theirs = b.versions[q];
                assert(theirs.timestamp < d.timestamp);
                assert(x == mine.join(theirs));
                if marker < k {
                    assert(!theirs.is_complete);
                }
            } else {
                assert(x == mine);
            }
        } else {
            lemma_position(b.versions, x.uuid);
            let q = position(b.versions, x.uuid) as int;
            assert(b.versions[q].timestamp < d.timestamp);
        }
    }
    lemma_latest_is(all, false, m);
}

} // verus!
