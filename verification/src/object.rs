//! The object table's records: an object is the set of its versions.

use vstd::prelude::*;
use vstd::slice::slice_to_vec;
use crate::data::{BlockHash, Uuid, lemma_hash_ext, lemma_uuid_ext};
use crate::entries::{
    Entry, as_map, entry_of, holds, join_maps, lemma_merged,
    lemma_merged_associative, lemma_merged_commutative, lemma_merged_idempotent,
    lemma_merged_one, lemma_position_is, lemma_rank_is, lemma_upsert, merged, upsert,
    well_formed,
};
use crate::order::{
    bytes_le, lemma_lex_antisym, lemma_lex_refl, lemma_lex_total,
    lemma_lex_trans, lemma_text_max_laws, lex_le, str_le, text_max,
};

verus! {

/// Where the bytes of a version are.
#[derive(Debug, Clone, PartialEq, Eq)]
pub enum ObjectVersionData {
    /// The version is a tombstone: the key is logically removed.
    DeleteMarker,
    /// The whole payload, held in the record itself.
    Inline(Vec<u8>),
    /// The hash of the first block; the version table lists them all.
    FirstBlock(BlockHash),
}

/// The mathematical value of an `ObjectVersionData`.
pub enum DataView {
    DeleteMarker,
    Inline(Seq<u8>),
    FirstBlock(BlockHash),
}

impl View for ObjectVersionData {
    type V = DataView;

    open spec fn view(&self) -> DataView {
        match self {
            ObjectVersionData::DeleteMarker => DataView::DeleteMarker,
            ObjectVersionData::Inline(bytes) => DataView::Inline(bytes@),
            ObjectVersionData::FirstBlock(h) => DataView::FirstBlock(*h),
        }
    }
}

impl DataView {
    /// The byte string by which conflicting payloads are ordered: inline
    /// data first, then block references, then the delete marker, each kind
    /// by its own bytes.
    pub open spec fn sort_key(self) -> Seq<u8> {
        match self {
            DataView::Inline(bytes) => seq![0u8] + bytes,
            DataView::FirstBlock(h) => seq![1u8] + h@,
            DataView::DeleteMarker => seq![2u8],
        }
    }

    /// `self` does not come after `other`.
    pub open spec fn le(self, other: DataView) -> bool {
        lex_le(self.sort_key(), other.sort_key())
    }

    /// The greater of two payloads. A delete marker is greater than
    /// anything else.
    pub open spec fn max(self, other: DataView) -> DataView {
        if self.le(other) {
            other
        } else {
            self
        }
    }
}

/// The sort key tells payloads apart.
pub proof fn lemma_sort_key_injective(a: DataView, b: DataView)
    requires
        a.sort_key() == b.sort_key(),
    ensures
        a == b,
{
    let ka = a.sort_key();
    let kb = b.sort_key();
    assert(ka[0] == kb[0]);
    assert(ka[0] == (match a {
        DataView::Inline(_) => 0u8,
        DataView::FirstBlock(_) => 1u8,
        DataView::DeleteMarker => 2u8,
    }));
    assert(kb[0] == (match b {
        DataView::Inline(_) => 0u8,
        DataView::FirstBlock(_) => 1u8,
        DataView::DeleteMarker => 2u8,
    }));
    match (a, b) {
        (DataView::Inline(x), DataView::Inline(y)) => {
            assert(x =~= ka.drop_first());
            assert(y =~= kb.drop_first());
            assert(x == y);
        },
        (DataView::FirstBlock(x), DataView::FirstBlock(y)) => {
            assert(x@ =~= ka.drop_first());
            assert(y@ =~= kb.drop_first());
            lemma_hash_ext(x, y);
        },
        (DataView::DeleteMarker, DataView::DeleteMarker) => {},
        _ => {
            assert(false);
        },
    }
}

/// Keeping the greater payload is idempotent, commutative and associative,
/// and a delete marker wins against everything.
pub proof fn lemma_data_max_laws(a: DataView, b: DataView, c: DataView)
    ensures
        a.max(a) == a,
        a.max(b) == b.max(a),
        a.max(b).max(c) == a.max(b.max(c)),
        a.max(b) == a || a.max(b) == b,
        (a.max(b) is DeleteMarker) <==> (a is DeleteMarker || b is DeleteMarker),
{
    let ka = a.sort_key();
    let kb = b.sort_key();
    let kc = c.sort_key();
    lemma_lex_refl(ka);
    lemma_lex_total(ka, kb);
    lemma_lex_total(kb, kc);
    lemma_lex_total(ka, kc);
    if lex_le(ka, kb) && lex_le(kb, ka) {
        lemma_lex_antisym(ka, kb);
        lemma_sort_key_injective(a, b);
    }
    if lex_le(kb, kc) && lex_le(kc, kb) {
        lemma_lex_antisym(kb, kc);
        lemma_sort_key_injective(b, c);
    }
    if lex_le(ka, kc) && lex_le(kc, ka) {
        lemma_lex_antisym(ka, kc);
        lemma_sort_key_injective(a, c);
    }
    if lex_le(ka, kb) && lex_le(kb, kc) {
        lemma_lex_trans(ka, kb, kc);
    }
    if lex_le(kb, ka) && lex_le(ka, kc) {
        lemma_lex_trans(kb, ka, kc);
    }
    if lex_le(ka, kc) && lex_le(kc, kb) {
        lemma_lex_trans(ka, kc, kb);
    }
    if lex_le(kc, ka) && lex_le(ka, kb) {
        lemma_lex_trans(kc, ka, kb);
    }
    if lex_le(kb, kc) && lex_le(kc, ka) {
        lemma_lex_trans(kb, kc, ka);
    }
    if lex_le(kc, kb) && lex_le(kb, ka) {
        lemma_lex_trans(kc, kb, ka);
    }
    lemma_marker_is_greatest(a, b);
    lemma_marker_is_greatest(b, a);
}

/// Everything is below the delete marker, and only the marker is above it.
pub proof fn lemma_marker_is_greatest(a: DataView, b: DataView)
    ensures
        b is DeleteMarker ==> a.le(b),
        a is DeleteMarker && a.le(b) ==> b is DeleteMarker,
{
    let ka = a.sort_key();
    let kb = b.sort_key();
    assert(ka.len() > 0 && kb.len() > 0);
    if b is DeleteMarker {
        if a is DeleteMarker {
            lemma_lex_refl(ka);
        } else {
            assert(ka[0] < kb[0]);
        }
    }
    if a is DeleteMarker && !(b is DeleteMarker) {
        assert(kb[0] < ka[0]);
    }
}

impl ObjectVersionData {
    /// Whether this is the tombstone.
    pub fn is_delete_marker(&self) -> (r: bool)
        ensures
            r == (self@ is DeleteMarker),
    {
        match self {
            ObjectVersionData::DeleteMarker => true,
            _ => false,
        }
    }

    /// Whether `self` does not come after `other` in the order by which
    /// conflicting payloads are resolved.
    pub fn le(&self, other: &ObjectVersionData) -> (r: bool)
        ensures
            r == self@.le(other@),
    {
        let ghost ka = self@.sort_key();
        let ghost kb = other@.sort_key();
        match (self, other) {
            (ObjectVersionData::Inline(x), ObjectVersionData::Inline(y)) => {
                assert(ka.drop_first() =~= x@);
                assert(kb.drop_first() =~= y@);
                bytes_le(x.as_slice(), y.as_slice())
            },
            (ObjectVersionData::FirstBlock(x), ObjectVersionData::FirstBlock(y)) => {
                assert(ka.drop_first() =~= x@);
                assert(kb.drop_first() =~= y@);
                x.le(y)
            },
            (ObjectVersionData::Inline(_), _) => {
                assert(ka[0] < kb[0]);
                true
            },
            (ObjectVersionData::FirstBlock(_), ObjectVersionData::Inline(_)) => {
                assert(kb[0] < ka[0]);
                false
            },
            (ObjectVersionData::FirstBlock(_), ObjectVersionData::DeleteMarker) => {
                assert(ka[0] < kb[0]);
                true
            },
            (ObjectVersionData::DeleteMarker, ObjectVersionData::DeleteMarker) => {
                assert(ka.drop_first() =~= kb.drop_first());
                assert(lex_le(ka.drop_first(), kb.drop_first()));
                true
            },
            (ObjectVersionData::DeleteMarker, _) => {
                assert(kb[0] < ka[0]);
                false
            },
        }
    }

    /// A copy of the payload.
    pub fn duplicate(&self) -> (r: ObjectVersionData)
        ensures
            r@ == self@,
    {
        match self {
            ObjectVersionData::DeleteMarker => ObjectVersionData::DeleteMarker,
            ObjectVersionData::Inline(bytes) => ObjectVersionData::Inline(
                slice_to_vec(bytes.as_slice()),
            ),
            ObjectVersionData::FirstBlock(h) => ObjectVersionData::FirstBlock(*h),
        }
    }
}

/// One version of an object.
#[derive(Debug, Clone, PartialEq, Eq)]
pub struct ObjectVersion {
    /// Identifies the version.
    pub uuid: Uuid,
    /// When the version was written, in milliseconds since the epoch.
    pub timestamp: u64,
    /// The content type given with the upload.
    pub mime_type: String,
    /// The payload's length in bytes, as far as it is known.
    pub size: u64,
    /// Whether every block of the version has been stored.
    pub is_complete: bool,
    /// Where the payload is.
    pub data: ObjectVersionData,
}

/// The mathematical value of an `ObjectVersion`.
pub struct ObjectVersionView {
    pub uuid: Uuid,
    pub timestamp: u64,
    pub mime_type: Seq<char>,
    pub size: u64,
    pub is_complete: bool,
    pub data: DataView,
}

impl View for ObjectVersion {
    type V = ObjectVersionView;

    open spec fn view(&self) -> ObjectVersionView {
        ObjectVersionView {
            uuid: self.uuid,
            timestamp: self.timestamp,
            mime_type: self.mime_type@,
            size: self.size,
            is_complete: self.is_complete,
            data: self.data@,
        }
    }
}

impl Entry for ObjectVersionView {
    type Id = Uuid;

    /// A version is identified by its uuid.
    open spec fn id(self) -> Uuid {
        self.uuid
    }

    /// Versions are laid out by timestamp, ties broken by uuid.
    open spec fn before(self, other: Self) -> bool {
        self.timestamp < other.timestamp || (self.timestamp == other.timestamp && !lex_le(
            other.uuid@,
            self.uuid@,
        ))
    }

    /// A delete marker has size zero.
    open spec fn valid(self) -> bool {
        self.data is DeleteMarker ==> self.size == 0
    }

    /// Two records of one version merge into the later timestamp, the
    /// greater type and payload, the larger size (zero for a delete
    /// marker), and are complete as soon as either is.
    open spec fn join(self, other: Self) -> Self {
        let data = self.data.max(other.data);
        ObjectVersionView {
            uuid: self.uuid,
            timestamp: if self.timestamp >= other.timestamp {
                self.timestamp
            } else {
                other.timestamp
            },
            mime_type: text_max(self.mime_type, other.mime_type),
            size: if data is DeleteMarker {
                0
            } else if self.size >= other.size {
                self.size
            } else {
                other.size
            },
            is_complete: self.is_complete || other.is_complete,
            data,
        }
    }

    proof fn lemma_before(a: Self, b: Self, c: Self) {
        lemma_lex_refl(a.uuid@);
        lemma_lex_total(a.uuid@, b.uuid@);
        if lex_le(a.uuid@, b.uuid@) && lex_le(b.uuid@, a.uuid@) {
            lemma_lex_antisym(a.uuid@, b.uuid@);
            lemma_uuid_ext(a.uuid, b.uuid);
        }
        if lex_le(c.uuid@, b.uuid@) && lex_le(b.uuid@, a.uuid@) {
            lemma_lex_trans(c.uuid@, b.uuid@, a.uuid@);
        }
        lemma_lex_total(b.uuid@, c.uuid@);
        if lex_le(c.uuid@, a.uuid@) && lex_le(a.uuid@, b.uuid@) {
            lemma_lex_trans(c.uuid@, a.uuid@, b.uuid@);
        }
    }

    proof fn lemma_join(a: Self, b: Self, c: Self) {
        lemma_data_max_laws(a.data, b.data, c.data);
        lemma_data_max_laws(a.data, a.data, b.data);
        lemma_data_max_laws(a.data.max(b.data), c.data, c.data);
        lemma_data_max_laws(a.data, b.data.max(c.data), c.data);
        lemma_data_max_laws(b.data, c.data, c.data);
        lemma_text_max_laws(a.mime_type, b.mime_type, c.mime_type);
    }
}

impl ObjectVersion {
    /// Whether the version meets its invariant: a delete marker has size
    /// zero.
    pub fn is_valid(&self) -> (r: bool)
        ensures
            r == self@.valid(),
    {
        !self.data.is_delete_marker() || self.size == 0
    }

    /// Whether `self` is laid out before `other`: by timestamp, ties broken
    /// by uuid.
    pub fn is_before(&self, other: &ObjectVersion) -> (r: bool)
        ensures
            r == self@.before(other@),
    {
        self.timestamp < other.timestamp || (self.timestamp == other.timestamp && !other.uuid.le(
            &self.uuid,
        ))
    }

    /// A copy of the version.
    pub fn duplicate(&self) -> (r: ObjectVersion)
        ensures
            r@ == self@,
    {
        ObjectVersion {
            uuid: self.uuid,
            timestamp: self.timestamp,
            mime_type: self.mime_type.clone(),
            size: self.size,
            is_complete: self.is_complete,
            data: self.data.duplicate(),
        }
    }

    /// Merges another record of the same version into this one.
    pub fn merge(&mut self, other: &ObjectVersion)
        ensures
            final(self)@ == old(self)@.join(other@),
    {
        if other.timestamp > self.timestamp {
            self.timestamp = other.timestamp;
        }
        if str_le(self.mime_type.as_str(), other.mime_type.as_str()) {
            self.mime_type = other.mime_type.clone();
        }
        if self.data.le(&other.data) {
            self.data = other.data.duplicate();
        }
        if self.data.is_delete_marker() {
            self.size = 0;
        } else if other.size > self.size {
            self.size = other.size;
        }
        if other.is_complete {
            self.is_complete = true;
        }
    }
}

/// The mathematical values of a list of versions.
pub open spec fn views(versions: Seq<ObjectVersion>) -> Seq<ObjectVersionView> {
    versions.map_values(|v: ObjectVersion| v@)
}

/// The object at one (bucket, key): the set of its versions, at most one per
/// uuid, laid out by timestamp and then uuid.
#[derive(Debug, Clone, PartialEq, Eq)]
pub struct Object {
    bucket: String,
    key: String,
    versions: Vec<ObjectVersion>,
}

/// The mathematical value of an `Object`.
pub struct ObjectView {
    /// The bucket that holds the object; with `key`, the record's identity.
    pub bucket: Seq<char>,
    /// The object's key within the bucket.
    pub key: Seq<char>,
    /// The versions, oldest first.
    pub versions: Seq<ObjectVersionView>,
}

impl ObjectView {
    /// The versions are laid out in order, no uuid occurs twice, and every
    /// version is valid.
    pub open spec fn wf(self) -> bool {
        well_formed(self.versions)
    }

    /// Whether two records stand under the same (bucket, key).
    pub open spec fn same_key(self, other: ObjectView) -> bool {
        self.bucket == other.bucket && self.key == other.key
    }

    /// What merging `other` into `self` gives: the versions of both, those
    /// with the same uuid joined.
    pub open spec fn merged(self, other: ObjectView) -> ObjectView {
        ObjectView {
            bucket: self.bucket,
            key: self.key,
            versions: merged(self.versions, other.versions),
        }
    }
}

/// The object record that holds exactly one version.
pub open spec fn single_version(
    bucket: Seq<char>,
    key: Seq<char>,
    version: ObjectVersionView,
) -> ObjectView {
    ObjectView { bucket, key, versions: seq![version] }
}

/// A list of one valid entry is well formed, and it is what putting the
/// entry into the empty list gives.
pub proof fn lemma_single_version(version: ObjectVersionView)
    requires
        version.valid(),
    ensures
        well_formed(seq![version]),
        merged(Seq::empty(), seq![version]) == seq![version],
{
    let none = Seq::<ObjectVersionView>::empty();
    lemma_merged_one(none, version);
    assert(none.insert(0, version) =~= seq![version]);
}

impl View for Object {
    type V = ObjectView;

    closed spec fn view(&self) -> ObjectView {
        ObjectView { bucket: self.bucket@, key: self.key@, versions: views(self.versions@) }
    }
}

/// Puts `v` into a well-formed list of versions.
fn upsert_version(versions: &mut Vec<ObjectVersion>, v: ObjectVersion)
    requires
        well_formed(views(old(versions)@)),
        v@.valid(),
    ensures
        views(final(versions)@) == upsert(views(old(versions)@), v@),
        well_formed(views(final(versions)@)),
{
    let ghost before = views(versions@);
    proof {
        lemma_upsert(before, v@);
    }
    let mut p: usize = 0;
    while p < versions.len() && !versions[p].uuid.same(&v.uuid)
        invariant
            p <= versions@.len(),
            views(versions@) == before,
            forall|i: int| 0 <= i < p ==> (#[trigger] before[i]).uuid != v.uuid,
        decreases versions@.len() - p,
    {
        p += 1;
    }
    proof {
        lemma_position_is(before, v@.uuid, p as int);
    }
    let joined = if p < versions.len() {
        let mut held = versions.remove(p);
        held.merge(&v);
        proof {
            assert(views(versions@) =~= before.remove(p as int));
        }
        held
    } else {
        v
    };
    let ghost rest = views(versions@);
    let mut k: usize = 0;
    while k < versions.len() && versions[k].is_before(&joined)
        invariant
            k <= versions@.len(),
            views(versions@) == rest,
            forall|i: int| 0 <= i < k ==> (#[trigger] rest[i]).before(joined@),
        decreases versions@.len() - k,
    {
        k += 1;
    }
    proof {
        lemma_rank_is(rest, joined@, k as int);
    }
    versions.insert(k, joined);
    proof {
        assert(views(versions@) =~= rest.insert(k as int, joined@));
    }
}

impl Object {
    /// The record's invariant: see `ObjectView::wf`.
    pub open spec fn wf(&self) -> bool {
        self@.wf()
    }

    /// The object at (`bucket`, `key`) that holds the given versions. They
    /// may come in any order; versions that share a uuid are joined.
    pub fn new(bucket: String, key: String, versions: Vec<ObjectVersion>) -> (o: Object)
        requires
            forall|i: int| 0 <= i < versions@.len() ==> (#[trigger] versions@[i])@.valid(),
        ensures
            o.wf(),
            o@.bucket == bucket@,
            o@.key == key@,
            o@.versions == merged(Seq::empty(), views(versions@)),
    {
        let mut held: Vec<ObjectVersion> = Vec::new();
        let ghost all = views(versions@);
        let mut i: usize = 0;
        assert(views(held@) =~= Seq::empty());
        while i < versions.len()
            invariant
                i <= versions@.len(),
                all == views(versions@),
                forall|j: int| 0 <= j < versions@.len() ==> (#[trigger] versions@[j])@.valid(),
                well_formed(views(held@)),
                views(held@) == merged(Seq::empty(), all.take(i as int)),
            decreases versions@.len() - i,
        {
            let v = versions[i].duplicate();
            proof {
                assert(all.take(i + 1).drop_last() =~= all.take(i as int));
                assert(all.take(i + 1).last() == v@);
            }
            upsert_version(&mut held, v);
            i += 1;
        }
        proof {
            assert(all.take(i as int) =~= all);
        }
        Object { bucket, key, versions: held }
    }

    /// The object record at (`bucket`, `key`) that holds `version` alone.
    pub fn single(bucket: String, key: String, version: ObjectVersion) -> (object: Object)
        requires
            version@.valid(),
        ensures
            object.wf(),
            object@ == single_version(bucket@, key@, version@),
    {
        let ghost v = version@;
        let list = vec![version];
        proof {
            lemma_single_version(v);
            assert(views(list@) =~= seq![v]);
        }
        Object::new(bucket, key, list)
    }

    /// The versions, oldest first.
    pub fn versions(&self) -> (r: &Vec<ObjectVersion>)
        ensures
            views(r@) == self@.versions,
    {
        &self.versions
    }

    /// The bucket's name.
    pub fn bucket(&self) -> (r: &String)
        ensures
            r@ == self@.bucket,
    {
        &self.bucket
    }

    /// The object's key.
    pub fn key(&self) -> (r: &String)
        ensures
            r@ == self@.key,
    {
        &self.key
    }

    /// Merges another record of the same object into this one: the result
    /// holds the versions of both, and versions with the same uuid are
    /// joined.
    pub fn merge(&mut self, other: &Object)
        requires
            old(self).wf(),
            other.wf(),
        ensures
            final(self).wf(),
            final(self)@ == old(self)@.merged(other@),
    {
        let ghost mine = views(self.versions@);
        let ghost theirs = views(other.versions@);
        let mut i: usize = 0;
        while i < other.versions.len()
            invariant
                i <= other.versions@.len(),
                theirs == views(other.versions@),
                well_formed(theirs),
                well_formed(views(self.versions@)),
                views(self.versions@) == merged(mine, theirs.take(i as int)),
                self.bucket == old(self).bucket,
                self.key == old(self).key,
            decreases other.versions@.len() - i,
        {
            let v = other.versions[i].duplicate();
            proof {
                assert(theirs.take(i + 1).drop_last() =~= theirs.take(i as int));
                assert(theirs.take(i + 1).last() == v@);
                assert(theirs[i as int].valid());
            }
            upsert_version(&mut self.versions, v);
            i += 1;
        }
        proof {
            assert(theirs.take(i as int) =~= theirs);
        }
    }
}

/// Merging two well-formed records gives a well-formed record.
pub proof fn lemma_object_merge_wf(a: ObjectView, b: ObjectView)
    requires
        a.wf(),
        b.wf(),
    ensures
        a.merged(b).wf(),
{
    lemma_merged(a.versions, b.versions);
}

/// Merging a record with itself is the identity.
pub proof fn lemma_object_merge_idempotent(a: ObjectView)
    requires
        a.wf(),
    ensures
        a.merged(a) == a,
{
    lemma_merged_idempotent(a.versions);
}

/// Two records of one object merge into the same record whichever is
/// merged into the other.
pub proof fn lemma_object_merge_commutative(a: ObjectView, b: ObjectView)
    requires
        a.wf(),
        b.wf(),
        a.same_key(b),
    ensures
        a.merged(b) == b.merged(a),
{
    lemma_merged_commutative(a.versions, b.versions);
}

/// Three records merge into the same record however the merges are
/// grouped.
pub proof fn lemma_object_merge_associative(a: ObjectView, b: ObjectView, c: ObjectView)
    requires
        a.wf(),
        b.wf(),
        c.wf(),
    ensures
        a.merged(b).merged(c) == a.merged(b.merged(c)),
{
    lemma_merged_associative(a.versions, b.versions, c.versions);
}

/// What a merge holds under each uuid: the version of the record that has
/// it, or the join of both where both have it.
pub proof fn lemma_object_merge_versions(a: ObjectView, b: ObjectView, uuid: Uuid)
    requires
        a.wf(),
        b.wf(),
    ensures
        holds(a.merged(b).versions, uuid) == (holds(a.versions, uuid) || holds(b.versions, uuid)),
        holds(a.versions, uuid) && holds(b.versions, uuid) ==> entry_of(
            a.merged(b).versions,
            uuid,
        ) == entry_of(a.versions, uuid).join(entry_of(b.versions, uuid)),
        holds(a.versions, uuid) && !holds(b.versions, uuid) ==> entry_of(
            a.merged(b).versions,
            uuid,
        ) == entry_of(a.versions, uuid),
        !holds(a.versions, uuid) && holds(b.versions, uuid) ==> entry_of(
            a.merged(b).versions,
            uuid,
        ) == entry_of(b.versions, uuid),
{
    lemma_merged(a.versions, b.versions);
    let m = as_map(a.merged(b).versions);
    let j = join_maps(as_map(a.versions), as_map(b.versions));
    assert(m.dom().contains(uuid) == j.dom().contains(uuid));
    assert(as_map(a.versions).dom().contains(uuid) == holds(a.versions, uuid));
    assert(as_map(b.versions).dom().contains(uuid) == holds(b.versions, uuid));
    if m.dom().contains(uuid) {
        assert(m[uuid] == j[uuid]);
    }
}

/// Once a version is complete, it is complete in every later merge, and
/// its size never shrinks unless it turns out to be a delete marker.
pub proof fn lemma_complete_is_monotone(a: ObjectView, b: ObjectView, uuid: Uuid)
    requires
        a.wf(),
        b.wf(),
        holds(a.versions, uuid),
    ensures
        holds(a.merged(b).versions, uuid),
        entry_of(a.versions, uuid).is_complete ==> entry_of(a.merged(b).versions, uuid).is_complete,
        !(entry_of(a.merged(b).versions, uuid).data is DeleteMarker) ==> entry_of(
            a.merged(b).versions,
            uuid,
        ).size >= entry_of(a.versions, uuid).size,
{
    lemma_object_merge_versions(a, b, uuid);
}

} // verus!
