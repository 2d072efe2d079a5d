//! The bucket table's records, and their migration from the earlier
//! record format.

use vstd::prelude::*;
use vstd::string::*;
use crate::crdt::{Crdt, Lww, LwwView};
use crate::entries::{lemma_merged_one, merged, well_formed};
use crate::lww_map::{LwwItem, LwwMap, items};

verus! {

/// What a key may do on a bucket.
#[derive(Debug, Clone, Copy, PartialEq, Eq, Structural)]
pub struct PermissionSet {
    pub allow_read: bool,
    pub allow_write: bool,
}

impl View for PermissionSet {
    type V = PermissionSet;

    open spec fn view(&self) -> PermissionSet {
        *self
    }
}

/// Two permission sets written at the same time merge into the greater
/// one: the one that allows reading, or, if they agree on reading, the one
/// that allows writing.
impl Crdt for PermissionSet {
    open spec fn valid(a: PermissionSet) -> bool {
        true
    }

    open spec fn join(a: PermissionSet, b: PermissionSet) -> PermissionSet {
        if a.allow_read != b.allow_read {
            if a.allow_read {
                a
            } else {
                b
            }
        } else {
            PermissionSet {
                allow_read: a.allow_read,
                allow_write: a.allow_write || b.allow_write,
            }
        }
    }

    open spec fn wf(&self) -> bool {
        true
    }

    proof fn lemma_join_laws(a: PermissionSet, b: PermissionSet, c: PermissionSet) {
    }

    proof fn lemma_wf(&self) {
    }

    fn merge(&mut self, other: &PermissionSet) {
        if self.allow_read != other.allow_read {
            if other.allow_read {
                *self = *other;
            }
        } else if other.allow_write {
            self.allow_write = true;
        }
    }

    fn duplicate(&self) -> (r: PermissionSet) {
        *self
    }
}

/// The parameters of a bucket that exists.
#[derive(Debug, Clone, PartialEq, Eq)]
pub struct BucketParams {
    /// The keys that may use the bucket, each with what it may do.
    pub authorized_keys: LwwMap<PermissionSet>,
    /// Whether the bucket is served as a website.
    pub website: Lww<bool>,
}

/// The mathematical value of a `BucketParams`.
pub struct BucketParamsView {
    pub authorized_keys: Seq<LwwItem<PermissionSet>>,
    pub website: LwwView<bool>,
}

impl View for BucketParams {
    type V = BucketParamsView;

    open spec fn view(&self) -> BucketParamsView {
        BucketParamsView { authorized_keys: self.authorized_keys@, website: self.website@ }
    }
}

/// Parameters merge field by field.
impl Crdt for BucketParams {
    open spec fn valid(a: BucketParamsView) -> bool {
        well_formed(a.authorized_keys)
    }

    open spec fn join(a: BucketParamsView, b: BucketParamsView) -> BucketParamsView {
        BucketParamsView {
            authorized_keys: merged(a.authorized_keys, b.authorized_keys),
            website: Lww::<bool>::join(a.website, b.website),
        }
    }

    open spec fn wf(&self) -> bool {
        self.authorized_keys.wf() && self.website.wf()
    }

    proof fn lemma_join_laws(a: BucketParamsView, b: BucketParamsView, c: BucketParamsView) {
        LwwMap::<PermissionSet>::lemma_join_laws(
            a.authorized_keys,
            b.authorized_keys,
            c.authorized_keys,
        );
        Lww::<bool>::lemma_join_laws(a.website, b.website, c.website);
    }

    proof fn lemma_wf(&self) {
        self.authorized_keys.lemma_wf();
    }

    fn merge(&mut self, o: &BucketParams) {
        self.authorized_keys.merge(&o.authorized_keys);
        self.website.merge(&o.website);
    }

    fn duplicate(&self) -> (r: BucketParams) {
        BucketParams {
            authorized_keys: self.authorized_keys.duplicate(),
            website: self.website.duplicate(),
        }
    }
}

/// A bucket is either deleted or present with its parameters.
#[derive(Debug, Clone, PartialEq, Eq)]
pub enum BucketState {
    Deleted,
    Present(BucketParams),
}

/// The mathematical value of a `BucketState`.
pub enum BucketStateView {
    Deleted,
    Present(BucketParamsView),
}

impl View for BucketState {
    type V = BucketStateView;

    open spec fn view(&self) -> BucketStateView {
        match self {
            BucketState::Deleted => BucketStateView::Deleted,
            BucketState::Present(p) => BucketStateView::Present(p@),
        }
    }
}

/// Two states written at the same time merge into `Deleted` if either is,
/// and into the merged parameters if both are present.
impl Crdt for BucketState {
    open spec fn valid(a: BucketStateView) -> bool {
        match a {
            BucketStateView::Deleted => true,
            BucketStateView::Present(p) => BucketParams::valid(p),
        }
    }

    open spec fn join(a: BucketStateView, b: BucketStateView) -> BucketStateView {
        match (a, b) {
            (BucketStateView::Present(p), BucketStateView::Present(q)) => BucketStateView::Present(
                BucketParams::join(p, q),
            ),
            _ => BucketStateView::Deleted,
        }
    }

    open spec fn wf(&self) -> bool {
        match self {
            BucketState::Deleted => true,
            BucketState::Present(p) => p.wf(),
        }
    }

    proof fn lemma_join_laws(a: BucketStateView, b: BucketStateView, c: BucketStateView) {
        match (a, b, c) {
            (
                BucketStateView::Present(p),
                BucketStateView::Present(q),
                BucketStateView::Present(r),
            ) => {
                BucketParams::lemma_join_laws(p, q, r);
            },
            (BucketStateView::Present(p), BucketStateView::Present(q), _) => {
                BucketParams::lemma_join_laws(p, q, q);
            },
            (BucketStateView::Present(p), _, _) => {
                BucketParams::lemma_join_laws(p, p, p);
            },
            _ => {},
        }
    }

    proof fn lemma_wf(&self) {
        match self {
            BucketState::Deleted => {},
            BucketState::Present(p) => {
                p.lemma_wf();
            },
        }
    }

    fn merge(&mut self, o: &BucketState) {
        match o {
            BucketState::Deleted => {
                *self = BucketState::Deleted;
            },
            BucketState::Present(other_params) => {
                match self {
                    BucketState::Present(params) => {
                        params.merge(other_params);
                    },
                    BucketState::Deleted => {},
                }
            },
        }
    }

    fn duplicate(&self) -> (r: BucketState) {
        match self {
            BucketState::Deleted => BucketState::Deleted,
            BucketState::Present(p) => BucketState::Present(p.duplicate()),
        }
    }
}

/// The partition key of tables that have a single partition.
#[derive(Debug, Clone, Copy, PartialEq, Eq, Structural)]
pub struct EmptyKey;

/// Which entries a listing of a table wants, by their deletion flag.
#[derive(Debug, Clone, Copy, PartialEq, Eq, Structural)]
pub enum DeletedFilter {
    All,
    Deleted,
    NotDeleted,
}

impl DeletedFilter {
    /// Whether the filter lets an entry through.
    pub open spec fn lets_through(self, deleted: bool) -> bool {
        match self {
            DeletedFilter::All => true,
            DeletedFilter::Deleted => deleted,
            DeletedFilter::NotDeleted => !deleted,
        }
    }

    /// Whether the filter lets through an entry that is, or is not,
    /// deleted.
    pub fn apply(&self, deleted: bool) -> (r: bool)
        ensures
            r == self.lets_through(deleted),
    {
        match self {
            DeletedFilter::All => true,
            DeletedFilter::Deleted => deleted,
            DeletedFilter::NotDeleted => !deleted,
        }
    }
}

/// A bucket: a named collection of objects. Its state is a
/// last-writer-wins register, so that replicas agree on whether the bucket
/// exists and on its parameters.
#[derive(Debug, Clone, PartialEq, Eq)]
pub struct Bucket {
    /// The bucket's name; the record's identity.
    pub name: String,
    /// Whether the bucket exists, and its parameters if it does.
    pub state: Lww<BucketState>,
}

/// The mathematical value of a `Bucket`.
pub struct BucketView {
    pub name: Seq<char>,
    pub state: LwwView<BucketStateView>,
}

impl View for Bucket {
    type V = BucketView;

    open spec fn view(&self) -> BucketView {
        BucketView { name: self.name@, state: self.state@ }
    }
}

impl BucketView {
    /// The state's parameters, if any, are well formed.
    pub open spec fn wf(self) -> bool {
        BucketState::valid(self.state.v)
    }

    /// Whether two records stand under the same name.
    pub open spec fn same_key(self, other: BucketView) -> bool {
        self.name == other.name
    }

    /// What merging `other` into `self` gives: the later state; at equal
    /// times `Deleted` wins, and the parameters of two present states are
    /// merged.
    pub open spec fn merged(self, other: BucketView) -> BucketView {
        BucketView { name: self.name, state: Lww::<BucketState>::join(self.state, other.state) }
    }

    /// The state of a bucket that was created at `now` and has not been
    /// touched since: present, with no key authorised and no website.
    pub open spec fn fresh(name: Seq<char>, now: u64) -> BucketView {
        BucketView {
            name,
            state: LwwView {
                ts: now,
                v: BucketStateView::Present(
                    BucketParamsView {
                        authorized_keys: Seq::empty(),
                        website: LwwView { ts: now, v: false },
                    },
                ),
            },
        }
    }

    /// The keys authorised on the bucket: none when it is deleted.
    pub open spec fn authorized_keys(self) -> Seq<LwwItem<PermissionSet>> {
        match self.state.v {
            BucketStateView::Deleted => Seq::empty(),
            BucketStateView::Present(p) => p.authorized_keys,
        }
    }
}

impl Bucket {
    /// The record's invariant.
    pub open spec fn wf(&self) -> bool {
        self.state.wf()
    }

    /// A bucket created at `now`: present, with no key authorised and no
    /// website.
    pub fn new(name: String, now: u64) -> (b: Bucket)
        ensures
            b.wf(),
            b@ == BucketView::fresh(name@, now),
    {
        let params = BucketParams {
            authorized_keys: LwwMap::new(),
            website: Lww::new(now, false),
        };
        Bucket { name, state: Lww::new(now, BucketState::Present(params)) }
    }

    /// Whether the bucket is deleted.
    pub fn is_deleted(&self) -> (r: bool)
        ensures
            r == (self@.state.v is Deleted),
    {
        match self.state.get() {
            BucketState::Deleted => true,
            BucketState::Present(_) => false,
        }
    }

    /// The keys authorised on the bucket, by key id, each with the time of
    /// its last change and what it may do. None when the bucket is
    /// deleted.
    pub fn authorized_keys(&self) -> (r: &[(String, u64, PermissionSet)])
        ensures
            items(r@) == self@.authorized_keys(),
    {
        match self.state.get() {
            BucketState::Deleted => {
                let none: &[(String, u64, PermissionSet)] = &[];
                assert(items(none@) =~= Seq::empty());
                none
            },
            BucketState::Present(state) => state.authorized_keys.items(),
        }
    }

    /// The partition that the record belongs to: the table has only one.
    pub fn partition_key(&self) -> (k: EmptyKey)
        ensures
            k == EmptyKey,
    {
        EmptyKey
    }

    /// The key by which the record is sorted and found: the bucket's name.
    pub fn sort_key(&self) -> (k: &String)
        ensures
            k@ == self@.name,
    {
        &self.name
    }

    /// Merges another record of the same bucket into this one.
    pub fn merge(&mut self, other: &Bucket)
        requires
            old(self).wf(),
            other.wf(),
        ensures
            final(self).wf(),
            final(self)@ == old(self)@.merged(other@),
    {
        self.state.merge(&other.state);
    }
}

/// Merging bucket records keeps them well formed, and is idempotent,
/// commutative under one name, and associative.
pub proof fn lemma_bucket_merge_laws(a: BucketView, b: BucketView, c: BucketView)
    requires
        a.wf(),
        b.wf(),
        c.wf(),
    ensures
        a.merged(b).wf(),
        a.merged(a) == a,
        a.same_key(b) ==> a.merged(b) == b.merged(a),
        a.merged(b).merged(c) == a.merged(b.merged(c)),
{
    Lww::<BucketState>::lemma_join_laws(a.state, b.state, c.state);
}

/// A bucket that is deleted stays deleted under every merge with a state
/// that was not written later.
pub proof fn lemma_deleted_is_final(a: BucketView, b: BucketView)
    requires
        a.state.v is Deleted,
        b.state.ts <= a.state.ts,
    ensures
        a.merged(b).state.v is Deleted,
        b.merged(a).state.v is Deleted,
{
}

/// A key authorised on a bucket, in the earlier record format.
#[derive(Debug, Clone, PartialEq, Eq)]
pub struct LegacyKey {
    pub key_id: String,
    pub timestamp: u64,
    pub allow_read: bool,
    pub allow_write: bool,
}

/// A bucket record in the earlier format: one timestamp for the whole
/// record, a deletion flag, and the list of authorised keys.
#[derive(Debug, Clone, PartialEq, Eq)]
pub struct LegacyBucket {
    pub name: String,
    pub timestamp: u64,
    pub deleted: bool,
    pub authorized_keys: Vec<LegacyKey>,
}

/// The mathematical values of a list of legacy keys.
pub open spec fn legacy_keys(keys: Seq<LegacyKey>) -> Seq<(Seq<char>, u64, bool, bool)> {
    keys.map_values(|k: LegacyKey| (k.key_id@, k.timestamp, k.allow_read, k.allow_write))
}

/// The mathematical values of a list of keys as they are decoded.
pub open spec fn raw_keys(keys: Seq<(String, u64, bool, bool)>) -> Seq<
    (Seq<char>, u64, bool, bool),
> {
    keys.map_values(|k: (String, u64, bool, bool)| (k.0@, k.1, k.2, k.3))
}

/// The map entries that legacy keys stand for.
pub open spec fn legacy_items(keys: Seq<(Seq<char>, u64, bool, bool)>) -> Seq<
    LwwItem<PermissionSet>,
> {
    keys.map_values(
        |k: (Seq<char>, u64, bool, bool)|
            LwwItem::<PermissionSet> {
                key: k.0,
                ts: k.1,
                value: PermissionSet { allow_read: k.2, allow_write: k.3 },
            },
    )
}

/// The record that a legacy record stands for. The record's timestamp
/// becomes that of the state; the deletion flag becomes the state; each
/// key keeps its own timestamp, and where a key id occurs more than once
/// its entries are merged; the website flag is off.
pub open spec fn migrated(
    name: Seq<char>,
    timestamp: u64,
    deleted: bool,
    keys: Seq<(Seq<char>, u64, bool, bool)>,
) -> BucketView {
    BucketView {
        name,
        state: LwwView {
            ts: timestamp,
            v: if deleted {
                BucketStateView::Deleted
            } else {
                BucketStateView::Present(
                    BucketParamsView {
                        authorized_keys: merged(Seq::empty(), legacy_items(keys)),
                        website: LwwView { ts: timestamp, v: false },
                    },
                )
            },
        },
    }
}

/// The legacy bucket record that `bytes` encode, if they encode one: the
/// MessagePack array of name, timestamp, deletion flag and key list, each
/// key an array of id, timestamp and the two permissions, as `rmp_serde`
/// decodes it.
pub uninterp spec fn legacy_record(bytes: Seq<u8>) -> Option<
    (Seq<char>, u64, bool, Seq<(Seq<char>, u64, bool, bool)>),
>;

/// Calls `rmp_serde::from_slice` to decode a tuple of name, timestamp,
/// deletion flag and key list. The contract names what comes out
/// `legacy_record(bytes)`, `None` standing for every decoding error: the
/// decoder reads nothing but the bytes.
#[verifier::external_body]
fn decode_legacy(bytes: &[u8]) -> (r: Option<(String, u64, bool, Vec<(String, u64, bool, bool)>)>)
    ensures
        match r {
            Some(raw) => legacy_record(bytes@) == Some((raw.0@, raw.1, raw.2, raw_keys(raw.3@))),
            None => legacy_record(bytes@) is None,
        },
{
    rmp_serde::from_slice::<(String, u64, bool, Vec<(String, u64, bool, bool)>)>(bytes).ok()
}

/// Builds the map of authorised keys from the legacy list.
fn migrate_keys(keys: &Vec<LegacyKey>) -> (map: LwwMap<PermissionSet>)
    ensures
        map.wf(),
        map@ == merged(Seq::empty(), legacy_items(legacy_keys(keys@))),
{
    let ghost all = legacy_items(legacy_keys(keys@));
    let mut map: LwwMap<PermissionSet> = LwwMap::new();
    let mut i: usize = 0;
    while i < keys.len()
        invariant
            i <= keys@.len(),
            all == legacy_items(legacy_keys(keys@)),
            map.wf(),
            map@ == merged(Seq::empty(), all.take(i as int)),
        decreases keys@.len() - i,
    {
        let ak = &keys[i];
        let one = LwwMap::migrate_from_raw_item(
            ak.key_id.clone(),
            ak.timestamp,
            PermissionSet { allow_read: ak.allow_read, allow_write: ak.allow_write },
        );
        proof {
            let item = all[i as int];
            assert(one@ == seq![item]);
            lemma_merged_one(map@, item);
            assert(all.take(i + 1).drop_last() =~= all.take(i as int));
            assert(all.take(i + 1).last() == item);
        }
        map.merge(&one);
        i += 1;
    }
    proof {
        assert(all.take(i as int) =~= all);
    }
    map
}

impl LegacyBucket {
    /// The record in the current format that this legacy record stands
    /// for.
    pub fn migrate(self) -> (b: Bucket)
        ensures
            b.wf(),
            b@ == migrated(
                self.name@,
                self.timestamp,
                self.deleted,
                legacy_keys(self.authorized_keys@),
            ),
    {
        if self.deleted {
            Bucket {
                name: self.name,
                state: Lww::migrate_from_raw(self.timestamp, BucketState::Deleted),
            }
        } else {
            let keys = migrate_keys(&self.authorized_keys);
            let params = BucketParams {
                authorized_keys: keys,
                website: Lww::new(self.timestamp, false),
            };
            Bucket {
                name: self.name,
                state: Lww::migrate_from_raw(self.timestamp, BucketState::Present(params)),
            }
        }
    }
}

/// The schema of the bucket table: how its entries are filtered and how
/// records of the earlier format are read.
#[derive(Debug, Clone, Copy, PartialEq, Eq, Structural)]
pub struct BucketTable;

impl BucketTable {
    /// Whether a listing with `filter` shows `entry`.
    pub fn matches_filter(entry: &Bucket, filter: &DeletedFilter) -> (r: bool)
        ensures
            r == filter.lets_through(entry@.state.v is Deleted),
    {
        filter.apply(entry.is_deleted())
    }

    /// Reads a record of the earlier format: `None` where the bytes do not
    /// encode one, else the record in the current format that it stands
    /// for.
    pub fn try_migrate(bytes: &[u8]) -> (r: Option<Bucket>)
        ensures
            match legacy_record(bytes@) {
                Some(old) => r matches Some(b) && b.wf() && b@ == migrated(
                    old.0,
                    old.1,
                    old.2,
                    old.3,
                ),
                None => r is None,
            },
    {
        let raw = match decode_legacy(bytes) {
            Some(raw) => raw,
            None => {
                return None;
            },
        };
        let (name, timestamp, deleted, keys) = raw;
        let mut authorized_keys: Vec<LegacyKey> = Vec::new();
        let mut i: usize = 0;
        while i < keys.len()
            invariant
                i <= keys@.len(),
                legacy_keys(authorized_keys@) == raw_keys(keys@).take(i as int),
            decreases keys@.len() - i,
        {
            let ghost prev = legacy_keys(authorized_keys@);
            let key = LegacyKey {
                key_id: keys[i].0.clone(),
                timestamp: keys[i].1,
                allow_read: keys[i].2,
                allow_write: keys[i].3,
            };
            authorized_keys.push(key);
            proof {
                assert(legacy_keys(authorized_keys@) =~= prev.push(raw_keys(keys@)[i as int]));
                assert(prev.push(raw_keys(keys@)[i as int]) =~= raw_keys(keys@).take(i + 1));
            }
            i += 1;
        }
        proof {
            assert(raw_keys(keys@).take(i as int) =~= raw_keys(keys@));
        }
        let old = LegacyBucket { name, timestamp, deleted, authorized_keys };
        Some(old.migrate())
    }
}

} // verus!
