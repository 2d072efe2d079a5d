//! The last-writer-wins map: a register per key.

use vstd::prelude::*;
use vstd::string::*;
use crate::crdt::Crdt;
use crate::entries::{
    Entry, lemma_merged, lemma_merged_associative, lemma_merged_commutative,
    lemma_merged_idempotent, lemma_position_is, lemma_rank_is, lemma_upsert, merged, upsert,
    well_formed,
};
use crate::order::{lemma_text_order, str_le, text_le};

verus! {

/// One entry of a last-writer-wins map: a key, the time at which its value
/// was written, and the value.
pub struct LwwItem<T: Crdt> {
    pub key: Seq<char>,
    pub ts: u64,
    pub value: T::V,
}

impl<T: Crdt> Entry for LwwItem<T> {
    type Id = Seq<char>;

    /// An entry is identified by its key.
    open spec fn id(self) -> Seq<char> {
        self.key
    }

    /// Entries are laid out by key, compared as UTF-8 bytes.
    open spec fn before(self, other: Self) -> bool {
        self.key != other.key && text_le(self.key, other.key)
    }

    open spec fn valid(self) -> bool {
        T::valid(self.value)
    }

    /// The later write, or the join of the values where the times are
    /// equal.
    open spec fn join(self, other: Self) -> Self {
        if self.ts > other.ts {
            self
        } else if other.ts > self.ts {
            LwwItem { key: self.key, ts: other.ts, value: other.value }
        } else {
            LwwItem { key: self.key, ts: self.ts, value: T::join(self.value, other.value) }
        }
    }

    proof fn lemma_before(a: Self, b: Self, c: Self) {
        lemma_text_order(a.key, b.key, c.key);
        lemma_text_order(b.key, a.key, c.key);
        lemma_text_order(b.key, c.key, a.key);
    }

    proof fn lemma_join(a: Self, b: Self, c: Self) {
        T::lemma_join_laws(a.value, b.value, c.value);
        T::lemma_join_laws(b.value, a.value, c.value);
    }
}

/// A map from text keys to values, each with the time at which it was
/// written. Merging two maps keeps, for every key, the later write.
#[derive(Debug, Clone, PartialEq, Eq)]
pub struct LwwMap<T> {
    vals: Vec<(String, u64, T)>,
}

/// The mathematical values of a list of entries.
pub open spec fn items<T: Crdt>(list: Seq<(String, u64, T)>) -> Seq<LwwItem<T>> {
    list.map_values(|e: (String, u64, T)| LwwItem::<T> { key: e.0@, ts: e.1, value: e.2@ })
}

/// Every value of the list meets its representation's invariant.
pub open spec fn values_wf<T: Crdt>(list: Seq<(String, u64, T)>) -> bool {
    forall|i: int| 0 <= i < list.len() ==> (#[trigger] list[i]).2.wf()
}

impl<T: Crdt> View for LwwMap<T> {
    type V = Seq<LwwItem<T>>;

    closed spec fn view(&self) -> Seq<LwwItem<T>> {
        items(self.vals@)
    }
}

/// Puts an entry into a well-formed list.
fn upsert_item<T: Crdt>(vals: &mut Vec<(String, u64, T)>, key: String, ts: u64, value: T)
    requires
        well_formed(items(old(vals)@)),
        values_wf(old(vals)@),
        value.wf(),
    ensures
        items(final(vals)@) == upsert(
            items(old(vals)@),
            LwwItem::<T> { key: key@, ts, value: value@ },
        ),
        well_formed(items(final(vals)@)),
        values_wf(final(vals)@),
{
    let ghost before = items(vals@);
    let ghost e = LwwItem::<T> { key: key@, ts, value: value@ };
    proof {
        value.lemma_wf();
        lemma_upsert(before, e);
    }
    let mut p: usize = 0;
    while p < vals.len() && !(vals[p].0 == key)
        invariant
            p <= vals@.len(),
            items(vals@) == before,
            forall|i: int| 0 <= i < p ==> (#[trigger] before[i]).key != key@,
        decreases vals@.len() - p,
    {
        p += 1;
    }
    proof {
        lemma_position_is(before, key@, p as int);
    }
    let joined = if p < vals.len() {
        let held = vals.remove(p);
        proof {
            assert(items(vals@) =~= before.remove(p as int));
        }
        let (held_key, held_ts, mut held_value) = held;
        if held_ts > ts {
            (held_key, held_ts, held_value)
        } else if ts > held_ts {
            (held_key, ts, value)
        } else {
            held_value.merge(&value);
            (held_key, held_ts, held_value)
        }
    } else {
        (key, ts, value)
    };
    let ghost rest = items(vals@);
    let ghost j = LwwItem::<T> { key: joined.0@, ts: joined.1, value: joined.2@ };
    let mut k: usize = 0;
    while k < vals.len() && !(vals[k].0 == joined.0) && str_le(
        vals[k].0.as_str(),
        joined.0.as_str(),
    )
        invariant
            k <= vals@.len(),
            items(vals@) == rest,
            j.key == joined.0@,
            forall|i: int| 0 <= i < k ==> (#[trigger] rest[i]).before(j),
        decreases vals@.len() - k,
    {
        k += 1;
    }
    proof {
        lemma_rank_is(rest, j, k as int);
    }
    vals.insert(k, joined);
    proof {
        assert(items(vals@) =~= rest.insert(k as int, j));
    }
}

impl<T: Crdt> Crdt for LwwMap<T> {
    /// The entries are laid out by key, no key occurs twice, and every
    /// value is valid.
    open spec fn valid(a: Seq<LwwItem<T>>) -> bool {
        well_formed(a)
    }

    /// The entries of both maps; for a key that both hold, the later
    /// write.
    open spec fn join(a: Seq<LwwItem<T>>, b: Seq<LwwItem<T>>) -> Seq<LwwItem<T>> {
        merged(a, b)
    }

    closed spec fn wf(&self) -> bool {
        well_formed(items(self.vals@)) && values_wf(self.vals@)
    }

    proof fn lemma_join_laws(a: Seq<LwwItem<T>>, b: Seq<LwwItem<T>>, c: Seq<LwwItem<T>>) {
        lemma_merged(a, b);
        lemma_merged_idempotent(a);
        lemma_merged_commutative(a, b);
        lemma_merged_associative(a, b, c);
    }

    proof fn lemma_wf(&self) {
    }

    fn merge(&mut self, other: &LwwMap<T>) {
        let ghost mine = items(self.vals@);
        let ghost theirs = items(other.vals@);
        let mut i: usize = 0;
        while i < other.vals.len()
            invariant
                i <= other.vals@.len(),
                theirs == items(other.vals@),
                values_wf(other.vals@),
                well_formed(items(self.vals@)),
                values_wf(self.vals@),
                items(self.vals@) == merged(mine, theirs.take(i as int)),
            decreases other.vals@.len() - i,
        {
            let key = other.vals[i].0.clone();
            let ts = other.vals[i].1;
            let value = other.vals[i].2.duplicate();
            proof {
                assert(theirs.take(i + 1).drop_last() =~= theirs.take(i as int));
                assert(theirs.take(i + 1).last() == LwwItem::<T> {
                    key: key@,
                    ts,
                    value: value@,
                });
            }
            upsert_item(&mut self.vals, key, ts, value);
            i += 1;
        }
        proof {
            assert(theirs.take(i as int) =~= theirs);
        }
    }

    fn duplicate(&self) -> (r: LwwMap<T>) {
        let mut vals: Vec<(String, u64, T)> = Vec::new();
        let mut i: usize = 0;
        while i < self.vals.len()
            invariant
                i <= self.vals@.len(),
                values_wf(self.vals@),
                values_wf(vals@),
                items(vals@) == items(self.vals@).take(i as int),
            decreases self.vals@.len() - i,
        {
            let key = self.vals[i].0.clone();
            let ts = self.vals[i].1;
            let value = self.vals[i].2.duplicate();
            let ghost prev = items(vals@);
            let ghost e = LwwItem::<T> { key: key@, ts, value: value@ };
            vals.push((key, ts, value));
            proof {
                assert(items(self.vals@)[i as int] == e);
                assert(items(vals@) =~= prev.push(e));
                assert(prev.push(e) =~= items(self.vals@).take(i + 1));
            }
            i += 1;
        }
        proof {
            assert(items(self.vals@).take(i as int) =~= items(self.vals@));
        }
        LwwMap { vals }
    }
}

impl<T: Crdt> LwwMap<T> {
    /// The empty map.
    pub fn new() -> (m: LwwMap<T>)
        ensures
            m.wf(),
            m@ == Seq::<LwwItem<T>>::empty(),
    {
        let m = LwwMap { vals: Vec::new() };
        assert(m@ =~= Seq::<LwwItem<T>>::empty());
        m
    }

    /// The map of one entry that an entry of an earlier format stands for.
    pub fn migrate_from_raw_item(key: String, ts: u64, value: T) -> (m: LwwMap<T>)
        requires
            value.wf(),
        ensures
            m.wf(),
            m@ == seq![LwwItem::<T> { key: key@, ts, value: value@ }],
    {
        let ghost e = LwwItem::<T> { key: key@, ts, value: value@ };
        proof {
            value.lemma_wf();
        }
        let vals = vec![(key, ts, value)];
        let m = LwwMap { vals };
        assert(m@ =~= seq![e]);
        m
    }

    /// The entries, by key.
    pub fn items(&self) -> (r: &[(String, u64, T)])
        ensures
            items(r@) == self@,
            self.wf() ==> values_wf(r@),
    {
        self.vals.as_slice()
    }
}

} // verus!
