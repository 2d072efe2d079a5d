//! Conflict-free replicated values: the merge capability and the
//! last-writer-wins register.

use vstd::prelude::*;

verus! {

/// A value that replicas can merge. The merge is a join: idempotent,
/// commutative and associative, so that replicas converge whatever the
/// order in which they hear of each other's writes.
pub trait Crdt: View + Sized {
    /// The invariant of the mathematical value.
    spec fn valid(a: Self::V) -> bool;

    /// What two values merge into.
    spec fn join(a: Self::V, b: Self::V) -> Self::V;

    /// The representation's invariant. It implies `valid` of the view.
    spec fn wf(&self) -> bool;

    /// The join keeps validity and is idempotent, commutative and
    /// associative.
    proof fn lemma_join_laws(a: Self::V, b: Self::V, c: Self::V)
        requires
            Self::valid(a),
            Self::valid(b),
            Self::valid(c),
        ensures
            Self::valid(Self::join(a, b)),
            Self::join(a, a) == a,
            Self::join(a, b) == Self::join(b, a),
            Self::join(Self::join(a, b), c) == Self::join(a, Self::join(b, c)),
    ;

    /// A well-formed value has a valid view.
    proof fn lemma_wf(&self)
        requires
            self.wf(),
        ensures
            Self::valid(self@),
    ;

    /// Merges `other` into `self`.
    fn merge(&mut self, other: &Self)
        requires
            old(self).wf(),
            other.wf(),
        ensures
            final(self).wf(),
            final(self)@ == Self::join(old(self)@, other@),
    ;

    /// A copy of the value.
    fn duplicate(&self) -> (r: Self)
        requires
            self.wf(),
        ensures
            r.wf(),
            r@ == self@,
    ;
}

/// A flag merges by disjunction: once set on any replica, it is set.
impl Crdt for bool {
    open spec fn valid(a: bool) -> bool {
        true
    }

    open spec fn join(a: bool, b: bool) -> bool {
        a || b
    }

    open spec fn wf(&self) -> bool {
        true
    }

    proof fn lemma_join_laws(a: bool, b: bool, c: bool) {
    }

    proof fn lemma_wf(&self) {
    }

    fn merge(&mut self, other: &bool) {
        if *other {
            *self = true;
        }
    }

    fn duplicate(&self) -> (r: bool) {
        *self
    }
}

/// A last-writer-wins register: a value and the time at which it was
/// written. The later write wins; two writes at the same time are merged
/// as values.
#[derive(Debug, Clone, PartialEq, Eq)]
pub struct Lww<T> {
    ts: u64,
    v: T,
}

/// The mathematical value of a register.
pub struct LwwView<V> {
    /// When the value was written, in milliseconds since the epoch.
    pub ts: u64,
    /// The value.
    pub v: V,
}

impl<T: Crdt> View for Lww<T> {
    type V = LwwView<T::V>;

    closed spec fn view(&self) -> LwwView<T::V> {
        LwwView { ts: self.ts, v: self.v@ }
    }
}

impl<T: Crdt> Crdt for Lww<T> {
    open spec fn valid(a: LwwView<T::V>) -> bool {
        T::valid(a.v)
    }

    /// The later write, or the join of the values where the times are
    /// equal.
    open spec fn join(a: LwwView<T::V>, b: LwwView<T::V>) -> LwwView<T::V> {
        if a.ts > b.ts {
            a
        } else if b.ts > a.ts {
            b
        } else {
            LwwView { ts: a.ts, v: T::join(a.v, b.v) }
        }
    }

    closed spec fn wf(&self) -> bool {
        self.v.wf()
    }

    proof fn lemma_join_laws(a: LwwView<T::V>, b: LwwView<T::V>, c: LwwView<T::V>) {
        T::lemma_join_laws(a.v, b.v, c.v);
        T::lemma_join_laws(b.v, a.v, c.v);
    }

    proof fn lemma_wf(&self) {
        self.v.lemma_wf();
    }

    fn merge(&mut self, other: &Lww<T>) {
        if other.ts > self.ts {
            self.ts = other.ts;
            self.v = other.v.duplicate();
        } else if other.ts == self.ts {
            self.v.merge(&other.v);
        }
    }

    fn duplicate(&self) -> (r: Lww<T>) {
        Lww { ts: self.ts, v: self.v.duplicate() }
    }
}

impl<T: Crdt> Lww<T> {
    /// The register that holds `value`, written at `ts`.
    pub fn new(ts: u64, value: T) -> (r: Lww<T>)
        requires
            value.wf(),
        ensures
            r.wf(),
            r@ == (LwwView { ts, v: value@ }),
    {
        Lww { ts, v: value }
    }

    /// The register that a record of an earlier format stands for: `value`
    /// with the time `ts` that the record carries.
    pub fn migrate_from_raw(ts: u64, value: T) -> (r: Lww<T>)
        requires
            value.wf(),
        ensures
            r.wf(),
            r@ == (LwwView { ts, v: value@ }),
    {
        Lww { ts, v: value }
    }

    /// The value that the register holds.
    pub fn get(&self) -> (v: &T)
        ensures
            v@ == self@.v,
            self.wf() ==> v.wf(),
    {
        &self.v
    }

    /// When the value was written.
    pub fn timestamp(&self) -> (ts: u64)
        ensures
            ts == self@.ts,
    {
        self.ts
    }
}

} // verus!
