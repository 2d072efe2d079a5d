//! Ordered sets of identified entries and their merge.
//!
//! Several records of the store hold a list of entries (the versions of an
//! object, the blocks of a version, the keys authorised on a bucket). Each
//! entry has an identity, the list holds at most one entry per identity and
//! is laid out in a fixed order, and two lists are merged by joining the
//! entries that share an identity and keeping the others. This module holds
//! that construction once, with the proof that the merge is idempotent,
//! commutative and associative whenever the join of entries is.

use vstd::prelude::*;

verus! {

/// An entry of an ordered set: it has an identity, a place in the layout
/// order, and a join with another entry of the same identity.
pub trait Entry: Sized {
    type Id;

    /// What identifies the entry within its set.
    spec fn id(self) -> Self::Id;

    /// The strict order in which entries are laid out.
    spec fn before(self, other: Self) -> bool;

    /// The entry's own invariant.
    spec fn valid(self) -> bool;

    /// What two entries of the same identity merge into.
    spec fn join(self, other: Self) -> Self;

    /// `before` is a strict order that compares any two entries of
    /// different identity.
    proof fn lemma_before(a: Self, b: Self, c: Self)
        ensures
            !a.before(a),
            a.before(b) && b.before(c) ==> a.before(c),
            a.id() != b.id() ==> a.before(b) || b.before(a),
    ;

    /// `join` keeps identity and validity, and is idempotent, commutative
    /// and associative on valid entries of one identity.
    proof fn lemma_join(a: Self, b: Self, c: Self)
        requires
            a.id() == b.id(),
            b.id() == c.id(),
            a.valid(),
            b.valid(),
            c.valid(),
        ensures
            a.join(b).id() == a.id(),
            a.join(b).valid(),
            a.join(a) == a,
            a.join(b) == b.join(a),
            a.join(b).join(c) == a.join(b.join(c)),
    ;
}

/// Laid out in order: each entry stands before every later one.
pub open spec fn ordered<E: Entry>(s: Seq<E>) -> bool {
    forall|i: int, j: int| 0 <= i < j < s.len() ==> (#[trigger] s[i]).before(#[trigger] s[j])
}

/// No identity occurs twice.
pub open spec fn distinct<E: Entry>(s: Seq<E>) -> bool {
    forall|i: int, j: int| 0 <= i < j < s.len() ==> (#[trigger] s[i]).id() != (#[trigger] s[j]).id()
}

/// Every entry meets its own invariant.
pub open spec fn all_valid<E: Entry>(s: Seq<E>) -> bool {
    forall|i: int| 0 <= i < s.len() ==> (#[trigger] s[i]).valid()
}

/// A well-formed ordered set.
pub open spec fn well_formed<E: Entry>(s: Seq<E>) -> bool {
    ordered(s) && distinct(s) && all_valid(s)
}

/// The index of the first entry identified by `id`, or `s.len()` if there
/// is none.
pub open spec fn position<E: Entry>(s: Seq<E>, id: E::Id) -> nat
    decreases s.len(),
{
    if s.len() > 0 && s[0].id() != id {
        1 + position(s.drop_first(), id)
    } else {
        0
    }
}

/// How many entries at the front of `s` stand before `e`.
pub open spec fn rank<E: Entry>(s: Seq<E>, e: E) -> nat
    decreases s.len(),
{
    if s.len() > 0 && s[0].before(e) {
        1 + rank(s.drop_first(), e)
    } else {
        0
    }
}

/// Whether `s` holds an entry identified by `id`.
pub open spec fn holds<E: Entry>(s: Seq<E>, id: E::Id) -> bool {
    position(s, id) < s.len()
}

/// The entry of `s` identified by `id`.
pub open spec fn entry_of<E: Entry>(s: Seq<E>, id: E::Id) -> E
    recommends
        holds(s, id),
{
    s[position(s, id) as int]
}

/// The set as a map from identity to entry.
pub open spec fn as_map<E: Entry>(s: Seq<E>) -> Map<E::Id, E> {
    Map::new(|id: E::Id| holds(s, id), |id: E::Id| entry_of(s, id))
}

/// `s` with `e` put in: joined with the entry of the same identity if there
/// is one, and placed where the order wants it.
pub open spec fn upsert<E: Entry>(s: Seq<E>, e: E) -> Seq<E> {
    let p = position(s, e.id()) as int;
    let joined = if p < s.len() {
        s[p].join(e)
    } else {
        e
    };
    let rest = if p < s.len() {
        s.remove(p)
    } else {
        s
    };
    rest.insert(rank(rest, joined) as int, joined)
}

/// `a` with every entry of `b` put in, front to back.
pub open spec fn merged<E: Entry>(a: Seq<E>, b: Seq<E>) -> Seq<E>
    decreases b.len(),
{
    if b.len() == 0 {
        a
    } else {
        upsert(merged(a, b.drop_last()), b.last())
    }
}

/// The pointwise join of two maps from identity to entry.
pub open spec fn join_maps<E: Entry>(a: Map<E::Id, E>, b: Map<E::Id, E>) -> Map<E::Id, E> {
    Map::new(
        |id: E::Id| a.dom().contains(id) || b.dom().contains(id),
        |id: E::Id|
            if a.dom().contains(id) && b.dom().contains(id) {
                a[id].join(b[id])
            } else if a.dom().contains(id) {
                a[id]
            } else {
                b[id]
            },
    )
}

/// Merging a single entry in is putting it in.
pub proof fn lemma_merged_one<E: Entry>(a: Seq<E>, e: E)
    ensures
        merged(a, seq![e]) == upsert(a, e),
{
    let one = seq![e];
    assert(one.drop_last() =~= Seq::<E>::empty());
    assert(one.last() == e);
    assert(merged(a, Seq::<E>::empty()) == a);
}

pub proof fn lemma_position<E: Entry>(s: Seq<E>, id: E::Id)
    ensures
        position(s, id) <= s.len(),
        forall|i: int| 0 <= i < position(s, id) ==> (#[trigger] s[i]).id() != id,
        position(s, id) < s.len() ==> s[position(s, id) as int].id() == id,
    decreases s.len(),
{
    if s.len() > 0 && s[0].id() != id {
        let t = s.drop_first();
        lemma_position(t, id);
        assert forall|i: int| 0 <= i < position(s, id) implies (#[trigger] s[i]).id() != id by {
            if i > 0 {
                assert(s[i] == t[i - 1]);
            }
        }
        if position(s, id) < s.len() {
            assert(s[position(s, id) as int] == t[position(t, id) as int]);
        }
    }
}

/// The position is the only index that no match precedes and that holds a
/// match or ends the list.
pub proof fn lemma_position_is<E: Entry>(s: Seq<E>, id: E::Id, n: int)
    requires
        0 <= n <= s.len(),
        forall|i: int| 0 <= i < n ==> (#[trigger] s[i]).id() != id,
        n < s.len() ==> s[n].id() == id,
    ensures
        position(s, id) == n,
{
    lemma_position(s, id);
    let m = position(s, id) as int;
    if m < n {
        assert(s[m].id() == id);
    } else if n < m {
        assert(s[n].id() == id);
    }
}

pub proof fn lemma_rank<E: Entry>(s: Seq<E>, e: E)
    ensures
        rank(s, e) <= s.len(),
        forall|i: int| 0 <= i < rank(s, e) ==> (#[trigger] s[i]).before(e),
        rank(s, e) < s.len() ==> !s[rank(s, e) as int].before(e),
    decreases s.len(),
{
    if s.len() > 0 && s[0].before(e) {
        let t = s.drop_first();
        lemma_rank(t, e);
        assert forall|i: int| 0 <= i < rank(s, e) implies (#[trigger] s[i]).before(e) by {
            if i > 0 {
                assert(s[i] == t[i - 1]);
            }
        }
        if rank(s, e) < s.len() {
            assert(s[rank(s, e) as int] == t[rank(t, e) as int]);
        }
    }
}

/// The rank is the only index that only earlier entries precede and that
/// holds an entry not before `e`, or ends the list.
pub proof fn lemma_rank_is<E: Entry>(s: Seq<E>, e: E, n: int)
    requires
        0 <= n <= s.len(),
        forall|i: int| 0 <= i < n ==> (#[trigger] s[i]).before(e),
        n < s.len() ==> !s[n].before(e),
    ensures
        rank(s, e) == n,
{
    lemma_rank(s, e);
    let m = rank(s, e) as int;
    if m < n {
        assert(s[m].before(e));
    } else if n < m {
        assert(s[n].before(e));
    }
}

/// In a set without repeated identities, each entry is the one found under
/// its identity.
pub proof fn lemma_get_index<E: Entry>(s: Seq<E>, i: int)
    requires
        distinct(s),
        0 <= i < s.len(),
    ensures
        holds(s, s[i].id()),
        position(s, s[i].id()) == i,
        entry_of(s, s[i].id()) == s[i],
{
    lemma_position(s, s[i].id());
    let p = position(s, s[i].id()) as int;
    if p < i {
        assert(s[p].id() != s[i].id());
    } else if i < p {
        assert(s[i].id() != s[i].id());
    }
}

/// What `upsert` puts in for `e`: `e` itself, or its join with the entry
/// already held under the same identity.
pub open spec fn incoming<E: Entry>(s: Seq<E>, e: E) -> E {
    if holds(s, e.id()) {
        entry_of(s, e.id()).join(e)
    } else {
        e
    }
}

/// `s` without the entry identified by `id`.
pub open spec fn without<E: Entry>(s: Seq<E>, id: E::Id) -> Seq<E> {
    if holds(s, id) {
        s.remove(position(s, id) as int)
    } else {
        s
    }
}

/// Taking one identity out of a well-formed set leaves a well-formed set
/// that no longer holds it and still holds every other entry.
pub proof fn lemma_without<E: Entry>(s: Seq<E>, id: E::Id)
    requires
        ordered(s),
        distinct(s),
    ensures
        ordered(without(s, id)),
        distinct(without(s, id)),
        all_valid(s) ==> all_valid(without(s, id)),
        !holds(without(s, id), id),
        forall|x: E::Id| x != id ==> holds(without(s, id), x) == holds(s, x),
        forall|x: E::Id| x != id && holds(s, x) ==> entry_of(without(s, id), x) == entry_of(s, x),
{
    lemma_position(s, id);
    let p = position(s, id) as int;
    let r = without(s, id);
    if p < s.len() {
        assert forall|i: int| 0 <= i < r.len() implies #[trigger] r[i] == s[if i < p {
            i
        } else {
            i + 1
        }] by {}
        assert forall|i: int| 0 <= i < r.len() implies (#[trigger] r[i]).id() != id by {
            let k = if i < p { i } else { i + 1 };
            assert(r[i] == s[k]);
            assert(s[k].id() != s[p].id());
        }
        lemma_position_is(r, id, r.len() as int);
        assert forall|x: E::Id| x != id implies holds(r, x) == holds(s, x) && (holds(s, x) ==> entry_of(r, x)
            == entry_of(s, x)) by {
            lemma_position(s, x);
            lemma_position(r, x);
            let q = position(s, x) as int;
            let q2 = position(r, x) as int;
            if q < s.len() {
                let k = if q < p { q } else { q - 1 };
                assert(r[k] == s[q]);
                lemma_get_index(r, k);
            }
            if q2 < r.len() {
                let k = if q2 < p { q2 } else { q2 + 1 };
                assert(r[q2] == s[k]);
                lemma_get_index(s, k);
            }
        }
    } else {
        assert(r == s);
    }
}

/// Putting an entry into a well-formed set gives a well-formed set that
/// holds the incoming entry under its identity and is otherwise unchanged.
pub proof fn lemma_upsert<E: Entry>(s: Seq<E>, e: E)
    requires
        well_formed(s),
        e.valid(),
    ensures
        well_formed(upsert(s, e)),
        as_map(upsert(s, e)) == as_map(s).insert(e.id(), incoming(s, e)),
        incoming(s, e).id() == e.id(),
        incoming(s, e).valid(),
{
    let id = e.id();
    lemma_position(s, id);
    let p = position(s, id) as int;
    let joined = incoming(s, e);
    let rest = without(s, id);
    lemma_without(s, id);
    if p < s.len() {
        E::lemma_join(s[p], e, e);
    }
    assert(joined.id() == id);
    assert(joined.valid());
    lemma_rank(rest, joined);
    lemma_position(rest, id);
    let k = rank(rest, joined) as int;
    let r = rest.insert(k, joined);
    assert(r == upsert(s, e));
    assert forall|i: int| 0 <= i < rest.len() implies (#[trigger] rest[i]).id() != id by {}
    assert forall|i: int| 0 <= i < r.len() implies #[trigger] r[i] == (if i < k {
        rest[i]
    } else if i == k {
        joined
    } else {
        rest[i - 1]
    }) by {}
    assert forall|j: int| k <= j < rest.len() implies joined.before(#[trigger] rest[j]) by {
        E::lemma_before(joined, rest[k], rest[j]);
        E::lemma_before(rest[k], joined, joined);
    }
    assert forall|i: int, j: int| 0 <= i < j < r.len() implies (#[trigger] r[i]).before(
        #[trigger] r[j],
    ) by {
        if i < k && k < j {
            E::lemma_before(rest[i], joined, rest[j - 1]);
        }
    }
    assert forall|i: int, j: int| 0 <= i < j < r.len() implies (#[trigger] r[i]).id() != (
    #[trigger] r[j]).id() by {}
    assert(all_valid(r));
    assert forall|x: E::Id| #[trigger]
        as_map(r).dom().contains(x) == as_map(s).insert(id, joined).dom().contains(x) && (as_map(
            r,
        ).dom().contains(x) ==> as_map(r)[x] == as_map(s).insert(id, joined)[x]) by {
        if x == id {
            lemma_get_index(r, k);
        } else {
            lemma_position(r, x);
            lemma_position(rest, x);
            let q = position(rest, x) as int;
            let q2 = position(r, x) as int;
            if q < rest.len() {
                let j = if q < k { q } else { q + 1 };
                assert(r[j] == rest[q]);
                lemma_get_index(r, j);
            }
            if q2 < r.len() {
                let j = if q2 < k { q2 } else { q2 - 1 };
                assert(r[q2] == rest[j]);
                lemma_get_index(rest, j);
            }
        }
    }
    assert(as_map(r) =~= as_map(s).insert(id, joined));
}

/// What `as_map` holds for a set without repeated identities: exactly the
/// entries of the set, each under its own identity.
pub proof fn lemma_as_map<E: Entry>(s: Seq<E>)
    requires
        distinct(s),
    ensures
        forall|i: int| 0 <= i < s.len() ==> as_map(s).dom().contains((#[trigger] s[i]).id()),
        forall|i: int| 0 <= i < s.len() ==> as_map(s)[(#[trigger] s[i]).id()] == s[i],
        forall|x: E::Id| #[trigger]
            as_map(s).dom().contains(x) ==> 0 <= position(s, x) < s.len() && as_map(s)[x]
                == s[position(s, x) as int] && as_map(s)[x].id() == x,
{
    assert forall|i: int| 0 <= i < s.len() implies as_map(s).dom().contains(
        (#[trigger] s[i]).id(),
    ) && as_map(s)[s[i].id()] == s[i] by {
        lemma_get_index(s, i);
    }
    assert forall|x: E::Id| #[trigger] as_map(s).dom().contains(x) implies 0 <= position(s, x)
        < s.len() && as_map(s)[x] == s[position(s, x) as int] && as_map(s)[x].id() == x by {
        lemma_position(s, x);
    }
}

/// Merging two well-formed sets gives the well-formed set whose map is the
/// pointwise join of theirs.
pub proof fn lemma_merged<E: Entry>(a: Seq<E>, b: Seq<E>)
    requires
        well_formed(a),
        well_formed(b),
    ensures
        well_formed(merged(a, b)),
        as_map(merged(a, b)) == join_maps(as_map(a), as_map(b)),
    decreases b.len(),
{
    if b.len() == 0 {
        assert forall|x: E::Id| !(#[trigger] as_map(b).dom().contains(x)) by {
            lemma_position(b, x);
        }
        assert(as_map(a) =~= join_maps(as_map(a), as_map(b)));
    } else {
        let b1 = b.drop_last();
        let l = b.last();
        let n = b1.len() as int;
        assert forall|i: int| 0 <= i < n implies #[trigger] b1[i] == b[i] by {}
        assert(well_formed(b1));
        lemma_merged(a, b1);
        let m1 = merged(a, b1);
        lemma_upsert(m1, l);
        lemma_as_map(b);
        lemma_as_map(b1);
        lemma_as_map(a);
        lemma_as_map(m1);
        let id = l.id();
        assert(b[n] == l);
        assert(!as_map(b1).dom().contains(id)) by {
            if as_map(b1).dom().contains(id) {
                let q = position(b1, id) as int;
                assert(b1[q] == b[q]);
                assert(b[q].id() != b[n].id());
            }
        }
        let lhs = as_map(m1).insert(id, incoming(m1, l));
        let rhs = join_maps(as_map(a), as_map(b));
        assert forall|x: E::Id| #[trigger]
            lhs.dom().contains(x) == rhs.dom().contains(x) && (lhs.dom().contains(x) ==> lhs[x]
                == rhs[x]) by {
            if x == id {
                assert(as_map(b).dom().contains(b[n].id()));
                assert(as_map(b)[b[n].id()] == l);
                assert(holds(m1, id) == as_map(m1).dom().contains(id));
            } else {
                if as_map(b1).dom().contains(x) {
                    let q = position(b1, x) as int;
                    assert(b1[q] == b[q]);
                    assert(as_map(b)[b[q].id()] == b[q]);
                }
                if as_map(b).dom().contains(x) {
                    let q = position(b, x) as int;
                    assert(q != n);
                    assert(b1[q] == b[q]);
                    assert(as_map(b1)[b1[q].id()] == b1[q]);
                }
            }
        }
        assert(lhs =~= rhs);
    }
}

/// A set without repeated identities, laid out in order, is determined by
/// its map: the layout adds nothing.
pub proof fn lemma_canonical<E: Entry>(s: Seq<E>, t: Seq<E>)
    requires
        ordered(s),
        distinct(s),
        ordered(t),
        distinct(t),
        as_map(s) == as_map(t),
    ensures
        s == t,
    decreases s.len(),
{
    lemma_as_map(s);
    lemma_as_map(t);
    if s.len() == 0 {
        if t.len() > 0 {
            assert(as_map(t).dom().contains(t[0].id()));
            assert(as_map(s).dom().contains(t[0].id()));
        }
        assert(s =~= t);
    } else {
        assert(as_map(s).dom().contains(s[0].id()));
        assert(as_map(t).dom().contains(s[0].id()));
        let j = position(t, s[0].id()) as int;
        assert(t[j] == s[0]);
        assert(as_map(t).dom().contains(t[0].id()));
        assert(as_map(s).dom().contains(t[0].id()));
        let k = position(s, t[0].id()) as int;
        assert(s[k] == t[0]);
        if j > 0 {
            E::lemma_before(t[0], t[j], t[0]);
            if k > 0 {
                assert(s[0].before(s[k]));
            }
            assert(false);
        }
        let id = s[0].id();
        lemma_without(s, id);
        lemma_without(t, id);
        lemma_position_is(s, id, 0);
        lemma_position_is(t, id, 0);
        let s1 = without(s, id);
        let t1 = without(t, id);
        assert(s1 =~= s.drop_first());
        assert(t1 =~= t.drop_first());
        assert forall|x: E::Id| #[trigger]
            as_map(s1).dom().contains(x) == as_map(t1).dom().contains(x) && (as_map(
                s1,
            ).dom().contains(x) ==> as_map(s1)[x] == as_map(t1)[x]) by {
            if x != id {
                assert(holds(s, x) == as_map(s).dom().contains(x));
                assert(holds(t, x) == as_map(t).dom().contains(x));
                if holds(s, x) {
                    assert(as_map(s)[x] == as_map(t)[x]);
                }
            }
        }
        assert(as_map(s1) =~= as_map(t1));
        lemma_canonical(s1, t1);
        assert(s =~= t);
    }
}

/// Merging a well-formed set with itself changes nothing.
pub proof fn lemma_merged_idempotent<E: Entry>(a: Seq<E>)
    requires
        well_formed(a),
    ensures
        merged(a, a) == a,
{
    lemma_merged(a, a);
    lemma_as_map(a);
    let m = as_map(a);
    assert forall|x: E::Id| #[trigger] m.dom().contains(x) implies join_maps(m, m)[x] == m[x] by {
        E::lemma_join(m[x], m[x], m[x]);
    }
    assert(join_maps(m, m) =~= m);
    lemma_canonical(merged(a, a), a);
}

/// Merging two well-formed sets gives the same set in either direction.
pub proof fn lemma_merged_commutative<E: Entry>(a: Seq<E>, b: Seq<E>)
    requires
        well_formed(a),
        well_formed(b),
    ensures
        merged(a, b) == merged(b, a),
{
    lemma_merged(a, b);
    lemma_merged(b, a);
    lemma_as_map(a);
    lemma_as_map(b);
    let ma = as_map(a);
    let mb = as_map(b);
    assert forall|x: E::Id|
        ma.dom().contains(x) && mb.dom().contains(x) implies #[trigger] join_maps(ma, mb)[x]
        == join_maps(mb, ma)[x] by {
        E::lemma_join(ma[x], mb[x], mb[x]);
    }
    assert(join_maps(ma, mb) =~= join_maps(mb, ma));
    lemma_canonical(merged(a, b), merged(b, a));
}

/// Merging three well-formed sets gives the same set however the merges
/// are grouped.
pub proof fn lemma_merged_associative<E: Entry>(a: Seq<E>, b: Seq<E>, c: Seq<E>)
    requires
        well_formed(a),
        well_formed(b),
        well_formed(c),
    ensures
        merged(merged(a, b), c) == merged(a, merged(b, c)),
{
    lemma_merged(a, b);
    lemma_merged(b, c);
    lemma_merged(merged(a, b), c);
    lemma_merged(a, merged(b, c));
    lemma_as_map(a);
    lemma_as_map(b);
    lemma_as_map(c);
    let ma = as_map(a);
    let mb = as_map(b);
    let mc = as_map(c);
    let l = join_maps(join_maps(ma, mb), mc);
    let r = join_maps(ma, join_maps(mb, mc));
    assert forall|x: E::Id| #[trigger]
        l.dom().contains(x) == r.dom().contains(x) && (l.dom().contains(x) ==> l[x] == r[x]) by {
        if ma.dom().contains(x) && mb.dom().contains(x) && mc.dom().contains(x) {
            E::lemma_join(ma[x], mb[x], mc[x]);
        }
    }
    assert(l =~= r);
    lemma_canonical(merged(merged(a, b), c), merged(a, merged(b, c)));
}

} // verus!
