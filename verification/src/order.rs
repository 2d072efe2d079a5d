//! The lexicographic order on byte strings, by which records break ties.
//!
//! Every merge rule of this library that has to choose between two
//! conflicting values keeps the greater one in this order, so that the
//! choice does not depend on which replica merges into which.

use vstd::prelude::*;
use vstd::string::*;
use vstd::utf8::*;

verus! {

/// `a` comes before `b`, or equals it, in the lexicographic order on bytes.
pub open spec fn lex_le(a: Seq<u8>, b: Seq<u8>) -> bool
    decreases a.len(),
{
    if a.len() == 0 {
        true
    } else if b.len() == 0 {
        false
    } else if a[0] != b[0] {
        a[0] < b[0]
    } else {
        lex_le(a.drop_first(), b.drop_first())
    }
}

/// The greater of two byte strings.
pub open spec fn lex_max(a: Seq<u8>, b: Seq<u8>) -> Seq<u8> {
    if lex_le(a, b) {
        b
    } else {
        a
    }
}

pub proof fn lemma_lex_refl(a: Seq<u8>)
    ensures
        lex_le(a, a),
    decreases a.len(),
{
    if a.len() > 0 {
        lemma_lex_refl(a.drop_first());
    }
}

pub proof fn lemma_lex_total(a: Seq<u8>, b: Seq<u8>)
    ensures
        lex_le(a, b) || lex_le(b, a),
    decreases a.len(),
{
    if a.len() > 0 && b.len() > 0 && a[0] == b[0] {
        lemma_lex_total(a.drop_first(), b.drop_first());
    }
}

pub proof fn lemma_lex_antisym(a: Seq<u8>, b: Seq<u8>)
    requires
        lex_le(a, b),
        lex_le(b, a),
    ensures
        a == b,
    decreases a.len(),
{
    if a.len() == 0 || b.len() == 0 {
        assert(a =~= b);
    } else {
        lemma_lex_antisym(a.drop_first(), b.drop_first());
        assert(a =~= seq![a[0]] + a.drop_first());
        assert(b =~= seq![b[0]] + b.drop_first());
    }
}

pub proof fn lemma_lex_trans(a: Seq<u8>, b: Seq<u8>, c: Seq<u8>)
    requires
        lex_le(a, b),
        lex_le(b, c),
    ensures
        lex_le(a, c),
    decreases a.len(),
{
    if a.len() > 0 && b.len() > 0 && c.len() > 0 && a[0] == b[0] && b[0] == c[0] {
        lemma_lex_trans(a.drop_first(), b.drop_first(), c.drop_first());
    }
}

/// Keeping the greater byte string is idempotent, commutative and
/// associative.
pub proof fn lemma_lex_max_laws(a: Seq<u8>, b: Seq<u8>, c: Seq<u8>)
    ensures
        lex_max(a, a) == a,
        lex_max(a, b) == lex_max(b, a),
        lex_max(lex_max(a, b), c) == lex_max(a, lex_max(b, c)),
{
    lemma_lex_refl(a);
    lemma_lex_total(a, b);
    lemma_lex_total(b, c);
    lemma_lex_total(a, c);
    if lex_le(a, b) && lex_le(b, a) {
        lemma_lex_antisym(a, b);
    }
    if lex_le(b, c) && lex_le(c, b) {
        lemma_lex_antisym(b, c);
    }
    if lex_le(a, c) && lex_le(c, a) {
        lemma_lex_antisym(a, c);
    }
    if lex_le(a, b) && lex_le(b, c) {
        lemma_lex_trans(a, b, c);
    }
    if lex_le(b, a) && lex_le(a, c) {
        lemma_lex_trans(b, a, c);
    }
    if lex_le(a, c) && lex_le(c, b) {
        lemma_lex_trans(a, c, b);
    }
    if lex_le(c, a) && lex_le(a, b) {
        lemma_lex_trans(c, a, b);
    }
    if lex_le(b, c) && lex_le(c, a) {
        lemma_lex_trans(b, c, a);
    }
    if lex_le(c, b) && lex_le(b, a) {
        lemma_lex_trans(c, b, a);
    }
}

/// Dropping a common prefix does not change how two byte strings compare.
pub proof fn lemma_lex_skip(a: Seq<u8>, b: Seq<u8>, n: int)
    requires
        0 <= n <= a.len(),
        n <= b.len(),
        forall|i: int| 0 <= i < n ==> a[i] == b[i],
    ensures
        lex_le(a, b) == lex_le(a.skip(n), b.skip(n)),
    decreases n,
{
    if n == 0 {
        assert(a.skip(0) =~= a);
        assert(b.skip(0) =~= b);
    } else {
        let a1 = a.drop_first();
        let b1 = b.drop_first();
        assert forall|i: int| 0 <= i < n - 1 implies a1[i] == b1[i] by {
            assert(a1[i] == a[i + 1]);
            assert(b1[i] == b[i + 1]);
        }
        lemma_lex_skip(a1, b1, n - 1);
        assert(a1.skip(n - 1) =~= a.skip(n));
        assert(b1.skip(n - 1) =~= b.skip(n));
    }
}

/// Whether `a` comes before `b`, or equals it, byte by byte.
pub fn bytes_le(a: &[u8], b: &[u8]) -> (r: bool)
    ensures
        r == lex_le(a@, b@),
{
    let mut i: usize = 0;
    while i < a.len() && i < b.len() && a[i] == b[i]
        invariant
            i <= a@.len(),
            i <= b@.len(),
            forall|k: int| 0 <= k < i ==> a@[k] == b@[k],
        decreases a@.len() - i,
    {
        i += 1;
    }
    proof {
        lemma_lex_skip(a@, b@, i as int);
    }
    if i == a.len() {
        true
    } else if i == b.len() {
        false
    } else {
        a[i] < b[i]
    }
}

/// Whether two byte strings hold the same bytes.
pub fn bytes_eq(a: &[u8], b: &[u8]) -> (r: bool)
    ensures
        r == (a@ == b@),
{
    if a.len() != b.len() {
        return false;
    }
    let mut i: usize = 0;
    while i < a.len()
        invariant
            a@.len() == b@.len(),
            i <= a@.len(),
            forall|k: int| 0 <= k < i ==> a@[k] == b@[k],
        decreases a@.len() - i,
    {
        if a[i] != b[i] {
            return false;
        }
        i += 1;
    }
    assert(a@ =~= b@);
    true
}

/// `a` comes before `b`, or equals it, when both are compared as UTF-8
/// bytes.
pub open spec fn text_le(a: Seq<char>, b: Seq<char>) -> bool {
    lex_le(encode_utf8(a), encode_utf8(b))
}

/// The greater of two texts.
pub open spec fn text_max(a: Seq<char>, b: Seq<char>) -> Seq<char> {
    if text_le(a, b) {
        b
    } else {
        a
    }
}

/// Two texts with the same UTF-8 bytes are the same text.
pub proof fn lemma_utf8_injective(a: Seq<char>, b: Seq<char>)
    requires
        encode_utf8(a) == encode_utf8(b),
    ensures
        a == b,
{
    encode_utf8_decode_utf8(a);
    encode_utf8_decode_utf8(b);
}

/// `text_le` is a total order.
pub proof fn lemma_text_order(a: Seq<char>, b: Seq<char>, c: Seq<char>)
    ensures
        text_le(a, a),
        text_le(a, b) || text_le(b, a),
        text_le(a, b) && text_le(b, a) ==> a == b,
        text_le(a, b) && text_le(b, c) ==> text_le(a, c),
{
    lemma_lex_refl(encode_utf8(a));
    lemma_lex_total(encode_utf8(a), encode_utf8(b));
    if text_le(a, b) && text_le(b, a) {
        lemma_lex_antisym(encode_utf8(a), encode_utf8(b));
        lemma_utf8_injective(a, b);
    }
    if text_le(a, b) && text_le(b, c) {
        lemma_lex_trans(encode_utf8(a), encode_utf8(b), encode_utf8(c));
    }
}

/// Keeping the greater text is idempotent, commutative and associative.
pub proof fn lemma_text_max_laws(a: Seq<char>, b: Seq<char>, c: Seq<char>)
    ensures
        text_max(a, a) == a,
        text_max(a, b) == text_max(b, a),
        text_max(text_max(a, b), c) == text_max(a, text_max(b, c)),
{
    lemma_text_order(a, b, c);
    lemma_text_order(b, a, c);
    lemma_text_order(a, c, b);
    lemma_text_order(c, a, b);
    lemma_text_order(b, c, a);
    lemma_text_order(c, b, a);
}

/// Whether `a` comes before `b`, or equals it, as UTF-8 bytes.
pub fn str_le(a: &str, b: &str) -> (r: bool)
    ensures
        r == text_le(a@, b@),
{
    bytes_le(a.as_bytes(), b.as_bytes())
}

} // verus!
