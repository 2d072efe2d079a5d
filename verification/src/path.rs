//! Splitting a request path into bucket and key.

use vstd::prelude::*;
use vstd::string::*;
use crate::error::Error;

verus! {

/// How many `/` stand at the front of `s`.
pub open spec fn leading_slashes(s: Seq<char>) -> nat
    decreases s.len(),
{
    if s.len() > 0 && s[0] == '/' {
        1 + leading_slashes(s.drop_first())
    } else {
        0
    }
}

/// Where the first `/` of `s` stands, or `s.len()` when it has none.
pub open spec fn first_slash(s: Seq<char>) -> nat
    decreases s.len(),
{
    if s.len() > 0 && s[0] != '/' {
        1 + first_slash(s.drop_first())
    } else {
        0
    }
}

/// `path` without its leading slashes.
pub open spec fn trimmed(path: Seq<char>) -> Seq<char> {
    path.skip(leading_slashes(path) as int)
}

/// The bucket named by `path`: what stands between the leading slashes and
/// the next slash.
pub open spec fn bucket_of(path: Seq<char>) -> Seq<char> {
    trimmed(path).take(first_slash(trimmed(path)) as int)
}

/// The key named by `path`: everything after the slash that ends the bucket,
/// if there is such a slash.
pub open spec fn key_of(path: Seq<char>) -> Option<Seq<char>> {
    let t = trimmed(path);
    let i = first_slash(t);
    if i < t.len() {
        Some(t.skip(i as int + 1))
    } else {
        None
    }
}

pub proof fn lemma_leading_slashes(s: Seq<char>)
    ensures
        leading_slashes(s) <= s.len(),
        forall|i: int| 0 <= i < leading_slashes(s) ==> s[i] == '/',
        leading_slashes(s) < s.len() ==> s[leading_slashes(s) as int] != '/',
    decreases s.len(),
{
    if s.len() > 0 && s[0] == '/' {
        let t = s.drop_first();
        lemma_leading_slashes(t);
        assert forall|i: int| 0 <= i < leading_slashes(s) implies s[i] == '/' by {
            if i > 0 {
                assert(s[i] == t[i - 1]);
            }
        }
        if leading_slashes(s) < s.len() {
            assert(s[leading_slashes(s) as int] == t[leading_slashes(t) as int]);
        }
    }
}

pub proof fn lemma_first_slash(s: Seq<char>)
    ensures
        first_slash(s) <= s.len(),
        forall|i: int| 0 <= i < first_slash(s) ==> s[i] != '/',
        first_slash(s) < s.len() ==> s[first_slash(s) as int] == '/',
    decreases s.len(),
{
    if s.len() > 0 && s[0] != '/' {
        let t = s.drop_first();
        lemma_first_slash(t);
        assert forall|i: int| 0 <= i < first_slash(s) implies s[i] != '/' by {
            if i > 0 {
                assert(s[i] == t[i - 1]);
            }
        }
        if first_slash(s) < s.len() {
            assert(s[first_slash(s) as int] == t[first_slash(t) as int]);
        }
    }
}

/// The count of leading slashes is the only index that every slash precedes
/// and that no slash occupies.
pub proof fn lemma_leading_slashes_is(s: Seq<char>, n: nat)
    requires
        n <= s.len(),
        forall|i: int| 0 <= i < n ==> s[i] == '/',
        n < s.len() ==> s[n as int] != '/',
    ensures
        leading_slashes(s) == n,
{
    lemma_leading_slashes(s);
    let m = leading_slashes(s);
    if m < n {
        assert(s[m as int] == '/');
    } else if n < m {
        assert(s[n as int] == '/');
    }
}

/// The first slash is the only index that no slash precedes and that holds
/// a slash or ends the text.
pub proof fn lemma_first_slash_is(s: Seq<char>, n: nat)
    requires
        n <= s.len(),
        forall|i: int| 0 <= i < n ==> s[i] != '/',
        n < s.len() ==> s[n as int] == '/',
    ensures
        first_slash(s) == n,
{
    lemma_first_slash(s);
    let m = first_slash(s);
    if m < n {
        assert(s[m as int] != '/');
    } else if n < m {
        assert(s[n as int] != '/');
    }
}

/// Whether the character at `i` of a text of ASCII characters is a slash.
fn is_slash_ascii(path: &str, i: usize) -> (r: bool)
    requires
        path.is_ascii(),
        i < path@.len(),
    ensures
        r == (path@[i as int] == '/'),
{
    let b = path.get_ascii(i);
    proof {
        let c = path@[i as int];
        assert('\0' <= c <= '\u{7f}');
        assert((c as u8 == 47u8) <==> (c == '/'));
    }
    b == 47
}

/// Whether the character at `i` of a text is a slash. A text of ASCII
/// characters is read in place; any other is decoded from its start.
fn is_slash(path: &str, ascii: bool, i: usize) -> (r: bool)
    requires
        ascii ==> path.is_ascii(),
        i < path@.len(),
    ensures
        r == (path@[i as int] == '/'),
{
    if ascii {
        is_slash_ascii(path, i)
    } else {
        path.get_char(i) == '/'
    }
}

/// The part of a text between two character positions.
fn part<'a>(path: &'a str, ascii: bool, from: usize, to: usize) -> (r: &'a str)
    requires
        ascii ==> path.is_ascii(),
        from <= to <= path@.len(),
    ensures
        r@ == path@.subrange(from as int, to as int),
{
    if ascii {
        path.substring_ascii(from, to)
    } else {
        path.substring_char(from, to)
    }
}

/// Splits a request path into the bucket and, where a slash follows the
/// bucket, the key. Leading slashes are dropped; the key keeps every later
/// slash. Never fails.
pub fn parse_bucket_key<'a>(path: &'a str) -> (r: Result<(&'a str, Option<&'a str>), Error>)
    ensures
        r matches Ok((bucket, key)) && bucket@ == bucket_of(path@) && match key {
            Some(k) => key_of(path@) == Some(k@),
            None => key_of(path@) is None,
        },
{
    let ascii = path.is_ascii();
    let n: usize = path.unicode_len();
    let mut start: usize = 0;
    while start < n && is_slash(path, ascii, start)
        invariant
            n == path@.len(),
            ascii ==> path.is_ascii(),
            start <= n,
            forall|i: int| 0 <= i < start ==> path@[i] == '/',
        decreases n - start,
    {
        start += 1;
    }
    proof {
        lemma_leading_slashes_is(path@, start as nat);
    }
    let ghost t = path@.skip(start as int);
    let mut end: usize = start;
    while end < n && !is_slash(path, ascii, end)
        invariant
            n == path@.len(),
            ascii ==> path.is_ascii(),
            start <= end <= n,
            t == path@.skip(start as int),
            forall|i: int| 0 <= i < end - start ==> t[i] != '/',
        decreases n - end,
    {
        end += 1;
    }
    proof {
        lemma_first_slash_is(t, (end - start) as nat);
        assert(path@.subrange(start as int, end as int) =~= t.take(end - start));
    }
    let bucket = part(path, ascii, start, end);
    if end < n {
        let key = part(path, ascii, end + 1, n);
        proof {
            assert(path@.subrange(end + 1, n as int) =~= t.skip(end - start + 1));
        }
        Ok((bucket, Some(key)))
    } else {
        Ok((bucket, None))
    }
}

} // verus!
