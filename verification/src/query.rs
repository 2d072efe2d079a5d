//! The parameters of a request's query string.

use vstd::prelude::*;
use vstd::string::*;

verus! {

/// The (name, value) pairs of a query string, percent-decoded, in the
/// order in which they are written, as the `url` crate's
/// `form_urlencoded::parse` yields them.
pub uninterp spec fn form_urlencoded(query: Seq<char>) -> Seq<(Seq<char>, Seq<char>)>;

/// The lower-case form of a text, as `str::to_lowercase` gives it.
pub uninterp spec fn lowercase(text: Seq<char>) -> Seq<char>;

/// The mathematical value of a list of pairs of strings.
pub open spec fn pairs(list: Seq<(String, String)>) -> Seq<(Seq<char>, Seq<char>)> {
    list.map_values(|p: (String, String)| (p.0@, p.1@))
}

/// Calls `url::form_urlencoded::parse` on the bytes of `query` and
/// collects the pairs that its iterator yields. The contract names that
/// list `form_urlencoded(query)`: it depends on the query alone.
#[verifier::external_body]
fn form_pairs(query: &str) -> (list: Vec<(String, String)>)
    ensures
        pairs(list@) == form_urlencoded(query@),
{
    url::form_urlencoded::parse(query.as_bytes()).into_owned().collect()
}

/// Calls `str::to_lowercase`. The contract names its result
/// `lowercase(text)`: it depends on the text alone.
#[verifier::external_body]
fn to_lowercase(text: &str) -> (lower: String)
    ensures
        lower@ == lowercase(text@),
{
    text.to_lowercase()
}

/// The parameters of a request: the pairs of its query string, each name
/// in lower case. A request without a query string has none.
pub open spec fn query_params(query: Option<Seq<char>>) -> Seq<(Seq<char>, Seq<char>)> {
    match query {
        None => Seq::empty(),
        Some(q) => form_urlencoded(q).map_values(
            |p: (Seq<char>, Seq<char>)| (lowercase(p.0), p.1),
        ),
    }
}

/// The index of the last pair named `name`. Where a name is given more
/// than once, the last value counts.
pub open spec fn last_index(params: Seq<(Seq<char>, Seq<char>)>, name: Seq<char>) -> Option<int>
    decreases params.len(),
{
    if params.len() == 0 {
        None
    } else if params.last().0 == name {
        Some(params.len() - 1)
    } else {
        last_index(params.drop_last(), name)
    }
}

/// The value of the parameter `name`, if it is given.
pub open spec fn param(params: Seq<(Seq<char>, Seq<char>)>, name: Seq<char>) -> Option<
    Seq<char>,
> {
    match last_index(params, name) {
        Some(i) => Some(params[i].1),
        None => None,
    }
}

/// `last_index` is within bounds, holds the name, and no later pair does.
pub proof fn lemma_last_index(params: Seq<(Seq<char>, Seq<char>)>, name: Seq<char>)
    ensures
        match last_index(params, name) {
            Some(i) => 0 <= i < params.len() && params[i].0 == name && forall|j: int|
                i < j < params.len() ==> (#[trigger] params[j]).0 != name,
            None => forall|j: int| 0 <= j < params.len() ==> (#[trigger] params[j]).0 != name,
        },
    decreases params.len(),
{
    if params.len() > 0 && params.last().0 != name {
        let front = params.drop_last();
        lemma_last_index(front, name);
        assert forall|j: int| 0 <= j < front.len() implies front[j] == params[j] by {}
        match last_index(front, name) {
            Some(i) => {
                assert forall|j: int| i < j < params.len() implies (#[trigger] params[j]).0
                    != name by {
                    if j < front.len() {
                        assert(front[j] == params[j]);
                    }
                }
            },
            None => {
                assert forall|j: int| 0 <= j < params.len() implies (#[trigger] params[j]).0
                    != name by {
                    if j < front.len() {
                        assert(front[j] == params[j]);
                    }
                }
            },
        }
    }
}

/// The parameters of a request, from its query string.
pub fn parse_query(query: Option<&str>) -> (params: Vec<(String, String)>)
    ensures
        pairs(params@) == query_params(
            match query {
                Some(q) => Some(q@),
                None => None,
            },
        ),
{
    let mut params: Vec<(String, String)> = Vec::new();
    let q = match query {
        Some(q) => q,
        None => {
            assert(pairs(params@) =~= Seq::empty());
            return params;
        },
    };
    let raw = form_pairs(q);
    let ghost want = query_params(Some(q@));
    let mut i: usize = 0;
    while i < raw.len()
        invariant
            i <= raw@.len(),
            pairs(raw@) == form_urlencoded(q@),
            want == query_params(Some(q@)),
            pairs(params@) == want.take(i as int),
        decreases raw@.len() - i,
    {
        let name = to_lowercase(raw[i].0.as_str());
        let value = raw[i].1.clone();
        proof {
            assert(pairs(raw@)[i as int] == (raw@[i as int].0@, raw@[i as int].1@));
            assert(want[i as int] == (name@, value@));
        }
        params.push((name, value));
        proof {
            assert(pairs(params@) =~= want.take(i as int).push(want[i as int]));
            assert(want.take(i as int).push(want[i as int]) =~= want.take(i + 1));
        }
        i += 1;
    }
    proof {
        assert(pairs(raw@).len() == raw@.len());
        assert(want.take(i as int) =~= want);
    }
    params
}

/// The value of the parameter `name`, if it is given.
pub fn find_param<'a>(params: &'a Vec<(String, String)>, name: &str) -> (value: Option<&'a String>)
    ensures
        match value {
            Some(v) => param(pairs(params@), name@) == Some(v@),
            None => param(pairs(params@), name@) is None,
        },
{
    let ghost all = pairs(params@);
    let wanted = name.to_string();
    let mut i: usize = params.len();
    while i > 0
        invariant
            i <= params@.len(),
            all == pairs(params@),
            wanted@ == name@,
            forall|j: int| i <= j < all.len() ==> (#[trigger] all[j]).0 != name@,
        decreases i,
    {
        i -= 1;
        assert(all[i as int] == (params@[i as int].0@, params@[i as int].1@));
        if params[i].0 == wanted {
            proof {
                lemma_last_index(all, name@);
            }
            return Some(&params[i].1);
        }
    }
    proof {
        lemma_last_index(all, name@);
    }
    None
}

/// Why a text is not a decimal number that fits.
#[derive(Debug, Clone, Copy, PartialEq, Eq, Structural)]
pub enum NumberError {
    /// The text is empty.
    Empty,
    /// The text holds something other than decimal digits after an
    /// optional leading `+`.
    InvalidDigit,
    /// The number does not fit.
    TooLarge,
}

/// The value of a run of decimal digits that continues the number `acc`,
/// read from the left, as long as it stays within `max`.
pub open spec fn digits_value(digits: Seq<u8>, acc: nat, max: nat) -> Result<nat, NumberError>
    decreases digits.len(),
{
    if digits.len() == 0 {
        Ok(acc)
    } else if !(48 <= digits[0] <= 57) {
        Err(NumberError::InvalidDigit)
    } else if acc * 10 + (digits[0] - 48) > max {
        Err(NumberError::TooLarge)
    } else {
        digits_value(digits.drop_first(), (acc * 10 + (digits[0] - 48)) as nat, max)
    }
}

/// The number that a text, given as its UTF-8 bytes, writes in decimal:
/// digits, after an optional `+`. A sign alone is no number.
pub open spec fn decimal_value(text: Seq<u8>, max: nat) -> Result<nat, NumberError> {
    if text.len() == 0 {
        Err(NumberError::Empty)
    } else if text.len() == 1 && (text[0] == 43 || text[0] == 45) {
        Err(NumberError::InvalidDigit)
    } else if text[0] == 43 {
        digits_value(text.drop_first(), 0, max)
    } else {
        digits_value(text, 0, max)
    }
}

/// Reads a decimal number that fits in `usize`.
pub fn parse_usize(text: &str) -> (r: Result<usize, NumberError>)
    ensures
        match decimal_value(text.spec_bytes(), usize::MAX as nat) {
            Ok(n) => r matches Ok(v) && v == n,
            Err(e) => r == Err::<usize, NumberError>(e),
        },
{
    let bytes = text.as_bytes();
    let n = bytes.len();
    if n == 0 {
        return Err(NumberError::Empty);
    }
    if n == 1 && (bytes[0] == 43 || bytes[0] == 45) {
        return Err(NumberError::InvalidDigit);
    }
    let mut i: usize = if bytes[0] == 43 {
        1
    } else {
        0
    };
    let ghost digits = if bytes@[0] == 43 {
        bytes@.drop_first()
    } else {
        bytes@
    };
    let ghost start = i as int;
    let mut acc: usize = 0;
    proof {
        assert(bytes@.skip(start) =~= digits);
    }
    while i < n
        invariant
            start <= i <= n,
            n == bytes@.len(),
            digits == bytes@.skip(start),
            decimal_value(text.spec_bytes(), usize::MAX as nat) == digits_value(
                digits,
                0,
                usize::MAX as nat,
            ),
            digits_value(digits, 0, usize::MAX as nat) == digits_value(
                bytes@.skip(i as int),
                acc as nat,
                usize::MAX as nat,
            ),
        decreases n - i,
    {
        let b = bytes[i];
        let ghost rest = bytes@.skip(i as int);
        proof {
            assert(rest[0] == b);
            assert(rest.drop_first() =~= bytes@.skip(i + 1));
        }
        if b < 48 || b > 57 {
            return Err(NumberError::InvalidDigit);
        }
        let d = (b - 48) as u128;
        let next: u128 = (acc as u128) * 10 + d;
        if next > usize::MAX as u128 {
            return Err(NumberError::TooLarge);
        }
        acc = next as usize;
        i += 1;
    }
    proof {
        assert(bytes@.skip(i as int).len() == 0);
    }
    Ok(acc)
}

} // verus!
