//! The query of the URI with which a game opens its bHaptics connection: the
//! `app_id` and `app_name` parameters, percent-decoded.
use vstd::prelude::*;

use crate::text::{chars_of, opt_chars};

verus! {

broadcast use vstd::string::group_string_axioms;

/// The value of an ASCII hex digit, either case.
pub open spec fn hex_digit_value(c: u8) -> Option<int> {
    if 48 <= c <= 57 {
        Some(c - 48)
    } else if 65 <= c <= 70 {
        Some(c - 55)
    } else if 97 <= c <= 102 {
        Some(c - 87)
    } else {
        None
    }
}

/// Percent-decoding of bytes: a `%` and two hex digits give the byte that
/// they spell; a `%` without them stays as it is, and so does every other
/// byte, `+` included.
pub open spec fn percent_decode(b: Seq<u8>) -> Seq<u8>
    decreases b.len(),
{
    if b.len() == 0 {
        b
    } else if b[0] != 37 {
        seq![b[0]] + percent_decode(b.subrange(1, b.len() as int))
    } else if b.len() < 3 {
        b
    } else {
        match (hex_digit_value(b[1]), hex_digit_value(b[2])) {
            (Some(h), Some(l)) => seq![(h * 16 + l) as u8] + percent_decode(b.subrange(3, b.len() as int)),
            (Some(_), None) => seq![37u8, b[1]] + percent_decode(b.subrange(2, b.len() as int)),
            _ => seq![37u8] + percent_decode(b.subrange(1, b.len() as int)),
        }
    }
}

/// The text that the percent-decoded UTF-8 bytes of `text` spell, or `None`
/// when they are not UTF-8.
pub open spec fn url_decoded(text: Seq<char>) -> Option<Seq<char>> {
    let b = percent_decode(vstd::utf8::encode_utf8(text));
    if vstd::utf8::valid_utf8(b) {
        Some(vstd::utf8::decode_utf8(b))
    } else {
        None
    }
}

/// `urlencoding::decode`, taken as an owned string: the UTF-8 bytes of the
/// text are percent-decoded and read back as UTF-8, which fails when they
/// are not. A text without `%` comes back unchanged.
#[verifier::external_body]
fn url_decode(text: &str) -> (res: Option<String>)
    ensures
        opt_chars(res) == url_decoded(text@),
        !text@.contains('%') ==> opt_chars(res) == Some(text@),
{
    match urlencoding::decode(text) {
        Ok(decoded) => Some(decoded.into_owned()),
        Err(_) => None,
    }
}

/// The first index in `p..hi` that holds `c`, or `hi`.
pub open spec fn find_in(s: Seq<char>, c: char, p: int, hi: int) -> int
    decreases hi - p,
{
    if p >= hi {
        hi
    } else if s[p] == c {
        p
    } else {
        find_in(s, c, p + 1, hi)
    }
}

/// The last index in `lo..n` that holds `c`, or `lo - 1`.
pub open spec fn rfind_in(s: Seq<char>, c: char, lo: int, n: int) -> int
    decreases n - lo,
{
    if n <= lo {
        lo - 1
    } else if s[n - 1] == c {
        n - 1
    } else {
        rfind_in(s, c, lo, n - 1)
    }
}

/// The query of a URI: the text after its first `?`, up to the next `?`.
pub open spec fn query_bounds(u: Seq<char>) -> Option<(int, int)> {
    let q = find_in(u, '?', 0, u.len() as int);
    if q >= u.len() {
        None
    } else {
        Some((q + 1, find_in(u, '?', q + 1, u.len() as int)))
    }
}

/// The value of the pair `lo..hi` when its name, the text before its first
/// `=`, is `key`.
pub open spec fn pair_value(u: Seq<char>, lo: int, hi: int, key: Seq<char>) -> Option<Seq<char>> {
    let e = find_in(u, '=', lo, hi);
    if e < hi && u.subrange(lo, e) == key {
        Some(u.subrange(e + 1, hi))
    } else {
        None
    }
}

/// The value of the last pair named `key` among the `&`-separated pairs of
/// `lo..hi`.
pub open spec fn last_value(u: Seq<char>, lo: int, hi: int, key: Seq<char>) -> Option<Seq<char>>
    decreases hi - lo,
{
    let a = rfind_in(u, '&', lo, hi);
    if a < lo {
        pair_value(u, lo, hi, key)
    } else if a < hi {
        match pair_value(u, a + 1, hi, key) {
            Some(v) => Some(v),
            None => last_value(u, lo, a, key),
        }
    } else {
        None
    }
}

/// A decoded value, empty when it does not decode.
pub open spec fn decoded_or_empty(v: Seq<char>) -> Seq<char> {
    match url_decoded(v) {
        Some(d) => d,
        None => Seq::empty(),
    }
}

/// The decoded value of the last query parameter named `key`, or empty.
pub open spec fn spec_query_param(u: Seq<char>, key: Seq<char>) -> Seq<char> {
    match query_bounds(u) {
        Some((lo, hi)) => match last_value(u, lo, hi, key) {
            Some(v) => decoded_or_empty(v),
            None => Seq::empty(),
        },
        None => Seq::empty(),
    }
}

pub open spec fn app_id_key() -> Seq<char> {
    seq!['a', 'p', 'p', '_', 'i', 'd']
}

pub open spec fn app_name_key() -> Seq<char> {
    seq!['a', 'p', 'p', '_', 'n', 'a', 'm', 'e']
}

proof fn lemma_find_in_bounds(s: Seq<char>, c: char, p: int, hi: int)
    requires
        p <= hi,
    ensures
        p <= find_in(s, c, p, hi) <= hi,
    decreases hi - p,
{
    if p < hi && s[p] != c {
        lemma_find_in_bounds(s, c, p + 1, hi);
    }
}

fn find_in_exec(chars: &Vec<char>, c: char, p: usize, hi: usize) -> (r: usize)
    requires
        p <= hi <= chars@.len(),
    ensures
        r == find_in(chars@, c, p as int, hi as int),
        p <= r <= hi,
{
    proof {
        lemma_find_in_bounds(chars@, c, p as int, hi as int);
    }
    let mut k = p;
    while k < hi && chars[k] != c
        invariant
            p <= k <= hi <= chars@.len(),
            find_in(chars@, c, p as int, hi as int) == find_in(chars@, c, k as int, hi as int),
        decreases hi - k,
    {
        k += 1;
    }
    k
}

/// The last `c` in `lo..n`, if any.
fn rfind_in_exec(chars: &Vec<char>, c: char, lo: usize, n: usize) -> (r: Option<usize>)
    requires
        lo <= n <= chars@.len(),
    ensures
        match r {
            Some(a) => a as int == rfind_in(chars@, c, lo as int, n as int) && lo <= a < n,
            None => rfind_in(chars@, c, lo as int, n as int) == lo - 1,
        },
{
    let mut m = n;
    while m > lo
        invariant
            lo <= m <= n <= chars@.len(),
            rfind_in(chars@, c, lo as int, n as int) == rfind_in(chars@, c, lo as int, m as int),
        decreases m - lo,
    {
        if chars[m - 1] == c {
            return Some(m - 1);
        }
        m -= 1;
    }
    None
}

/// The characters `lo..hi` equal `word`.
fn range_is(chars: &Vec<char>, lo: usize, hi: usize, word: &Vec<char>) -> (res: bool)
    requires
        lo <= hi <= chars@.len(),
    ensures
        res == (chars@.subrange(lo as int, hi as int) == word@),
{
    if hi - lo != word.len() {
        return false;
    }
    let mut k: usize = 0;
    while k < word.len()
        invariant
            hi - lo == word@.len(),
            lo <= hi <= chars@.len(),
            k <= word@.len(),
            forall|j: int| 0 <= j < k ==> chars@[lo + j] == word@[j],
        decreases word@.len() - k,
    {
        if chars[lo + k] != word[k] {
            assert(chars@.subrange(lo as int, hi as int)[k as int] != word@[k as int]);
            return false;
        }
        k += 1;
    }
    assert(chars@.subrange(lo as int, hi as int) =~= word@);
    true
}

/// The value of the pair `lo..hi` when it is named `key`.
fn pair_value_exec<'a>(uri: &'a str, chars: &Vec<char>, lo: usize, hi: usize, key: &Vec<char>) -> (res: Option<&'a str>)
    requires
        chars@ == uri@,
        lo <= hi <= chars@.len(),
    ensures
        match (res, pair_value(uri@, lo as int, hi as int, key@)) {
            (Some(r), Some(v)) => r@ == v,
            (None, None) => true,
            _ => false,
        },
{
    let e = find_in_exec(chars, '=', lo, hi);
    if e < hi && range_is(chars, lo, e, key) {
        Some(uri.substring_char(e + 1, hi))
    } else {
        None
    }
}

/// The decoded value of the last pair named `key` in `lo..hi`, or empty.
fn last_value_exec(uri: &str, chars: &Vec<char>, lo: usize, hi: usize, key: &Vec<char>) -> (res: String)
    requires
        chars@ == uri@,
        lo <= hi <= chars@.len(),
    ensures
        res@ == match last_value(uri@, lo as int, hi as int, key@) {
            Some(v) => decoded_or_empty(v),
            None => Seq::empty(),
        },
{
    let mut n = hi;
    loop
        invariant
            chars@ == uri@,
            lo <= n <= hi <= chars@.len(),
            last_value(uri@, lo as int, hi as int, key@) == last_value(uri@, lo as int, n as int, key@),
        decreases n - lo,
    {
        let amp = rfind_in_exec(chars, '&', lo, n);
        let start = match amp {
            Some(a) => a + 1,
            None => lo,
        };
        match pair_value_exec(uri, chars, start, n, key) {
            Some(v) => {
                return match url_decode(v) {
                    Some(d) => d,
                    None => String::new(),
                };
            },
            None => {},
        }
        match amp {
            Some(a) => {
                n = a;
            },
            None => {
                return String::new();
            },
        }
    }
}

/// Reads `app_id` and `app_name` from the query of a connection URI. A
/// parameter that is missing, or whose value does not decode, is empty; of
/// several with one name the last counts.
pub fn parse_query_params(uri: &str) -> (res: (String, String))
    ensures
        res.0@ == spec_query_param(uri@, app_id_key()),
        res.1@ == spec_query_param(uri@, app_name_key()),
{
    let chars = chars_of(uri);
    let q = find_in_exec(&chars, '?', 0, chars.len());
    if q >= chars.len() {
        return (String::new(), String::new());
    }
    let hi = find_in_exec(&chars, '?', q + 1, chars.len());
    let id_key = chars_of("app_id");
    let name_key = chars_of("app_name");
    proof {
        reveal_strlit("app_id");
        reveal_strlit("app_name");
        assert(id_key@ =~= app_id_key());
        assert(name_key@ =~= app_name_key());
    }
    let app_id = last_value_exec(uri, &chars, q + 1, hi, &id_key);
    let app_name = last_value_exec(uri, &chars, q + 1, hi, &name_key);
    (app_id, app_name)
}

} // verus!
