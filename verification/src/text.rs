//! Character-level helpers for the text that the library reads: white space
//! trimming and ASCII case-insensitive comparison, stated over `Seq<char>`.
use vstd::prelude::*;

verus! {

broadcast use vstd::string::group_string_axioms;

/// The characters with the Unicode `White_Space` property, which is what
/// `char::is_whitespace` tests.
pub open spec fn spec_is_whitespace(c: char) -> bool {
    let u = c as u32;
    ||| (9 <= u && u <= 13)
    ||| u == 32
    ||| u == 0x85
    ||| u == 0xA0
    ||| u == 0x1680
    ||| (0x2000 <= u && u <= 0x200A)
    ||| u == 0x2028
    ||| u == 0x2029
    ||| u == 0x202F
    ||| u == 0x205F
    ||| u == 0x3000
}

/// Drops trailing `'\0'` characters.
pub open spec fn spec_trim_end_nuls(s: Seq<char>) -> Seq<char>
    decreases s.len(),
{
    if s.len() > 0 && s.last() == '\0' {
        spec_trim_end_nuls(s.drop_last())
    } else {
        s
    }
}

/// Drops leading white space.
pub open spec fn spec_trim_start(s: Seq<char>) -> Seq<char>
    decreases s.len(),
{
    if s.len() > 0 && spec_is_whitespace(s[0]) {
        spec_trim_start(s.drop_first())
    } else {
        s
    }
}

/// Drops trailing white space.
pub open spec fn spec_trim_end(s: Seq<char>) -> Seq<char>
    decreases s.len(),
{
    if s.len() > 0 && spec_is_whitespace(s.last()) {
        spec_trim_end(s.drop_last())
    } else {
        s
    }
}

/// Drops white space at both ends.
pub open spec fn spec_trim(s: Seq<char>) -> Seq<char> {
    spec_trim_end(spec_trim_start(s))
}

/// The ASCII lower case of a character code; other codes are unchanged.
pub open spec fn spec_ascii_lower(u: u32) -> u32 {
    if 65 <= u && u <= 90 {
        (u + 32) as u32
    } else {
        u
    }
}

/// Equal after mapping ASCII upper case letters to lower case.
pub open spec fn spec_eq_ignore_ascii_case(a: Seq<char>, b: Seq<char>) -> bool {
    &&& a.len() == b.len()
    &&& forall|i: int|
        0 <= i < a.len() ==> spec_ascii_lower(#[trigger] a[i] as u32) == spec_ascii_lower(
            b[i] as u32,
        )
}

/// Tests `char::is_whitespace`.
pub fn is_whitespace(c: char) -> (res: bool)
    ensures
        res == spec_is_whitespace(c),
{
    let u = c as u32;
    (9 <= u && u <= 13) || u == 32 || u == 0x85 || u == 0xA0 || u == 0x1680 || (0x2000 <= u && u
        <= 0x200A) || u == 0x2028 || u == 0x2029 || u == 0x202F || u == 0x205F || u == 0x3000
}

/// The characters of a string.
pub fn chars_of(s: &str) -> (v: Vec<char>)
    ensures
        v@ == s@,
{
    let mut v: Vec<char> = Vec::new();
    for c in it: s.chars()
        invariant
            v@ == it.seq().take(it.index() as int),
    {
        v.push(c);
        assert(v@ =~= it.seq().take(it.index() + 1));
    }
    assert(v@ =~= s@);
    v
}

/// The bounds of `spec_trim(chars[lo..hi])` inside `chars`.
pub fn trim_range(chars: &Vec<char>, lo: usize, hi: usize) -> (res: (usize, usize))
    requires
        lo <= hi <= chars@.len(),
    ensures
        lo <= res.0 <= res.1 <= hi,
        chars@.subrange(res.0 as int, hi as int) == spec_trim_start(chars@.subrange(lo as int, hi as int)),
        chars@.subrange(res.0 as int, res.1 as int) == spec_trim(chars@.subrange(lo as int, hi as int)),
{
    let ghost base = chars@.subrange(lo as int, hi as int);
    let mut a: usize = lo;
    while a < hi && is_whitespace(chars[a])
        invariant
            lo <= a <= hi <= chars@.len(),
            base == chars@.subrange(lo as int, hi as int),
            spec_trim_start(base) == spec_trim_start(chars@.subrange(a as int, hi as int)),
        decreases hi - a,
    {
        assert(chars@.subrange(a as int, hi as int).drop_first() =~= chars@.subrange(
            a + 1,
            hi as int,
        ));
        a += 1;
    }
    let ghost started = chars@.subrange(a as int, hi as int);
    assert(spec_trim_start(started) == started);
    let mut b = hi;
    assert(chars@.subrange(a as int, b as int) =~= started);
    while b > a && is_whitespace(chars[b - 1])
        invariant
            lo <= a <= b <= hi,
            hi <= chars@.len(),
            spec_trim_end(started) == spec_trim_end(chars@.subrange(a as int, b as int)),
        decreases b,
    {
        assert(chars@.subrange(a as int, b as int).drop_last() =~= chars@.subrange(
            a as int,
            b - 1,
        ));
        b -= 1;
    }
    (a, b)
}

/// The bounds of `spec_trim(spec_trim_end_nuls(chars))` inside `chars`.
pub fn trim_bounds(chars: &Vec<char>) -> (res: (usize, usize))
    ensures
        res.0 <= res.1 <= chars@.len(),
        chars@.subrange(res.0 as int, res.1 as int) == spec_trim(spec_trim_end_nuls(chars@)),
{
    let mut hi = chars.len();
    assert(chars@.subrange(0, hi as int) =~= chars@);
    while hi > 0 && chars[hi - 1] == '\0'
        invariant
            hi <= chars@.len(),
            spec_trim_end_nuls(chars@) == spec_trim_end_nuls(chars@.subrange(0, hi as int)),
        decreases hi,
    {
        assert(chars@.subrange(0, hi as int).drop_last() =~= chars@.subrange(0, hi - 1));
        hi -= 1;
    }
    assert(spec_trim_end_nuls(chars@.subrange(0, hi as int)) == chars@.subrange(0, hi as int));
    trim_range(chars, 0, hi)
}

/// The ASCII lower case of a character code.
fn ascii_lower(u: u32) -> (res: u32)
    ensures
        res == spec_ascii_lower(u),
{
    if 65 <= u && u <= 90 {
        u + 32
    } else {
        u
    }
}

/// True when `chars[lo..hi]` equals `word` in any ASCII case.
pub fn eq_ignore_ascii_case_range(chars: &Vec<char>, lo: usize, hi: usize, word: &Vec<char>) -> (res: bool)
    requires
        lo <= hi <= chars@.len(),
    ensures
        res == spec_eq_ignore_ascii_case(chars@.subrange(lo as int, hi as int), word@),
{
    let ghost part = chars@.subrange(lo as int, hi as int);
    if hi - lo != word.len() {
        return false;
    }
    let mut i: usize = 0;
    while i < word.len()
        invariant
            i <= word@.len(),
            word@.len() == hi - lo,
            lo <= hi <= chars@.len(),
            part == chars@.subrange(lo as int, hi as int),
            forall|j: int|
                0 <= j < i ==> spec_ascii_lower(#[trigger] part[j] as u32) == spec_ascii_lower(
                    word@[j] as u32,
                ),
        decreases word@.len() - i,
    {
        if ascii_lower(chars[lo + i] as u32) != ascii_lower(word[i] as u32) {
            assert(part[i as int] == chars@[lo + i]);
            return false;
        }
        i += 1;
    }
    true
}

/// `String::push`: appends one character.
#[verifier::external_body]
pub(crate) fn push_char(s: &mut String, c: char)
    ensures
        final(s)@ == old(s)@.push(c),
{
    s.push(c);
}

/// The string of a run of characters.
pub fn string_of(chars: &Vec<char>) -> (res: String)
    ensures
        res@ == chars@,
{
    let mut text = String::new();
    let mut k: usize = 0;
    while k < chars.len()
        invariant
            k <= chars@.len(),
            text@ == chars@.subrange(0, k as int),
        decreases chars@.len() - k,
    {
        push_char(&mut text, chars[k]);
        assert(text@ =~= chars@.subrange(0, k + 1));
        k += 1;
    }
    assert(chars@.subrange(0, k as int) =~= chars@);
    text
}

/// The characters of an optional string.
pub open spec fn opt_chars(o: Option<String>) -> Option<Seq<char>> {
    match o {
        Some(s) => Some(s@),
        None => None,
    }
}

/// The two strings hold the same characters.
pub fn str_eq(a: &str, b: &str) -> (res: bool)
    ensures
        res == (a@ == b@),
{
    let x = a.to_owned();
    let y = b.to_owned();
    x == y
}

/// The decimal digit character of a value below ten.
pub open spec fn digit_char(d: nat) -> char {
    ((48 + d) as u32) as char
}

/// The decimal text of a number, without leading zeros.
pub open spec fn spec_decimal(n: nat) -> Seq<char>
    decreases n,
{
    if n < 10 {
        seq![digit_char(n)]
    } else {
        spec_decimal(n / 10).push(digit_char(n % 10))
    }
}

fn decimal_chars(n: u64) -> (res: Vec<char>)
    ensures
        res@ == spec_decimal(n as nat),
    decreases n,
{
    let d = ((n % 10) as u8 + 48) as char;
    if n < 10 {
        let mut v: Vec<char> = Vec::new();
        v.push(d);
        assert(v@ =~= seq![digit_char(n as nat)]);
        v
    } else {
        let mut v = decimal_chars(n / 10);
        v.push(d);
        v
    }
}

/// The decimal text of a number, as `format!("{}", n)` writes it.
pub fn decimal_text(n: u32) -> (res: String)
    ensures
        res@ == spec_decimal(n as nat),
{
    let chars = decimal_chars(n as u64);
    string_of(&chars)
}

/// The decimal text of a count, as `format!("{}", n)` writes it.
pub fn count_text(n: usize) -> (res: String)
    ensures
        res@ == spec_decimal(n as nat),
{
    let chars = decimal_chars(n as u64);
    string_of(&chars)
}

/// The decimal text of a signed number: a minus sign before the digits of
/// a negative one.
pub open spec fn spec_signed_decimal(i: int) -> Seq<char> {
    if i < 0 {
        seq!['-'] + spec_decimal((-i) as nat)
    } else {
        spec_decimal(i as nat)
    }
}

/// The decimal text of a signed number, as `format!("{}", i)` writes it.
pub fn signed_text(i: i64) -> (res: String)
    ensures
        res@ == spec_signed_decimal(i as int),
{
    if i < 0 {
        let magnitude: u64 = ((-(i + 1)) as u64) + 1;
        let digits = decimal_chars(magnitude);
        let mut s = String::from_str("-");
        let d = string_of(&digits);
        s.append(d.as_str());
        proof {
            reveal_strlit("-");
        }
        assert(s@ =~= seq!['-'] + spec_decimal((-i) as nat));
        s
    } else {
        let digits = decimal_chars(i as u64);
        string_of(&digits)
    }
}

} // verus!
