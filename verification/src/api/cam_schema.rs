//! Data reference schemas.
//!
//! A schema describes the packed bit code that an avatar draws into its camera.
//! The file is either plain JSON or a markdown file with a fenced JSON block.
//! The field order gives the bit offsets, the same way the native ABI does. A
//! name is an OSC path without the VRC Fury version prefix.
use vstd::prelude::*;
use vstd::string::*;

use crate::text::{
    chars_of, decimal_text, eq_ignore_ascii_case_range, spec_decimal, spec_eq_ignore_ascii_case, spec_trim,
    spec_trim_start, trim_range,
};

verus! {

broadcast use vstd::string::group_string_axioms;

/// The value type of one field. The codes match the native ABI.
#[derive(Debug, Clone, Copy, PartialEq, Eq, Structural, Hash)]
pub enum CamType {
    Float,
    Int,
    Uint,
    Bool,
}

impl CamType {
    /// The ABI code of the kind: 0 float, 1 int, 2 uint, 3 bool.
    pub fn abi_code(&self) -> (res: u32)
        ensures
            res == spec_abi_code(*self),
    {
        match self {
            CamType::Float => 0,
            CamType::Int => 1,
            CamType::Uint => 2,
            CamType::Bool => 3,
        }
    }
}

pub open spec fn spec_abi_code(t: CamType) -> u32 {
    match t {
        CamType::Float => 0,
        CamType::Int => 1,
        CamType::Uint => 2,
        CamType::Bool => 3,
    }
}

/// One field of the packed code.
#[derive(Debug, Clone)]
pub struct CamField {
    /// The OSC parameter that this field drives.
    pub osc: String,
    pub kind: CamType,
    /// The width of the field, 1 to 32 bits.
    pub bits: u32,
}

/// The full description of one camera code.
#[derive(Debug, Clone)]
pub struct CamConfig {
    /// The avatar id that this config relates to
    pub id: String,
    /// The schema version. The loader takes the highest version of an ID.
    pub version: u32,
    /// The shader that draws the code.
    pub shader: String,
    /// The total width of the code. 0 means the sum of the field widths.
    pub total_bits: u32,
    pub fields: Vec<CamField>,
}

/// The reason that a schema file is not usable.
#[derive(Debug, Clone)]
pub enum SchemaError {
    EmptyId,
    NoFields,
    /// A field is below 1 bit or above 32 bits, or a bool is wider than 1 bit.
    FieldWidth { name: String, bits: u32 },
    /// `totalBits` does not match the sum of the field widths.
    BitTotal { stated: u32, sum: u32 },
}

/// The message of a schema error.
pub open spec fn spec_schema_error_message(e: SchemaError) -> Seq<char> {
    match e {
        SchemaError::EmptyId => "the schema has an empty id"@,
        SchemaError::NoFields => "the schema has no fields"@,
        SchemaError::FieldWidth { name, bits } => "field "@ + name@ + " has an illegal width of "@ + spec_decimal(
            bits as nat,
        ) + " bits"@,
        SchemaError::BitTotal { stated, sum } => "totalBits is "@ + spec_decimal(stated as nat)
            + " but the fields sum to "@ + spec_decimal(sum as nat),
    }
}

impl SchemaError {
    /// The message shown to the user.
    pub fn message(&self) -> (res: String)
        ensures
            res@ == spec_schema_error_message(*self),
    {
        match self {
            SchemaError::EmptyId => String::from_str("the schema has an empty id"),
            SchemaError::NoFields => String::from_str("the schema has no fields"),
            SchemaError::FieldWidth { name, bits } => {
                let mut s = String::from_str("field ");
                s.append(name.as_str());
                s.append(" has an illegal width of ");
                let b = decimal_text(*bits);
                s.append(b.as_str());
                s.append(" bits");
                s
            },
            SchemaError::BitTotal { stated, sum } => {
                let mut s = String::from_str("totalBits is ");
                let a = decimal_text(*stated);
                s.append(a.as_str());
                s.append(" but the fields sum to ");
                let b = decimal_text(*sum);
                s.append(b.as_str());
                s
            },
        }
    }
}

/// The sum of the widths of the first `n` fields.
pub open spec fn spec_bit_sum(fields: Seq<CamField>, n: int) -> int
    decreases n,
{
    if n <= 0 {
        0
    } else {
        spec_bit_sum(fields, n - 1) + fields[n - 1].bits
    }
}

/// The sum of all field widths.
pub open spec fn spec_fields_sum(fields: Seq<CamField>) -> int {
    spec_bit_sum(fields, fields.len() as int)
}

/// A field is 1 to 32 bits wide, and a bool is exactly 1 bit wide.
pub open spec fn field_ok(f: CamField) -> bool {
    &&& 1 <= f.bits <= 32
    &&& (f.kind == CamType::Bool ==> f.bits == 1)
}

/// `i` is the first field that breaks the width rules.
pub open spec fn is_first_bad_field(fields: Seq<CamField>, i: int) -> bool {
    &&& 0 <= i < fields.len()
    &&& !field_ok(fields[i])
    &&& forall|j: int| 0 <= j < i ==> field_ok(#[trigger] fields[j])
}

/// The width that the decoder must use: the stated total, or the field sum
/// when the stated total is 0.
pub open spec fn spec_bit_total(c: CamConfig) -> int {
    if c.total_bits == 0 {
        spec_fields_sum(c.fields@)
    } else {
        c.total_bits as int
    }
}

/// What `validate` answers for a schema: `Ok` exactly for a valid one, else
/// the first rule that it breaks, with the offending values.
pub open spec fn validate_outcome(c: CamConfig, res: Result<(), SchemaError>) -> bool {
    &&& (res is Ok <==> schema_valid(c))
    &&& (c.id@.len() == 0 <==> (res matches Err(SchemaError::EmptyId)))
    &&& (c.id@.len() > 0 && c.fields@.len() == 0 <==> (res matches Err(SchemaError::NoFields)))
    &&& match res {
        Err(SchemaError::FieldWidth { name, bits }) => c.id@.len() > 0 && exists|i: int|
            is_first_bad_field(c.fields@, i) && name@ == c.fields@[i].osc@ && bits == c.fields@[i].bits,
        Err(SchemaError::BitTotal { stated, sum }) => c.id@.len() > 0 && c.fields@.len() > 0 && (forall|i: int|
            0 <= i < c.fields@.len() ==> field_ok(#[trigger] c.fields@[i])) && stated == c.total_bits && sum
            == spec_fields_sum(c.fields@) && stated != 0 && stated != sum,
        _ => true,
    }
    &&& ((c.id@.len() > 0 && c.fields@.len() > 0 && exists|i: int| is_first_bad_field(c.fields@, i))
        ==> (res matches Err(SchemaError::FieldWidth { .. })))
}

/// The schema rules in the order that `validate` applies them.
pub open spec fn schema_valid(c: CamConfig) -> bool {
    &&& c.id@.len() > 0
    &&& c.fields@.len() > 0
    &&& forall|i: int| 0 <= i < c.fields@.len() ==> field_ok(#[trigger] c.fields@[i])
    &&& (c.total_bits == 0 || c.total_bits == spec_fields_sum(c.fields@))
}

/// The width sum fits a `u32` whenever every field passes the width rules,
/// the one case in which `validate` adds the widths up.
pub open spec fn widths_fit(c: CamConfig) -> bool {
    (forall|i: int| 0 <= i < c.fields@.len() ==> field_ok(#[trigger] c.fields@[i])) ==> spec_fields_sum(c.fields@)
        <= u32::MAX
}

proof fn lemma_bit_sum_lower(fields: Seq<CamField>, n: int)
    requires
        0 <= n <= fields.len(),
        forall|i: int| 0 <= i < n ==> 1 <= #[trigger] fields[i].bits,
    ensures
        n <= spec_bit_sum(fields, n),
    decreases n,
{
    if n > 0 {
        lemma_bit_sum_lower(fields, n - 1);
    }
}

/// A schema that passes `validate` decodes with the sum of its field
/// widths, whatever its number of fields.
pub proof fn lemma_valid_total_is_sum(c: CamConfig)
    requires
        schema_valid(c),
    ensures
        spec_bit_total(c) == spec_fields_sum(c.fields@),
{
}

/// A valid schema whose widths fit has at most as many fields as bits, and
/// its width sum fits a `u32`.
pub proof fn lemma_valid_widths(c: CamConfig)
    requires
        schema_valid(c),
        widths_fit(c),
    ensures
        c.fields@.len() <= spec_fields_sum(c.fields@) <= u32::MAX,
{
    lemma_bit_sum_lower(c.fields@, c.fields@.len() as int);
}

proof fn lemma_bit_sum_mono(fields: Seq<CamField>, m: int, n: int)
    requires
        0 <= m <= n,
    ensures
        spec_bit_sum(fields, m) <= spec_bit_sum(fields, n),
    decreases n,
{
    if m < n {
        lemma_bit_sum_mono(fields, m, n - 1);
    }
}

impl CamConfig {
    /// The sum of the field widths.
    pub fn bit_sum(&self) -> (res: u32)
        requires
            spec_fields_sum(self.fields@) <= u32::MAX,
        ensures
            res == spec_fields_sum(self.fields@),
    {
        let mut sum: u32 = 0;
        let mut i: usize = 0;
        while i < self.fields.len()
            invariant
                i <= self.fields@.len(),
                sum == spec_bit_sum(self.fields@, i as int),
                spec_fields_sum(self.fields@) <= u32::MAX,
            decreases self.fields@.len() - i,
        {
            proof {
                lemma_bit_sum_mono(self.fields@, i + 1, self.fields@.len() as int);
            }
            sum = sum + self.fields[i].bits;
            i += 1;
        }
        sum
    }

    /// The width that the decoder must use.
    pub fn bit_total(&self) -> (res: u32)
        requires
            self.total_bits == 0 ==> spec_fields_sum(self.fields@) <= u32::MAX,
        ensures
            res == spec_bit_total(*self),
    {
        if self.total_bits == 0 {
            self.bit_sum()
        } else {
            self.total_bits
        }
    }

    /// Whether the width sum fits a `u32` or some field breaks the width
    /// rules: what `validate` needs to add the widths up.
    pub fn fits_u32(&self) -> (res: bool)
        ensures
            res == widths_fit(*self),
    {
        let mut sum: u64 = 0;
        let mut over = false;
        let mut i: usize = 0;
        while i < self.fields.len()
            invariant
                i <= self.fields@.len(),
                forall|j: int| 0 <= j < i ==> field_ok(#[trigger] self.fields@[j]),
                !over ==> sum == spec_bit_sum(self.fields@, i as int) && sum <= u32::MAX,
                over ==> spec_bit_sum(self.fields@, i as int) > u32::MAX,
            decreases self.fields@.len() - i,
        {
            let field = &self.fields[i];
            if field.bits < 1 || field.bits > 32 || (field.kind == CamType::Bool && field.bits != 1) {
                proof {
                    assert(!field_ok(self.fields@[i as int]));
                }
                return true;
            }
            if !over {
                sum = sum + field.bits as u64;
                if sum > u32::MAX as u64 {
                    over = true;
                }
            }
            i += 1;
        }
        proof {
            if over {
                lemma_bit_sum_mono(self.fields@, i as int, self.fields@.len() as int);
            }
        }
        !over
    }

    /// Checks the schema rules: a non-empty id, at least one field, every
    /// field 1 to 32 bits wide with a bool exactly 1 bit wide, and a stated
    /// total of 0 or the sum of the widths.
    pub fn validate(&self) -> (res: Result<(), SchemaError>)
        requires
            widths_fit(*self),
        ensures
            validate_outcome(*self, res),
    {
        if self.id.as_str().is_empty() {
            return Err(SchemaError::EmptyId);
        }
        if self.fields.len() == 0 {
            return Err(SchemaError::NoFields);
        }
        let mut i: usize = 0;
        while i < self.fields.len()
            invariant
                i <= self.fields@.len(),
                self.id@.len() > 0,
                self.fields@.len() > 0,
                forall|j: int| 0 <= j < i ==> field_ok(#[trigger] self.fields@[j]),
            decreases self.fields@.len() - i,
        {
            let field = &self.fields[i];
            if field.bits < 1 || field.bits > 32 || (field.kind == CamType::Bool && field.bits != 1) {
                proof {
                    assert(is_first_bad_field(self.fields@, i as int));
                    assert forall|k: int| is_first_bad_field(self.fields@, k) implies k == i by {
                        if k < i {
                            assert(field_ok(self.fields@[k]));
                        } else if k > i {
                            assert(field_ok(self.fields@[i as int]));
                        }
                    }
                }
                return Err(SchemaError::FieldWidth { name: field.osc.clone(), bits: field.bits });
            }
            i += 1;
        }
        proof {
            assert forall|k: int| !is_first_bad_field(self.fields@, k) by {}
        }
        let sum = self.bit_sum();
        if self.total_bits != 0 && self.total_bits != sum {
            return Err(SchemaError::BitTotal { stated: self.total_bits, sum });
        }
        Ok(())
    }
}

/// The end of the line that starts at `p`: just past its `'\n'`, or the end
/// of the text when the line has none.
pub open spec fn line_end(s: Seq<char>, p: int) -> int
    decreases s.len() - p,
{
    if p >= s.len() {
        s.len() as int
    } else if s[p] == '\n' {
        p + 1
    } else {
        line_end(s, p + 1)
    }
}

pub proof fn lemma_line_end(s: Seq<char>, p: int)
    requires
        0 <= p < s.len(),
    ensures
        p < line_end(s, p) <= s.len(),
    decreases s.len() - p,
{
    if s[p] != '\n' {
        if p + 1 < s.len() {
            lemma_line_end(s, p + 1);
        } else {
            assert(line_end(s, p + 1) == s.len());
        }
    }
}

/// The text starts with three backticks.
pub open spec fn starts_with_fence(t: Seq<char>) -> bool {
    t.len() >= 3 && t[0] == '`' && t[1] == '`' && t[2] == '`'
}

/// A line that, trimmed, starts with three backticks.
pub open spec fn is_fence(line: Seq<char>) -> bool {
    starts_with_fence(spec_trim(line))
}

/// A line that, trimmed, is three backticks and the tag `json` in any case.
pub open spec fn is_json_fence(line: Seq<char>) -> bool {
    let t = spec_trim(line);
    starts_with_fence(t) && spec_eq_ignore_ascii_case(
        spec_trim(t.subrange(3, t.len() as int)),
        seq!['j', 's', 'o', 'n'],
    )
}

/// The end of the first `json` fence line at or after the line that starts at
/// `p`, which is where the fenced body begins.
pub open spec fn open_fence_from(s: Seq<char>, p: int) -> Option<int>
    decreases s.len() - p,
{
    if p < 0 || p >= s.len() {
        None
    } else {
        proof {
            lemma_line_end(s, p);
        }
        let e = line_end(s, p);
        if is_json_fence(s.subrange(p, e)) {
            Some(e)
        } else {
            open_fence_from(s, e)
        }
    }
}

/// The start of the first fence line at or after the line that starts at `p`,
/// or the end of the text.
pub open spec fn close_fence_from(s: Seq<char>, p: int) -> int
    decreases s.len() - p,
{
    if p < 0 || p >= s.len() {
        s.len() as int
    } else {
        proof {
            lemma_line_end(s, p);
        }
        let e = line_end(s, p);
        if is_fence(s.subrange(p, e)) {
            p
        } else {
            close_fence_from(s, e)
        }
    }
}

/// The body of the first fenced `json` block: the lines after the opening
/// fence up to the next fence line, or to the end of the text when no fence
/// closes it.
pub open spec fn spec_fenced_json(s: Seq<char>) -> Option<Seq<char>> {
    match open_fence_from(s, 0) {
        Some(b) => Some(s.subrange(b, close_fence_from(s, b))),
        None => None,
    }
}

/// The first index at or after `p` that holds `c`, or the length.
pub open spec fn find_char(s: Seq<char>, c: char, p: int) -> int
    decreases s.len() - p,
{
    if p >= s.len() {
        s.len() as int
    } else if s[p] == c {
        p
    } else {
        find_char(s, c, p + 1)
    }
}

/// The last index below `n` that holds `c`, or -1.
pub open spec fn rfind_char(s: Seq<char>, c: char, n: int) -> int
    decreases n,
{
    if n <= 0 {
        -1
    } else if s[n - 1] == c {
        n - 1
    } else {
        rfind_char(s, c, n - 1)
    }
}

/// The JSON object inside a schema file: the whole text when it starts with a
/// brace after white space, else the first fenced `json` block, else the text
/// from the first `{` to the last `}`, else the whole text.
pub open spec fn spec_json_body(s: Seq<char>) -> Seq<char> {
    let t = spec_trim_start(s);
    if t.len() > 0 && t[0] == '{' {
        s
    } else {
        match spec_fenced_json(s) {
            Some(body) => body,
            None => {
                let a = find_char(s, '{', 0);
                let b = rfind_char(s, '}', s.len() as int);
                if a < s.len() && b >= 0 && b > a {
                    s.subrange(a, b + 1)
                } else {
                    s
                }
            },
        }
    }
}

fn find_line_end(chars: &Vec<char>, p: usize) -> (e: usize)
    requires
        p < chars@.len(),
    ensures
        e == line_end(chars@, p as int),
        p < e <= chars@.len(),
{
    proof {
        lemma_line_end(chars@, p as int);
    }
    let mut q = p;
    while q < chars.len() && chars[q] != '\n'
        invariant
            p <= q <= chars@.len(),
            line_end(chars@, p as int) == line_end(chars@, q as int),
        decreases chars@.len() - q,
    {
        q += 1;
    }
    if q < chars.len() {
        q + 1
    } else {
        q
    }
}

/// Whether `chars[lo..hi]` is a fence line; with `json`, a `json` fence line.
fn fence_at(chars: &Vec<char>, lo: usize, hi: usize, json: bool) -> (res: bool)
    requires
        lo <= hi <= chars@.len(),
    ensures
        json ==> res == is_json_fence(chars@.subrange(lo as int, hi as int)),
        !json ==> res == is_fence(chars@.subrange(lo as int, hi as int)),
{
    let (a, b) = trim_range(chars, lo, hi);
    let ghost t = chars@.subrange(a as int, b as int);
    if b - a < 3 || chars[a] != '`' || chars[a + 1] != '`' || chars[a + 2] != '`' {
        return false;
    }
    assert(starts_with_fence(t));
    if !json {
        return true;
    }
    let (c, d) = trim_range(chars, a + 3, b);
    assert(chars@.subrange(a + 3, b as int) =~= t.subrange(3, t.len() as int));
    let word = vec!['j', 's', 'o', 'n'];
    assert(word@ =~= seq!['j', 's', 'o', 'n']);
    eq_ignore_ascii_case_range(chars, c, d, &word)
}

/// Finds the first fenced `json` block of a markdown file: the lines after
/// the opening fence up to the next fence line, or to the end of the file.
pub fn fenced_json(content: &str) -> (res: Option<&str>)
    ensures
        match (res, spec_fenced_json(content@)) {
            (Some(r), Some(b)) => r@ == b,
            (None, None) => true,
            _ => false,
        },
{
    let chars = chars_of(content);
    let ghost s = chars@;
    let mut p: usize = 0;
    let mut start: Option<usize> = None;
    while p < chars.len()
        invariant
            s == chars@,
            s == content@,
            p <= s.len(),
            match start {
                None => open_fence_from(s, 0) == open_fence_from(s, p as int),
                Some(begin) => open_fence_from(s, 0) == Some(begin as int) && begin <= p
                    && close_fence_from(s, begin as int) == close_fence_from(s, p as int),
            },
        decreases s.len() - p,
    {
        let e = find_line_end(&chars, p);
        match start {
            None => {
                if fence_at(&chars, p, e, true) {
                    start = Some(e);
                }
            },
            Some(begin) => {
                if fence_at(&chars, p, e, false) {
                    return Some(content.substring_char(begin, p));
                }
            },
        }
        p = e;
    }
    match start {
        Some(begin) => Some(content.substring_char(begin, chars.len())),
        None => None,
    }
}

/// Returns the JSON object inside a file.
///
/// A file that starts with a brace after white space is taken whole. Else the
/// function takes the first fenced `json` block. A file without a fence
/// falls back to the text between the first brace and the last brace.
pub fn json_body(content: &str) -> (res: &str)
    ensures
        res@ == spec_json_body(content@),
{
    let chars = chars_of(content);
    let ghost s = chars@;
    let (lo, _hi) = trim_range(&chars, 0, chars.len());
    assert(s.subrange(0, s.len() as int) =~= s);
    if lo < chars.len() && chars[lo] == '{' {
        return content;
    }
    if let Some(body) = fenced_json(content) {
        return body;
    }
    let mut a: usize = 0;
    while a < chars.len() && chars[a] != '{'
        invariant
            a <= s.len(),
            s == chars@,
            find_char(s, '{', 0) == find_char(s, '{', a as int),
        decreases s.len() - a,
    {
        a += 1;
    }
    let mut n: usize = chars.len();
    while n > 0 && chars[n - 1] != '}'
        invariant
            n <= s.len(),
            s == chars@,
            rfind_char(s, '}', s.len() as int) == rfind_char(s, '}', n as int),
        decreases n,
    {
        n -= 1;
    }
    if a < chars.len() && n > 0 && n - 1 > a {
        content.substring_char(a, n)
    } else {
        content
    }
}

} // verus!
