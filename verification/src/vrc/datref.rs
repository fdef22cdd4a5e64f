//! The bound state of one camera: the native field table, the scale of each
//! field, and the route of each field into the input map.
use vstd::prelude::*;

use crate::api::cam_schema::{
    lemma_valid_widths, schema_valid, spec_abi_code, spec_bit_total, spec_schema_error_message, validate_outcome,
    widths_fit, CamConfig, CamField, CamType, SchemaError,
};
use crate::mapping::{NodeFieldKind, NodeKey, SlotFieldKind, SlotKey};
use crate::vrc::cam::center::DecodedValue;
use crate::vrc::AddrInfo;
use crate::vrc::cam::ffi::DrdField;

verus! {

/// Why a session did not build.
#[derive(Debug, Clone)]
pub enum SessionError {
    /// The schema broke a rule of the ABI.
    Schema(SchemaError),
    /// No field of the schema names a watched parameter.
    NoRoutes,
}

/// The message of a session error.
pub open spec fn spec_session_error_message(e: SessionError) -> Seq<char> {
    match e {
        SessionError::Schema(err) => spec_schema_error_message(err),
        SessionError::NoRoutes => "no field of the schema drives a watched parameter"@,
    }
}

impl SessionError {
    /// The message shown to the user.
    pub fn message(&self) -> (res: String)
        ensures
            res@ == spec_session_error_message(*self),
    {
        match self {
            SessionError::Schema(err) => err.message(),
            SessionError::NoRoutes => String::from_str("no field of the schema drives a watched parameter"),
        }
    }
}

/// The scale of one field, resolved at bind time: its ABI kind code and the
/// divisor that maps a decoded integer into the unit range.
#[derive(Debug, Clone, Copy, PartialEq, Eq, Structural)]
pub struct FieldSpec {
    pub kind: u32,
    pub divisor: u64,
}

impl FieldSpec {
    /// The scale of a field of this kind and width.
    pub fn new(kind: CamType, bits: u32) -> (res: Self)
        ensures
            res.kind == spec_abi_code(kind),
            res.divisor == spec_scale_divisor(kind, bits),
    {
        FieldSpec { kind: kind.abi_code(), divisor: scale_divisor(kind, bits) }
    }
}

/// One camera, bound to one avatar: the field table in ABI order, the scale
/// and the map targets of each field in the same order.
#[derive(Debug, Clone)]
pub struct CameraSession {
    /// The id that the avatar reports over OSC.
    pub id: String,
    /// The schema version that this session uses.
    pub version: u32,
    /// The field table in ABI order.
    pub fields: Vec<DrdField>,
    /// The scale of each field.
    pub specs: Vec<FieldSpec>,
    /// The map targets of each field; an empty route drops the field.
    pub routes: Vec<Vec<AddrInfo>>,
    pub total_bits: u32,
    /// The `f32` bits of the lowest confidence that a frame must reach.
    pub min_confidence_bits: u32,
    /// The name of the Spout sender as UTF-16; `None` selects the active
    /// sender.
    pub sender_name: Option<Vec<u16>>,
    /// True when the library must call back only on a bit change.
    pub only_on_change: bool,
    /// The count of fields with at least one target.
    pub mapped_fields: u32,
}

/// The count of the first `n` routes with at least one target.
pub open spec fn mapped_count(routes: Seq<Vec<AddrInfo>>, n: int) -> int
    decreases n,
{
    if n <= 0 {
        0
    } else {
        mapped_count(routes, n - 1) + (if routes[n - 1]@.len() > 0 { 1int } else { 0int })
    }
}

proof fn lemma_mapped_count_bound(routes: Seq<Vec<AddrInfo>>, n: int)
    requires
        0 <= n <= routes.len(),
    ensures
        0 <= mapped_count(routes, n) <= n,
    decreases n,
{
    if n > 0 {
        lemma_mapped_count_bound(routes, n - 1);
    }
}

/// The count depends on the first `n` routes alone.
proof fn lemma_mapped_count_prefix(a: Seq<Vec<AddrInfo>>, b: Seq<Vec<AddrInfo>>, n: int)
    requires
        0 <= n <= a.len(),
        n <= b.len(),
        forall|k: int| 0 <= k < n ==> a[k] == b[k],
    ensures
        mapped_count(a, n) == mapped_count(b, n),
    decreases n,
{
    if n > 0 {
        lemma_mapped_count_prefix(a, b, n - 1);
    }
}

/// No route is counted exactly when every route is empty.
pub proof fn lemma_mapped_count_zero(routes: Seq<Vec<AddrInfo>>, n: int)
    requires
        0 <= n <= routes.len(),
    ensures
        mapped_count(routes, n) == 0 <==> forall|k: int| 0 <= k < n ==> #[trigger] routes[k]@.len() == 0,
    decreases n,
{
    if n > 0 {
        lemma_mapped_count_zero(routes, n - 1);
        lemma_mapped_count_bound(routes, n - 1);
    }
}

/// The `f32` with bits `b` clamped to 0..1, as bits: a NaN and -0.0 stay as
/// they are, any other negative number gives 0.0 and any number above 1.0,
/// infinity included, gives 1.0.
pub open spec fn spec_clamp_unit_bits(b: u32) -> u32 {
    if b & 0x7fff_ffff > 0x7f80_0000 {
        b
    } else if b == 0x8000_0000 {
        b
    } else if b > 0x8000_0000 {
        0
    } else if b > 0x3f80_0000 {
        0x3f80_0000
    } else {
        b
    }
}

/// Clamps the `f32` with bits `b` to the unit range.
pub fn clamp_unit_bits(b: u32) -> (res: u32)
    ensures
        res == spec_clamp_unit_bits(b),
{
    if b & 0x7fff_ffff > 0x7f80_0000 {
        b
    } else if b == 0x8000_0000 {
        b
    } else if b > 0x8000_0000 {
        0
    } else if b > 0x3f80_0000 {
        0x3f80_0000
    } else {
        b
    }
}

/// A session agrees with itself: one scale and one route per field, and
/// the count of mapped fields is that of the routes and not 0.
pub open spec fn session_wf(s: CameraSession) -> bool {
    &&& s.specs@.len() == s.fields@.len()
    &&& s.routes@.len() == s.fields@.len()
    &&& s.mapped_fields == mapped_count(s.routes@, s.routes@.len() as int)
    &&& s.mapped_fields > 0
}

/// The UTF-16 code units of a character: one below `0x10000`, else a high
/// and a low surrogate.
pub open spec fn char_utf16(c: char) -> Seq<u16> {
    let v = c as int;
    if v < 0x10000 {
        seq![v as u16]
    } else {
        seq![(0xD800 + (v - 0x10000) / 0x400) as u16, (0xDC00 + (v - 0x10000) % 0x400) as u16]
    }
}

/// The UTF-16 code units of a text, character after character.
pub open spec fn utf16_units(s: Seq<char>) -> Seq<u16>
    decreases s.len(),
{
    if s.len() == 0 {
        Seq::empty()
    } else {
        utf16_units(s.drop_last()) + char_utf16(s.last())
    }
}

/// The UTF-16 form of a text, as `str::encode_utf16` gives it.
pub fn encode_utf16(text: &str) -> (res: Vec<u16>)
    ensures
        res@ == utf16_units(text@),
{
    let mut out: Vec<u16> = Vec::new();
    let n = text.unicode_len();
    let mut i: usize = 0;
    while i < n
        invariant
            n == text@.len(),
            i <= n,
            out@ == utf16_units(text@.subrange(0, i as int)),
        decreases n - i,
    {
        let c = text.get_char(i);
        let v = c as u32;
        assert(text@.subrange(0, i + 1).drop_last() =~= text@.subrange(0, i as int));
        assert(text@.subrange(0, i + 1).last() == c);
        if v < 0x10000 {
            out.push(v as u16);
        } else {
            let w = v - 0x10000;
            out.push((0xD800 + w / 0x400) as u16);
            out.push((0xDC00 + w % 0x400) as u16);
        }
        assert(out@ =~= utf16_units(text@.subrange(0, i + 1)));
        i += 1;
    }
    assert(text@.subrange(0, n as int) =~= text@);
    out
}

/// What `build` gives on a valid schema for the given routes.
pub open spec fn built_session(
    s: CameraSession,
    schema: CamConfig,
    min_confidence_bits: u32,
    only_on_change: bool,
    sender_name: Option<&str>,
) -> bool {
    &&& session_wf(s)
    &&& s.id@ == schema.id@
    &&& s.version == schema.version
    &&& s.fields@.len() == schema.fields@.len()
    &&& forall|i: int|
        0 <= i < s.fields@.len() ==> #[trigger] s.fields@[i] == (DrdField {
            bits: schema.fields@[i].bits,
            kind: spec_abi_code(schema.fields@[i].kind),
        })
    &&& forall|i: int|
        0 <= i < s.specs@.len() ==> #[trigger] s.specs@[i] == (FieldSpec {
            kind: spec_abi_code(schema.fields@[i].kind),
            divisor: spec_scale_divisor(schema.fields@[i].kind, schema.fields@[i].bits) as u64,
        })
    &&& s.total_bits == spec_bit_total(schema)
    &&& s.min_confidence_bits == spec_clamp_unit_bits(min_confidence_bits)
    &&& match sender_name {
        Some(n) => s.sender_name is Some && s.sender_name->0@ == utf16_units(n@),
        None => s.sender_name is None,
    }
    &&& s.only_on_change == only_on_change
}

/// `routes` holds, for each field in order, an answer of `lookup` to the
/// field's OSC name.
pub open spec fn looked_up<F: Fn(&String) -> Vec<AddrInfo>>(
    lookup: F,
    fields: Seq<CamField>,
    routes: Seq<Vec<AddrInfo>>,
) -> bool {
    &&& routes.len() == fields.len()
    &&& forall|i: int| 0 <= i < routes.len() ==> call_ensures(lookup, (&fields[i].osc,), #[trigger] routes[i])
}

/// Every answer of `lookup` to `name` holds a target.
pub open spec fn always_routed<F: Fn(&String) -> Vec<AddrInfo>>(lookup: F, name: String) -> bool {
    forall|r: Vec<AddrInfo>| #[trigger] call_ensures(lookup, (&name,), r) ==> r@.len() > 0
}

impl CameraSession {
    /// Builds a session from a schema and a route lookup. The lookup receives
    /// the OSC name of each field, once per field in field order, and returns
    /// the map targets of that name; an empty return drops the field.
    ///
    /// A schema that breaks a rule gives the error of `validate` and the
    /// lookup is not called; a schema whose fields all get an empty route
    /// gives `NoRoutes`.
    pub fn build<F: Fn(&String) -> Vec<AddrInfo>>(
        schema: &CamConfig,
        min_confidence_bits: u32,
        only_on_change: bool,
        sender_name: Option<&str>,
        lookup: F,
    ) -> (res: Result<CameraSession, SessionError>)
        requires
            widths_fit(*schema),
            forall|name: &String| call_requires(lookup, (name,)),
        ensures
            (res matches Err(SessionError::Schema(_))) <==> !schema_valid(*schema),
            res matches Err(SessionError::Schema(e)) ==> validate_outcome(*schema, Err(e)),
            res matches Err(SessionError::NoRoutes) ==> exists|routes: Seq<Vec<AddrInfo>>|
                #[trigger] looked_up(lookup, schema.fields@, routes) && forall|i: int|
                    0 <= i < routes.len() ==> #[trigger] routes[i]@.len() == 0,
            schema_valid(*schema) && (exists|i: int|
                0 <= i < schema.fields@.len() && #[trigger] always_routed(lookup, schema.fields@[i].osc)) ==> res is Ok,
            res matches Ok(s) ==> {
                &&& schema_valid(*schema)
                &&& built_session(s, *schema, min_confidence_bits, only_on_change, sender_name)
                &&& looked_up(lookup, schema.fields@, s.routes@)
            },
    {
        match schema.validate() {
            Ok(()) => {},
            Err(e) => return Err(SessionError::Schema(e)),
        }
        proof {
            lemma_valid_widths(*schema);
        }
        let count = schema.fields.len();
        let mut fields: Vec<DrdField> = Vec::with_capacity(count);
        let mut specs: Vec<FieldSpec> = Vec::with_capacity(count);
        let mut routes: Vec<Vec<AddrInfo>> = Vec::with_capacity(count);
        let mut mapped: u32 = 0;
        let mut i: usize = 0;
        while i < count
            invariant
                i <= count,
                count == schema.fields@.len(),
                count <= u32::MAX,
                forall|name: &String| call_requires(lookup, (name,)),
                fields@.len() == i,
                specs@.len() == i,
                routes@.len() == i,
                forall|k: int|
                    0 <= k < i ==> #[trigger] fields@[k] == (DrdField {
                        bits: schema.fields@[k].bits,
                        kind: spec_abi_code(schema.fields@[k].kind),
                    }),
                forall|k: int|
                    0 <= k < i ==> #[trigger] specs@[k] == (FieldSpec {
                        kind: spec_abi_code(schema.fields@[k].kind),
                        divisor: spec_scale_divisor(schema.fields@[k].kind, schema.fields@[k].bits) as u64,
                    }),
                forall|k: int|
                    0 <= k < i ==> call_ensures(lookup, (&schema.fields@[k].osc,), #[trigger] routes@[k]),
                mapped == mapped_count(routes@, i as int),
            decreases count - i,
        {
            proof {
                lemma_mapped_count_bound(routes@, i as int);
            }
            let field = &schema.fields[i];
            fields.push(DrdField { bits: field.bits, kind: field.kind.abi_code() });
            specs.push(FieldSpec::new(field.kind, field.bits));
            let route = lookup(&field.osc);
            if route.len() > 0 {
                mapped = mapped + 1;
            }
            let ghost before = routes@;
            routes.push(route);
            proof {
                lemma_mapped_count_prefix(before, routes@, i as int);
            }
            i += 1;
        }
        proof {
            lemma_mapped_count_zero(routes@, count as int);
        }
        if mapped == 0 {
            proof {
                assert forall|k: int| 0 <= k < count implies routes@[k]@.len() == 0 by {}
                assert forall|j: int|
                    0 <= j < schema.fields@.len() && #[trigger] always_routed(lookup, schema.fields@[j].osc) implies false by {
                    assert(call_ensures(lookup, (&schema.fields@[j].osc,), routes@[j]));
                }
            }
            assert(looked_up(lookup, schema.fields@, routes@));
            return Err(SessionError::NoRoutes);
        }
        proof {
            lemma_valid_widths(*schema);
        }
        let name = match sender_name {
            Some(n) => Some(encode_utf16(n)),
            None => None,
        };
        Ok(
            CameraSession {
                id: schema.id.clone(),
                version: schema.version,
                fields,
                specs,
                routes,
                total_bits: schema.bit_total(),
                min_confidence_bits: clamp_unit_bits(min_confidence_bits),
                sender_name: name,
                only_on_change,
                mapped_fields: mapped,
            },
        )
    }

    /// The count of fields in the schema.
    pub fn field_count(&self) -> (res: u32)
        ensures
            res == self.fields@.len() as u32,
    {
        self.fields.len() as u32
    }
}

/// One update of the input map from one decoded field.
#[derive(Debug, Clone, Copy, PartialEq, Eq)]
pub enum RouteUpdate {
    Slot { key: SlotKey, kind: SlotFieldKind, value: DecodedValue },
    Node { key: NodeKey, kind: NodeFieldKind, value: DecodedValue },
}

/// The updates that the first `n` targets of a field give: one per target,
/// in order, but none for a node location, which a camera cannot drive.
pub open spec fn field_updates(value: DecodedValue, targets: Seq<AddrInfo>, n: int) -> Seq<RouteUpdate>
    decreases n,
{
    if n <= 0 {
        Seq::empty()
    } else {
        let rest = field_updates(value, targets, n - 1);
        match targets[n - 1] {
            AddrInfo::Slot(key, kind) => rest.push(RouteUpdate::Slot { key, kind, value }),
            AddrInfo::Node(key, kind) => if kind == NodeFieldKind::Location {
                rest
            } else {
                rest.push(RouteUpdate::Node { key, kind, value })
            },
        }
    }
}

/// The updates of the first `n` fields, field after field.
pub open spec fn routed_prefix(values: Seq<DecodedValue>, routes: Seq<Vec<AddrInfo>>, n: int) -> Seq<RouteUpdate>
    decreases n,
{
    if n <= 0 {
        Seq::empty()
    } else {
        routed_prefix(values, routes, n - 1) + field_updates(values[n - 1], routes[n - 1]@, routes[n - 1]@.len() as int)
    }
}

/// The updates of one decoded frame: the fields that have both a value and
/// a route, in order.
pub open spec fn spec_route_frame(values: Seq<DecodedValue>, routes: Seq<Vec<AddrInfo>>) -> Seq<RouteUpdate> {
    routed_prefix(values, routes, if values.len() < routes.len() { values.len() as int } else { routes.len() as int })
}

/// Turns the decoded values of one frame into map updates: each field in
/// order, each of its targets in order; a node location target is skipped.
pub fn route_frame(values: &[DecodedValue], routes: &[Vec<AddrInfo>]) -> (res: Vec<RouteUpdate>)
    ensures
        res@ == spec_route_frame(values@, routes@),
{
    let n = if values.len() < routes.len() { values.len() } else { routes.len() };
    let mut out: Vec<RouteUpdate> = Vec::new();
    let mut i: usize = 0;
    while i < n
        invariant
            i <= n,
            n <= values@.len(),
            n <= routes@.len(),
            out@ == routed_prefix(values@, routes@, i as int),
        decreases n - i,
    {
        let value = values[i];
        let targets = &routes[i];
        let ghost start = out@;
        let mut j: usize = 0;
        while j < targets.len()
            invariant
                j <= targets@.len(),
                out@ == start + field_updates(value, targets@, j as int),
            decreases targets@.len() - j,
        {
            match targets[j] {
                AddrInfo::Slot(key, kind) => {
                    out.push(RouteUpdate::Slot { key, kind, value });
                },
                AddrInfo::Node(key, kind) => {
                    match kind {
                        NodeFieldKind::Location => {},
                        _ => {
                            out.push(RouteUpdate::Node { key, kind, value });
                        },
                    }
                },
            }
            j += 1;
        }
        i += 1;
    }
    out
}

/// The divisor that maps a decoded integer field into the unit range: the
/// largest value of an unsigned field, the largest positive value of a signed
/// field wider than one bit, and 1 otherwise. The width is clamped to 1..32.
pub open spec fn spec_scale_divisor(kind: CamType, bits: u32) -> int {
    let b: int = if bits < 1 { 1 } else if bits > 32 { 32 } else { bits as int };
    match kind {
        CamType::Uint => vstd::arithmetic::power2::pow2(b as nat) - 1,
        CamType::Int => if b == 1 { 1 } else { vstd::arithmetic::power2::pow2((b - 1) as nat) - 1 },
        _ => 1,
    }
}

/// The divisor of a field's scale: a float or bool field passes through, an
/// 8 bit unsigned field maps 0..255 onto 0..1, an 8 bit signed field maps
/// -128..127 onto about -1..1.
pub fn scale_divisor(kind: CamType, bits: u32) -> (res: u64)
    ensures
        res == spec_scale_divisor(kind, bits),
{
    let b: u64 = if bits < 1 { 1 } else if bits > 32 { 32 } else { bits as u64 };
    proof {
        vstd::bits::lemma_u64_pow2_no_overflow(b as nat);
        vstd::bits::lemma_u64_shl_is_mul(1, b);
        vstd::bits::lemma_u64_pow2_no_overflow((b - 1) as nat);
        vstd::bits::lemma_u64_shl_is_mul(1, (b - 1) as u64);
        vstd::arithmetic::power2::lemma_pow2_pos((b - 1) as nat);
    }
    match kind {
        CamType::Uint => (1u64 << b) - 1,
        CamType::Int => {
            if b == 1 {
                1
            } else {
                (1u64 << (b - 1)) - 1
            }
        },
        _ => 1,
    }
}

} // verus!
