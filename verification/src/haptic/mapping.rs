//! Body regions of haptic nodes, their bit flags, and node ids.
use vstd::prelude::*;
use vstd::string::*;

verus! {

/// A point in model space, each coordinate held as the bits of an `f32`.
#[derive(Clone, Copy, Debug, PartialEq, Eq, Structural)]
pub struct Vec3Bits {
    pub x: u32,
    pub y: u32,
    pub z: u32,
}

/// The bits of the `f32` sign.
pub const SIGN_BIT: u32 = 0x8000_0000;

/// The point mirrored across the x = 0 plane: the sign of x flips.
pub open spec fn spec_mirror_x(p: Vec3Bits) -> Vec3Bits {
    Vec3Bits { x: p.x ^ SIGN_BIT, y: p.y, z: p.z }
}

/// Mirrors both points of an axis across the x = 0 plane.
pub fn mirror_x(p: (Vec3Bits, Vec3Bits)) -> (res: (Vec3Bits, Vec3Bits))
    ensures
        res == (spec_mirror_x(p.0), spec_mirror_x(p.1)),
{
    let (a, b) = p;
    (Vec3Bits { x: a.x ^ SIGN_BIT, y: a.y, z: a.z }, Vec3Bits { x: b.x ^ SIGN_BIT, y: b.y, z: b.z })
}

/// Descriptors for location groups. Allows for segmented interpolation.
#[derive(Clone, Copy, Debug, PartialEq, Eq, Structural)]
pub enum NodeGroup {
    Head,
    UpperArmRight,
    UpperArmLeft,
    LowerArmRight,
    LowerArmLeft,
    TorsoRight,
    TorsoLeft,
    TorsoFront,
    TorsoBack,
    UpperLegRight,
    UpperLegLeft,
    LowerLegRight,
    LowerLegLeft,
    FootRight,
    FootLeft,
    /// A meta tag reserved for in-server use only. Should not be exported to
    /// devices or imported from games.
    All,
}

/// The flag bit of a group; `All` has none.
pub open spec fn group_index(g: NodeGroup) -> int {
    match g {
        NodeGroup::Head => 0,
        NodeGroup::UpperArmRight => 1,
        NodeGroup::UpperArmLeft => 2,
        NodeGroup::TorsoRight => 3,
        NodeGroup::TorsoLeft => 4,
        NodeGroup::TorsoFront => 5,
        NodeGroup::TorsoBack => 6,
        NodeGroup::UpperLegRight => 7,
        NodeGroup::UpperLegLeft => 8,
        NodeGroup::FootRight => 9,
        NodeGroup::FootLeft => 10,
        NodeGroup::LowerArmRight => 11,
        NodeGroup::LowerArmLeft => 12,
        NodeGroup::LowerLegRight => 13,
        NodeGroup::LowerLegLeft => 14,
        NodeGroup::All => -1,
    }
}

/// The group whose flag bit is `i`, for `i` in `0..15`.
pub open spec fn group_at(i: int) -> NodeGroup {
    if i == 0 {
        NodeGroup::Head
    } else if i == 1 {
        NodeGroup::UpperArmRight
    } else if i == 2 {
        NodeGroup::UpperArmLeft
    } else if i == 3 {
        NodeGroup::TorsoRight
    } else if i == 4 {
        NodeGroup::TorsoLeft
    } else if i == 5 {
        NodeGroup::TorsoFront
    } else if i == 6 {
        NodeGroup::TorsoBack
    } else if i == 7 {
        NodeGroup::UpperLegRight
    } else if i == 8 {
        NodeGroup::UpperLegLeft
    } else if i == 9 {
        NodeGroup::FootRight
    } else if i == 10 {
        NodeGroup::FootLeft
    } else if i == 11 {
        NodeGroup::LowerArmRight
    } else if i == 12 {
        NodeGroup::LowerArmLeft
    } else if i == 13 {
        NodeGroup::LowerLegRight
    } else {
        NodeGroup::LowerLegLeft
    }
}

/// The flag of one group: bit `group_index(g)`, or 0 for `All`.
pub open spec fn group_bit(g: NodeGroup) -> u16 {
    if group_index(g) < 0 {
        0
    } else {
        1u16 << (group_index(g) as u16)
    }
}

/// Bit `i` of a flag is set.
pub open spec fn bit_set(flag: u16, i: int) -> bool {
    (flag >> (i as u16)) & 1 == 1
}

/// The flag of a list of groups: the union of their bits.
pub open spec fn spec_to_bitflag(gs: Seq<NodeGroup>) -> u16
    decreases gs.len(),
{
    if gs.len() == 0 {
        0
    } else {
        spec_to_bitflag(gs.drop_last()) | group_bit(gs.last())
    }
}

/// The groups of the set bits below `n`, in bit order.
pub open spec fn groups_below(flag: u16, n: int) -> Seq<NodeGroup>
    decreases n,
{
    if n <= 0 {
        Seq::empty()
    } else if bit_set(flag, n - 1) {
        groups_below(flag, n - 1).push(group_at(n - 1))
    } else {
        groups_below(flag, n - 1)
    }
}

/// The groups of a flag, in bit order. Bit 15 names no group.
pub open spec fn spec_from_bitflag(flag: u16) -> Seq<NodeGroup> {
    groups_below(flag, 15)
}

proof fn lemma_set_bit16(a: u16, j: u16, i: u16)
    by (bit_vector)
    requires
        j < 16,
        i < 16,
    ensures
        ((a | (1u16 << j)) >> i) & 1 == 1 <==> ((a >> i) & 1 == 1 || i == j),
        ((a | 0u16) >> i) & 1 == 1 <==> (a >> i) & 1 == 1,
        ((0u16 >> i) & 1) == 0,
        (a & (1u16 << i) != 0) == ((a >> i) & 1 == 1),
{
}

proof fn lemma_index_roundtrip(g: NodeGroup, i: int)
    ensures
        g != NodeGroup::All ==> 0 <= group_index(g) < 15 && group_at(group_index(g)) == g,
        0 <= i < 15 ==> group_index(group_at(i)) == i && group_at(i) != NodeGroup::All,
        g == NodeGroup::All <==> group_index(g) < 0,
{
}

/// Bit `i` of the flag of a list is set exactly when a group of the list owns
/// bit `i`.
proof fn lemma_to_bitflag_bits(gs: Seq<NodeGroup>, i: int)
    requires
        0 <= i < 16,
    ensures
        bit_set(spec_to_bitflag(gs), i) <==> exists|k: int| 0 <= k < gs.len() && #[trigger] group_index(gs[k]) == i,
    decreases gs.len(),
{
    if gs.len() == 0 {
        lemma_set_bit16(0, 0, i as u16);
    } else {
        let init = gs.drop_last();
        let g = gs.last();
        lemma_to_bitflag_bits(init, i);
        if group_index(g) < 0 {
            lemma_set_bit16(spec_to_bitflag(init), 0, i as u16);
        } else {
            lemma_set_bit16(spec_to_bitflag(init), group_index(g) as u16, i as u16);
        }
        if exists|k: int| 0 <= k < gs.len() && #[trigger] group_index(gs[k]) == i {
            let k = choose|k: int| 0 <= k < gs.len() && #[trigger] group_index(gs[k]) == i;
            if k < gs.len() - 1 {
                assert(group_index(init[k]) == i);
            }
        }
        if exists|k: int| 0 <= k < init.len() && #[trigger] group_index(init[k]) == i {
            let k = choose|k: int| 0 <= k < init.len() && #[trigger] group_index(init[k]) == i;
            assert(group_index(gs[k]) == i);
        }
        if group_index(g) == i {
            assert(group_index(gs[gs.len() - 1]) == i);
        }
    }
}

proof fn lemma_groups_below_contains(flag: u16, n: int, g: NodeGroup)
    requires
        0 <= n <= 15,
    ensures
        groups_below(flag, n).contains(g) <==> (g != NodeGroup::All && group_index(g) < n && bit_set(
            flag,
            group_index(g),
        )),
        forall|a: int, b: int|
            0 <= a < b < groups_below(flag, n).len() ==> group_index(#[trigger] groups_below(flag, n)[a])
                < group_index(#[trigger] groups_below(flag, n)[b]),
        forall|a: int|
            0 <= a < groups_below(flag, n).len() ==> 0 <= group_index(#[trigger] groups_below(flag, n)[a]) < n,
    decreases n,
{
    lemma_index_roundtrip(g, n - 1);
    if n > 0 {
        lemma_groups_below_contains(flag, n - 1, g);
        let prev = groups_below(flag, n - 1);
        lemma_index_roundtrip(group_at(n - 1), n - 1);
        if bit_set(flag, n - 1) {
            assert(groups_below(flag, n) == prev.push(group_at(n - 1)));
            if g == group_at(n - 1) {
                assert(groups_below(flag, n)[prev.len() as int] == g);
            }
            if prev.contains(g) {
                let k = choose|k: int| 0 <= k < prev.len() && prev[k] == g;
                assert(groups_below(flag, n)[k] == g);
            }
        }
    }
}

/// Reading the flag of a list gives back each region of the list once, in
/// bit order; `All` has no bit and drops out.
pub proof fn lemma_bitflag_roundtrip_groups(gs: Seq<NodeGroup>, g: NodeGroup)
    ensures
        spec_from_bitflag(spec_to_bitflag(gs)).contains(g) <==> (g != NodeGroup::All && gs.contains(g)),
        forall|a: int, b: int|
            0 <= a < b < spec_from_bitflag(spec_to_bitflag(gs)).len() ==> group_index(
                #[trigger] spec_from_bitflag(spec_to_bitflag(gs))[a],
            ) < group_index(#[trigger] spec_from_bitflag(spec_to_bitflag(gs))[b]),
{
    let flag = spec_to_bitflag(gs);
    lemma_groups_below_contains(flag, 15, g);
    lemma_index_roundtrip(g, 0);
    if g != NodeGroup::All {
        lemma_to_bitflag_bits(gs, group_index(g));
        if gs.contains(g) {
            let k = choose|k: int| 0 <= k < gs.len() && gs[k] == g;
            assert(group_index(gs[k]) == group_index(g));
        }
        if exists|k: int| 0 <= k < gs.len() && #[trigger] group_index(gs[k]) == group_index(g) {
            let k = choose|k: int| 0 <= k < gs.len() && #[trigger] group_index(gs[k]) == group_index(g);
            lemma_index_roundtrip(gs[k], 0);
            assert(gs[k] == g);
        }
    }
}

proof fn lemma_flag_prefix(flag: u16, n: u16)
    by (bit_vector)
    requires
        n < 15,
    ensures
        ((flag & (((1u16 << n) - 1) as u16)) | (if (flag >> n) & 1 == 1 { 1u16 << n } else { 0u16 })) == flag & ((
            (1u16 << ((n + 1) as u16)) - 1) as u16),
        (1u16 << n) >= 1,
{
}

proof fn lemma_to_bitflag_push(gs: Seq<NodeGroup>, g: NodeGroup)
    ensures
        spec_to_bitflag(gs.push(g)) == spec_to_bitflag(gs) | group_bit(g),
{
    assert(gs.push(g).drop_last() =~= gs);
}

proof fn lemma_flag_of_groups_below(flag: u16, n: int)
    requires
        0 <= n <= 15,
    ensures
        spec_to_bitflag(groups_below(flag, n)) == flag & (((1u16 << (n as u16)) - 1) as u16),
    decreases n,
{
    if n == 0 {
        assert(flag & (((1u16 << 0u16) - 1) as u16) == 0) by (bit_vector);
    } else {
        lemma_flag_of_groups_below(flag, n - 1);
        lemma_flag_prefix(flag, (n - 1) as u16);
        lemma_index_roundtrip(group_at(n - 1), n - 1);
        if bit_set(flag, n - 1) {
            lemma_to_bitflag_push(groups_below(flag, n - 1), group_at(n - 1));
        } else {
            let prev = spec_to_bitflag(groups_below(flag, n - 1));
            assert(prev | 0u16 == prev) by (bit_vector);
        }
    }
}

/// The flag of the groups of a flag is the flag without bit 15, which names
/// no group.
pub proof fn lemma_bitflag_roundtrip_flag(flag: u16)
    ensures
        spec_to_bitflag(spec_from_bitflag(flag)) == flag & 0x7fff,
{
    lemma_flag_of_groups_below(flag, 15);
    assert(((1u16 << 15u16) - 1) as u16 == 0x7fff) by (bit_vector);
}

/// The bit of a group, as the flag layout gives it.
pub fn group_flag(group: NodeGroup) -> (res: u16)
    ensures
        res == group_bit(group),
{
    match group {
        NodeGroup::Head => 1 << 0u16,
        NodeGroup::UpperArmRight => 1 << 1u16,
        NodeGroup::UpperArmLeft => 1 << 2u16,
        NodeGroup::TorsoRight => 1 << 3u16,
        NodeGroup::TorsoLeft => 1 << 4u16,
        NodeGroup::TorsoFront => 1 << 5u16,
        NodeGroup::TorsoBack => 1 << 6u16,
        NodeGroup::UpperLegRight => 1 << 7u16,
        NodeGroup::UpperLegLeft => 1 << 8u16,
        NodeGroup::FootRight => 1 << 9u16,
        NodeGroup::FootLeft => 1 << 10u16,
        NodeGroup::LowerArmRight => 1 << 11u16,
        NodeGroup::LowerArmLeft => 1 << 12u16,
        NodeGroup::LowerLegRight => 1 << 13u16,
        NodeGroup::LowerLegLeft => 1 << 14u16,
        NodeGroup::All => 0,
    }
}

/// The group of flag bit `i`.
fn group_of_bit(i: u16) -> (res: NodeGroup)
    requires
        i < 15,
    ensures
        res == group_at(i as int),
{
    match i {
        0 => NodeGroup::Head,
        1 => NodeGroup::UpperArmRight,
        2 => NodeGroup::UpperArmLeft,
        3 => NodeGroup::TorsoRight,
        4 => NodeGroup::TorsoLeft,
        5 => NodeGroup::TorsoFront,
        6 => NodeGroup::TorsoBack,
        7 => NodeGroup::UpperLegRight,
        8 => NodeGroup::UpperLegLeft,
        9 => NodeGroup::FootRight,
        10 => NodeGroup::FootLeft,
        11 => NodeGroup::LowerArmRight,
        12 => NodeGroup::LowerArmLeft,
        13 => NodeGroup::LowerLegRight,
        _ => NodeGroup::LowerLegLeft,
    }
}

impl NodeGroup {
    /// The axis of a group that is not on the left side.
    fn base_points(&self) -> (res: (Vec3Bits, Vec3Bits))
        ensures
            res == spec_base_points(*self),
    {
        match self {
            NodeGroup::TorsoRight | NodeGroup::TorsoLeft | NodeGroup::TorsoFront | NodeGroup::TorsoBack => (
                Vec3Bits { x: 0x0, y: 0x3f3c28f6, z: 0xbc03126f },
                Vec3Bits { x: 0x0, y: 0x3fb78d50, z: 0xbc54fdf4 },
            ),
            NodeGroup::Head => (
                Vec3Bits { x: 0x0, y: 0x3fda7efa, z: 0x3d591687 },
                Vec3Bits { x: 0x0, y: 0x3fb78d50, z: 0xbc54fdf4 },
            ),
            NodeGroup::UpperArmRight => (
                Vec3Bits { x: 0x3e3126e9, y: 0x3fad9168, z: 0xbcd4fdf4 },
                Vec3Bits { x: 0x3eac2268, y: 0x3f936113, z: 0xbc7765fe },
            ),
            NodeGroup::LowerArmRight => (
                Vec3Bits { x: 0x3eac2268, y: 0x3f928588, z: 0xbcc8b439 },
                Vec3Bits { x: 0x3ef27bb3, y: 0x3f71e4f7, z: 0x3d401a37 },
            ),
            NodeGroup::UpperLegRight => (
                Vec3Bits { x: 0x3d8d4fdf, y: 0x3f6c0831, z: 0x3a83126f },
                Vec3Bits { x: 0x3e09374c, y: 0x3ef53f7d, z: 0xbce56042 },
            ),
            NodeGroup::LowerLegRight => (
                Vec3Bits { x: 0x3e09374c, y: 0x3ef53f7d, z: 0xbce56042 },
                Vec3Bits { x: 0x3e322d0e, y: 0x3db43958, z: 0xbd958106 },
            ),
            NodeGroup::FootRight => (
                Vec3Bits { x: 0x3e322d0e, y: 0x3db43958, z: 0xbd958106 },
                Vec3Bits { x: 0x3e67bb30, y: 0x3ca3d70a, z: 0x3d03126f },
            ),
            _ => (Vec3Bits { x: 0, y: 0, z: 0 }, Vec3Bits { x: 0, y: 0, z: 0 }),
        }
    }

    /// Maps a group into two points defining an axis that runs through the
    /// center of the model. Left groups mirror their right groups.
    pub fn to_points(&self) -> (res: (Vec3Bits, Vec3Bits))
        ensures
            res == spec_points(*self),
    {
        match self {
            NodeGroup::UpperArmLeft => mirror_x(NodeGroup::UpperArmRight.base_points()),
            NodeGroup::LowerArmLeft => mirror_x(NodeGroup::LowerArmRight.base_points()),
            NodeGroup::UpperLegLeft => mirror_x(NodeGroup::UpperLegRight.base_points()),
            NodeGroup::LowerLegLeft => mirror_x(NodeGroup::LowerLegRight.base_points()),
            NodeGroup::FootLeft => mirror_x(NodeGroup::FootRight.base_points()),
            _ => self.base_points(),
        }
    }

    /// Interprets the first two bytes of a string as a little-endian `u16`
    /// bit flag. Fewer than two bytes give no groups.
    pub fn parse_from_str(s: &str) -> (res: Vec<NodeGroup>)
        ensures
            s.spec_bytes().len() < 2 ==> res@ == Seq::<NodeGroup>::empty(),
            s.spec_bytes().len() >= 2 ==> res@ == spec_from_bitflag(
                (s.spec_bytes()[0] + 256 * s.spec_bytes()[1]) as u16,
            ),
    {
        let bytes = s.as_bytes();
        if bytes.len() < 2 {
            return Vec::new();
        }
        let flag = bytes[0] as u16 + (bytes[1] as u16) * 256;
        Self::from_bitflag(flag)
    }

    /// Converts a slice of groups into a bit flag.
    pub fn to_bitflag(groups: &[NodeGroup]) -> (res: u16)
        ensures
            res == spec_to_bitflag(groups@),
    {
        let mut flag: u16 = 0;
        let mut i: usize = 0;
        while i < groups.len()
            invariant
                i <= groups@.len(),
                flag == spec_to_bitflag(groups@.subrange(0, i as int)),
            decreases groups@.len() - i,
        {
            assert(groups@.subrange(0, i + 1).drop_last() =~= groups@.subrange(0, i as int));
            flag = flag | group_flag(groups[i]);
            i += 1;
        }
        assert(groups@.subrange(0, i as int) =~= groups@);
        flag
    }

    /// Converts a bit flag back into the groups it holds, in bit order.
    pub fn from_bitflag(flag: u16) -> (res: Vec<NodeGroup>)
        ensures
            res@ == spec_from_bitflag(flag),
    {
        let mut groups: Vec<NodeGroup> = Vec::new();
        let mut i: u16 = 0;
        while i < 15
            invariant
                i <= 15,
                groups@ == groups_below(flag, i as int),
            decreases 15 - i,
        {
            proof {
                lemma_set_bit16(flag, 0, i);
            }
            if flag & (1u16 << i) != 0 {
                groups.push(group_of_bit(i));
            }
            i += 1;
        }
        groups
    }
}

/// The axis points of a group that is not on the left side, `f32` bits.
pub open spec fn spec_base_points(g: NodeGroup) -> (Vec3Bits, Vec3Bits) {
    match g {
        NodeGroup::TorsoRight | NodeGroup::TorsoLeft | NodeGroup::TorsoFront | NodeGroup::TorsoBack => (
            Vec3Bits { x: 0x0, y: 0x3f3c28f6, z: 0xbc03126f },
            Vec3Bits { x: 0x0, y: 0x3fb78d50, z: 0xbc54fdf4 },
        ),
        NodeGroup::Head => (
            Vec3Bits { x: 0x0, y: 0x3fda7efa, z: 0x3d591687 },
            Vec3Bits { x: 0x0, y: 0x3fb78d50, z: 0xbc54fdf4 },
        ),
        NodeGroup::UpperArmRight => (
            Vec3Bits { x: 0x3e3126e9, y: 0x3fad9168, z: 0xbcd4fdf4 },
            Vec3Bits { x: 0x3eac2268, y: 0x3f936113, z: 0xbc7765fe },
        ),
        NodeGroup::LowerArmRight => (
            Vec3Bits { x: 0x3eac2268, y: 0x3f928588, z: 0xbcc8b439 },
            Vec3Bits { x: 0x3ef27bb3, y: 0x3f71e4f7, z: 0x3d401a37 },
        ),
        NodeGroup::UpperLegRight => (
            Vec3Bits { x: 0x3d8d4fdf, y: 0x3f6c0831, z: 0x3a83126f },
            Vec3Bits { x: 0x3e09374c, y: 0x3ef53f7d, z: 0xbce56042 },
        ),
        NodeGroup::LowerLegRight => (
            Vec3Bits { x: 0x3e09374c, y: 0x3ef53f7d, z: 0xbce56042 },
            Vec3Bits { x: 0x3e322d0e, y: 0x3db43958, z: 0xbd958106 },
        ),
        NodeGroup::FootRight => (
            Vec3Bits { x: 0x3e322d0e, y: 0x3db43958, z: 0xbd958106 },
            Vec3Bits { x: 0x3e67bb30, y: 0x3ca3d70a, z: 0x3d03126f },
        ),
        _ => (Vec3Bits { x: 0, y: 0, z: 0 }, Vec3Bits { x: 0, y: 0, z: 0 }),
    }
}

/// The axis points of a group, `f32` bits: a left group mirrors its right
/// group, `All` sits at the origin.
pub open spec fn spec_points(g: NodeGroup) -> (Vec3Bits, Vec3Bits) {
    match g {
        NodeGroup::UpperArmLeft => mirror_pair(spec_base_points(NodeGroup::UpperArmRight)),
        NodeGroup::LowerArmLeft => mirror_pair(spec_base_points(NodeGroup::LowerArmRight)),
        NodeGroup::UpperLegLeft => mirror_pair(spec_base_points(NodeGroup::UpperLegRight)),
        NodeGroup::LowerLegLeft => mirror_pair(spec_base_points(NodeGroup::LowerLegRight)),
        NodeGroup::FootLeft => mirror_pair(spec_base_points(NodeGroup::FootRight)),
        _ => spec_base_points(g),
    }
}

/// The right group on the other side of a left group.
pub open spec fn right_of(g: NodeGroup) -> NodeGroup {
    match g {
        NodeGroup::UpperArmLeft => NodeGroup::UpperArmRight,
        NodeGroup::LowerArmLeft => NodeGroup::LowerArmRight,
        NodeGroup::UpperLegLeft => NodeGroup::UpperLegRight,
        NodeGroup::LowerLegLeft => NodeGroup::LowerLegRight,
        NodeGroup::FootLeft => NodeGroup::FootRight,
        _ => g,
    }
}

proof fn lemma_flip_twice(x: u32)
    by (bit_vector)
    ensures
        x ^ 0x8000_0000u32 ^ 0x8000_0000u32 == x,
{
}

/// A left group's axis is its right group's axis mirrored across x = 0, and
/// mirroring back gives the right axis; the right group lies on the right
/// of the body, both its axis points at x > 0 (a clear sign bit, non-zero).
pub proof fn lemma_left_mirrors_right(g: NodeGroup)
    ensures
        right_of(g) != g ==> spec_points(g) == mirror_pair(spec_points(right_of(g))),
        right_of(g) != g ==> mirror_pair(spec_points(g)) == spec_points(right_of(g)),
        right_of(g) != g ==> ({
            let (top, bottom) = spec_points(right_of(g));
            0 < top.x < 0x8000_0000 && 0 < bottom.x < 0x8000_0000
        }),
{
    let p = spec_points(right_of(g));
    lemma_flip_twice(p.0.x);
    lemma_flip_twice(p.1.x);
}

pub open spec fn mirror_pair(p: (Vec3Bits, Vec3Bits)) -> (Vec3Bits, Vec3Bits) {
    (spec_mirror_x(p.0), spec_mirror_x(p.1))
}

/// The text of a version 4 UUID in its hyphenated form: 36 characters,
/// hyphens at 8, 13, 18 and 23, lower case hex digits elsewhere, the version
/// digit `4` at 14 and a variant digit from `8` to `b` at 19.
pub open spec fn is_uuid_text(s: Seq<char>) -> bool {
    &&& s.len() == 36
    &&& forall|i: int|
        0 <= i < 36 ==> if i == 8 || i == 13 || i == 18 || i == 23 {
            s[i] == '-'
        } else {
            ('0' <= #[trigger] s[i] <= '9') || ('a' <= s[i] <= 'f')
        }
    &&& s[14] == '4'
    &&& (s[19] == '8' || s[19] == '9' || s[19] == 'a' || s[19] == 'b')
}

/// The lower case hex digit of a value below 16.
pub open spec fn hex_char(v: int) -> char {
    if v < 10 {
        ((48 + v) as u32) as char
    } else {
        ((87 + v) as u32) as char
    }
}

/// Two hex digits per byte, high digit first.
pub open spec fn hex_of(b: Seq<u8>) -> Seq<char>
    decreases b.len(),
{
    if b.len() == 0 {
        Seq::empty()
    } else {
        hex_of(b.drop_last()) + seq![hex_char(b.last() as int / 16), hex_char(b.last() as int % 16)]
    }
}

/// Random bytes with the version 4 and RFC 4122 variant bits set.
pub open spec fn v4_bytes(b: Seq<u8>) -> Seq<u8> {
    b.update(6, (b[6] & 0x0f) | 0x40).update(8, (b[8] & 0x3f) | 0x80)
}

/// The hyphenated lower case text of 16 UUID bytes: groups of 4, 2, 2, 2
/// and 6 bytes.
pub open spec fn spec_uuid_text(b: Seq<u8>) -> Seq<char> {
    hex_of(b.subrange(0, 4)) + seq!['-'] + hex_of(b.subrange(4, 6)) + seq!['-'] + hex_of(b.subrange(6, 8))
        + seq!['-'] + hex_of(b.subrange(8, 10)) + seq!['-'] + hex_of(b.subrange(10, 16))
}

/// `uuid::Builder::from_random_bytes`, then `into_uuid` and `to_string`:
/// the bytes with the version set to 4 (high nibble of byte 6) and the
/// variant set to RFC 4122 (top bits `10` of byte 8), written as lower case
/// hex in groups of 4, 2, 2, 2 and 6 bytes with hyphens between them.
#[verifier::external_body]
fn uuid_text_from_random(bytes: [u8; 16]) -> (res: String)
    ensures
        res@ == spec_uuid_text(v4_bytes(bytes@)),
{
    uuid::Builder::from_random_bytes(bytes).into_uuid().to_string()
}

/// Id unique to the node it references. If an id is equal, it is the same
/// haptic node, with location in space and tags.
#[derive(Debug, Clone, PartialEq, Eq, Hash)]
pub struct NodeId(pub String);

impl NodeId {
    /// The version 4 UUID of 16 random bytes, as its hyphenated text. The
    /// caller draws the bytes.
    pub fn new(random: [u8; 16]) -> (res: Self)
        ensures
            res.0@ == spec_uuid_text(v4_bytes(random@)),
            is_uuid_text(res.0@),
    {
        proof {
            lemma_v4_text_shape(random@);
        }
        NodeId(uuid_text_from_random(random))
    }

    /// The id is the given text.
    pub fn eq_str(&self, other: &str) -> (res: bool)
        ensures
            res == (self.0@ == other@),
    {
        let o = other.to_owned();
        self.0 == o
    }

    /// The text of the id.
    pub fn into_string(self) -> (res: String)
        ensures
            res@ == self.0@,
    {
        self.0
    }
}

impl From<String> for NodeId {
    fn from(value: String) -> (res: Self) {
        NodeId(value)
    }
}

impl vstd::std_specs::convert::FromSpecImpl<String> for NodeId {
    open spec fn obeys_from_spec() -> bool {
        true
    }

    open spec fn from_spec(value: String) -> NodeId {
        NodeId(value)
    }
}

proof fn lemma_hex_char(v: int)
    requires
        0 <= v < 16,
    ensures
        ('0' <= hex_char(v) <= '9') || ('a' <= hex_char(v) <= 'f'),
{
}

proof fn lemma_hex_of(b: Seq<u8>)
    ensures
        hex_of(b).len() == 2 * b.len(),
        forall|k: int| 0 <= k < b.len() ==> hex_of(b)[2 * k] == hex_char(b[k] as int / 16) && hex_of(b)[2 * k + 1]
            == hex_char(b[k] as int % 16),
    decreases b.len(),
{
    if b.len() > 0 {
        lemma_hex_of(b.drop_last());
        assert forall|k: int| 0 <= k < b.len() implies hex_of(b)[2 * k] == hex_char(b[k] as int / 16) && hex_of(
            b,
        )[2 * k + 1] == hex_char(b[k] as int % 16) by {
            if k < b.len() - 1 {
                assert(b.drop_last()[k] == b[k]);
            }
        }
    }
}

/// The text of any 16 random bytes is a version 4 UUID text.
pub proof fn lemma_v4_text_shape(random: Seq<u8>)
    requires
        random.len() == 16,
    ensures
        is_uuid_text(spec_uuid_text(v4_bytes(random))),
{
    let b = v4_bytes(random);
    let t = spec_uuid_text(b);
    lemma_hex_of(b.subrange(0, 4));
    lemma_hex_of(b.subrange(4, 6));
    lemma_hex_of(b.subrange(6, 8));
    lemma_hex_of(b.subrange(8, 10));
    lemma_hex_of(b.subrange(10, 16));
    let b6 = random[6];
    let b8 = random[8];
    assert(((b6 & 0x0f) | 0x40) / 16 == 4) by (bit_vector);
    assert(8 <= ((b8 & 0x3f) | 0x80) / 16 <= 11) by (bit_vector);
    assert(t.len() == 36);
    assert forall|i: int| 0 <= i < 36 implies if i == 8 || i == 13 || i == 18 || i == 23 {
        t[i] == '-'
    } else {
        ('0' <= #[trigger] t[i] <= '9') || ('a' <= t[i] <= 'f')
    } by {
        if i < 8 {
            lemma_hex_char(b[i / 2] as int / 16);
            lemma_hex_char(b[i / 2] as int % 16);
            assert(b.subrange(0, 4)[i / 2] == b[i / 2]);
        } else if 8 < i < 13 {
            let k = (i - 9) / 2;
            lemma_hex_char(b[4 + k] as int / 16);
            lemma_hex_char(b[4 + k] as int % 16);
            assert(b.subrange(4, 6)[k] == b[4 + k]);
        } else if 13 < i < 18 {
            let k = (i - 14) / 2;
            lemma_hex_char(b[6 + k] as int / 16);
            lemma_hex_char(b[6 + k] as int % 16);
            assert(b.subrange(6, 8)[k] == b[6 + k]);
        } else if 18 < i < 23 {
            let k = (i - 19) / 2;
            lemma_hex_char(b[8 + k] as int / 16);
            lemma_hex_char(b[8 + k] as int % 16);
            assert(b.subrange(8, 10)[k] == b[8 + k]);
        } else if 23 < i {
            let k = (i - 24) / 2;
            lemma_hex_char(b[10 + k] as int / 16);
            lemma_hex_char(b[10 + k] as int % 16);
            assert(b.subrange(10, 16)[k] == b[10 + k]);
        }
    }
    let h0 = hex_of(b.subrange(0, 4));
    let h1 = hex_of(b.subrange(4, 6));
    let h2 = hex_of(b.subrange(6, 8));
    let h3 = hex_of(b.subrange(8, 10));
    let h4 = hex_of(b.subrange(10, 16));
    assert(b[6] == (b6 & 0x0f) | 0x40);
    assert(b[8] == (b8 & 0x3f) | 0x80);
    assert(b.subrange(6, 8)[0] == b[6]);
    assert(b.subrange(8, 10)[0] == b[8]);
    assert(h2[0] == hex_char(b[6] as int / 16));
    assert(h3[0] == hex_char(b[8] as int / 16));
    assert(t == h0 + seq!['-'] + h1 + seq!['-'] + h2 + seq!['-'] + h3 + seq!['-'] + h4);
    assert(t[14] == h2[0]);
    assert(t[19] == h3[0]);
}

} // verus!
