//! Body regions as a set of bit flags.
use vstd::prelude::*;

use crate::haptic::mapping::{mirror_pair, mirror_x, Vec3Bits};
use crate::text::str_eq;

verus! {

broadcast use vstd::string::group_string_axioms;

/// A set of body regions: one bit per region.
#[derive(Debug, Clone, Copy, PartialEq, Eq, Structural, Hash)]
pub struct NodeGroup(u16);

/// The bit of the `Head` region.
pub const HEAD: u16 = 0b0000000000000001;

/// The bit of the `UpperArmRight` region.
pub const UPPER_ARM_RIGHT: u16 = 0b0000000000000010;

/// The bit of the `UpperArmLeft` region.
pub const UPPER_ARM_LEFT: u16 = 0b0000000000000100;

/// The bit of the `LowerArmRight` region.
pub const LOWER_ARM_RIGHT: u16 = 0b0000000000001000;

/// The bit of the `LowerArmLeft` region.
pub const LOWER_ARM_LEFT: u16 = 0b0000000000010000;

/// The bit of the `TorsoRight` region.
pub const TORSO_RIGHT: u16 = 0b0000000000100000;

/// The bit of the `TorsoLeft` region.
pub const TORSO_LEFT: u16 = 0b0000000001000000;

/// The bit of the `TorsoFront` region.
pub const TORSO_FRONT: u16 = 0b0000000010000000;

/// The bit of the `TorsoBack` region.
pub const TORSO_BACK: u16 = 0b0000000100000000;

/// The bit of the `UpperLegRight` region.
pub const UPPER_LEG_RIGHT: u16 = 0b0000001000000000;

/// The bit of the `UpperLegLeft` region.
pub const UPPER_LEG_LEFT: u16 = 0b0000010000000000;

/// The bit of the `LowerLegRight` region.
pub const LOWER_LEG_RIGHT: u16 = 0b0000100000000000;

/// The bit of the `LowerLegLeft` region.
pub const LOWER_LEG_LEFT: u16 = 0b0001000000000000;

/// The bit of the `FootRight` region.
pub const FOOT_RIGHT: u16 = 0b0010000000000000;

/// The bit of the `FootLeft` region.
pub const FOOT_LEFT: u16 = 0b0100000000000000;

/// The bit of the `All` region.
pub const ALL: u16 = 0b1000000000000000;

/// The bit of the flag with declaration index `i`.
pub open spec fn flag_bit(i: int) -> u16 {
    (1u16 << (i as u16))
}

/// The name of the flag with declaration index `i`, in `0..16`.
pub open spec fn flag_name(i: int) -> Seq<char> {
    if i == 0 {
        "Head"@
    } else if i == 1 {
        "UpperArmRight"@
    } else if i == 2 {
        "UpperArmLeft"@
    } else if i == 3 {
        "LowerArmRight"@
    } else if i == 4 {
        "LowerArmLeft"@
    } else if i == 5 {
        "TorsoRight"@
    } else if i == 6 {
        "TorsoLeft"@
    } else if i == 7 {
        "TorsoFront"@
    } else if i == 8 {
        "TorsoBack"@
    } else if i == 9 {
        "UpperLegRight"@
    } else if i == 10 {
        "UpperLegLeft"@
    } else if i == 11 {
        "LowerLegRight"@
    } else if i == 12 {
        "LowerLegLeft"@
    } else if i == 13 {
        "FootRight"@
    } else if i == 14 {
        "FootLeft"@
    } else {
        "All"@
    }
}

/// The names of the set flags with declaration index below `n`, in order.
pub open spec fn spec_flag_names(bits: u16, n: int) -> Seq<Seq<char>>
    decreases n,
{
    if n <= 0 {
        Seq::empty()
    } else if bits & flag_bit(n - 1) != 0 {
        spec_flag_names(bits, n - 1).push(flag_name(n - 1))
    } else {
        spec_flag_names(bits, n - 1)
    }
}

/// The flag that a name stands for.
pub open spec fn spec_flag_of_name(name: Seq<char>) -> Option<u16> {
    if exists|i: int| 0 <= i < 16 && flag_name(i) == name {
        Some(flag_bit(choose|i: int| 0 <= i < 16 && flag_name(i) == name))
    } else {
        None
    }
}

impl NodeGroup {
    /// The bits of the set.
    pub closed spec fn spec_bits(&self) -> u16 {
        self.0
    }

    pub fn bits(&self) -> (res: u16)
        ensures
            res == self.spec_bits(),
    {
        self.0
    }

    /// The set of these bits; every bit names a region.
    pub fn from_bits_retain(bits: u16) -> (res: NodeGroup)
        ensures
            res.spec_bits() == bits,
    {
        NodeGroup(bits)
    }

    /// The set of these bits, when every set bit names a region; as all
    /// sixteen bits do, this is never `None`.
    pub fn from_bits(bits: u16) -> (res: Option<NodeGroup>)
        ensures
            res matches Some(g) && g.spec_bits() == bits,
    {
        Some(NodeGroup(bits))
    }

    /// The set with no region.
    pub fn empty() -> (res: NodeGroup)
        ensures
            res.spec_bits() == 0,
    {
        NodeGroup(0)
    }

    /// The regions of both sets.
    pub fn union(self, other: NodeGroup) -> (res: NodeGroup)
        ensures
            res.spec_bits() == self.spec_bits() | other.spec_bits(),
    {
        NodeGroup(self.0 | other.0)
    }

    /// The sets share a region.
    pub fn intersects(&self, other: NodeGroup) -> (res: bool)
        ensures
            res == (self.spec_bits() & other.spec_bits() != 0),
    {
        self.0 & other.0 != 0
    }

    /// Every region of `other` is in this set.
    pub fn contains(&self, other: NodeGroup) -> (res: bool)
        ensures
            res == (self.spec_bits() & other.spec_bits() == other.spec_bits()),
    {
        self.0 & other.0 == other.0
    }

    /// The flag of a region name, as the serialised form writes it.
    pub fn from_name(name: &str) -> (res: Option<NodeGroup>)
        ensures
            match (res, spec_flag_of_name(name@)) {
                (Some(g), Some(b)) => g.spec_bits() == b,
                (None, None) => true,
                _ => false,
            },
    {
        proof {
            lemma_flag_names_distinct();
        }
        let mut i: u16 = 0;
        while i < 16
            invariant
                i <= 16,
                forall|k: int| 0 <= k < i ==> flag_name(k) != name@,
            decreases 16 - i,
        {
            let candidate = flag_name_text(i);
            if str_eq(name, candidate) {
                assert(flag_name(i as int) == name@);
                proof {
                    lemma_flag_names_distinct();
                }
                return Some(NodeGroup(1u16 << i));
            }
            i += 1;
        }
        None
    }

    /// The names of the regions in the set, in declaration order.
    pub fn names(&self) -> (res: Vec<&'static str>)
        ensures
            res@.len() == spec_flag_names(self.spec_bits(), 16).len(),
            forall|k: int| 0 <= k < res@.len() ==> #[trigger] res@[k]@ == spec_flag_names(self.spec_bits(), 16)[k],
    {
        let mut out: Vec<&'static str> = Vec::new();
        let mut i: u16 = 0;
        while i < 16
            invariant
                i <= 16,
                out@.len() == spec_flag_names(self.spec_bits(), i as int).len(),
                forall|k: int| 0 <= k < out@.len() ==> #[trigger] out@[k]@ == spec_flag_names(self.spec_bits(), i as int)[k],
            decreases 16 - i,
        {
            if self.0 & (1u16 << i) != 0 {
                out.push(flag_name_text(i));
            }
            i += 1;
        }
        out
    }

    /// The (top, bottom) axis points of a single region flag, `f32` bits.
    /// `All`, and any combined or empty set, has none.
    pub fn to_points(&self) -> (res: Option<(Vec3Bits, Vec3Bits)>)
        ensures
            res == spec_group_points(self.spec_bits()),
    {
        let b = self.0;
        if b == 1 {
            Some(head_points())
        } else if b == 32 || b == 64 || b == 128 || b == 256 {
            // All four torso faces share the same central vertical axis.
            Some(torso_points())
        } else if b == 2 {
            Some(upper_arm_right_points())
        } else if b == 512 {
            Some(upper_leg_right_points())
        } else if b == 2048 {
            Some(lower_leg_right_points())
        } else if b == 8192 {
            Some(foot_right_points())
        } else if b == 4 {
            Some(mirror_x(upper_arm_right_points()))
        } else if b == 1024 {
            Some(mirror_x(upper_leg_right_points()))
        } else if b == 4096 {
            Some(mirror_x(lower_leg_right_points()))
        } else if b == 16384 {
            Some(mirror_x(foot_right_points()))
        } else if b == 8 {
            Some(lower_arm_right_points())
        } else if b == 16 {
            Some(mirror_x(lower_arm_right_points()))
        } else {
            None
        }
    }
}

/// The axis points of a single region flag.
pub open spec fn spec_group_points(b: u16) -> Option<(Vec3Bits, Vec3Bits)> {
    if b == 1 {
        Some(spec_head_points())
    } else if b == 32 || b == 64 || b == 128 || b == 256 {
        Some(spec_torso_points())
    } else if b == 2 {
        Some(spec_upper_arm_right_points())
    } else if b == 512 {
        Some(spec_upper_leg_right_points())
    } else if b == 2048 {
        Some(spec_lower_leg_right_points())
    } else if b == 8192 {
        Some(spec_foot_right_points())
    } else if b == 4 {
        Some(mirror_pair(spec_upper_arm_right_points()))
    } else if b == 1024 {
        Some(mirror_pair(spec_upper_leg_right_points()))
    } else if b == 4096 {
        Some(mirror_pair(spec_lower_leg_right_points()))
    } else if b == 16384 {
        Some(mirror_pair(spec_foot_right_points()))
    } else if b == 8 {
        Some(spec_lower_arm_right_points())
    } else if b == 16 {
        Some(mirror_pair(spec_lower_arm_right_points()))
    } else {
        None
    }
}

pub open spec fn spec_head_points() -> (Vec3Bits, Vec3Bits) {
    (Vec3Bits { x: 0x0, y: 0x3fda7efa, z: 0x3d591687 }, Vec3Bits { x: 0x0, y: 0x3fb78d50, z: 0xbc54fdf4 })
}

pub open spec fn spec_torso_points() -> (Vec3Bits, Vec3Bits) {
    (Vec3Bits { x: 0x0, y: 0x3f3c28f6, z: 0xbc03126f }, Vec3Bits { x: 0x0, y: 0x3fb78d50, z: 0xbc54fdf4 })
}

pub open spec fn spec_upper_arm_right_points() -> (Vec3Bits, Vec3Bits) {
    (
        Vec3Bits { x: 0x3e3126e9, y: 0x3fad9168, z: 0xbcd4fdf4 },
        Vec3Bits { x: 0x3eac2268, y: 0x3f936113, z: 0xbc7765fe },
    )
}

pub open spec fn spec_lower_arm_right_points() -> (Vec3Bits, Vec3Bits) {
    (
        Vec3Bits { x: 0x3eac2268, y: 0x3f928588, z: 0xbcc8b439 },
        Vec3Bits { x: 0x3ef27bb3, y: 0x3f71e4f7, z: 0x3d401a37 },
    )
}

pub open spec fn spec_upper_leg_right_points() -> (Vec3Bits, Vec3Bits) {
    (
        Vec3Bits { x: 0x3d8d4fdf, y: 0x3f6c0831, z: 0x3a83126f },
        Vec3Bits { x: 0x3e09374c, y: 0x3ef53f7d, z: 0xbce56042 },
    )
}

pub open spec fn spec_lower_leg_right_points() -> (Vec3Bits, Vec3Bits) {
    (
        Vec3Bits { x: 0x3e09374c, y: 0x3ef53f7d, z: 0xbce56042 },
        Vec3Bits { x: 0x3e322d0e, y: 0x3db43958, z: 0xbd958106 },
    )
}

pub open spec fn spec_foot_right_points() -> (Vec3Bits, Vec3Bits) {
    (
        Vec3Bits { x: 0x3e322d0e, y: 0x3db43958, z: 0xbd958106 },
        Vec3Bits { x: 0x3e67bb30, y: 0x3ca3d70a, z: 0x3d03126f },
    )
}

fn head_points() -> (res: (Vec3Bits, Vec3Bits))
    ensures
        res == spec_head_points(),
{
    (Vec3Bits { x: 0x0, y: 0x3fda7efa, z: 0x3d591687 }, Vec3Bits { x: 0x0, y: 0x3fb78d50, z: 0xbc54fdf4 })
}

fn torso_points() -> (res: (Vec3Bits, Vec3Bits))
    ensures
        res == spec_torso_points(),
{
    (Vec3Bits { x: 0x0, y: 0x3f3c28f6, z: 0xbc03126f }, Vec3Bits { x: 0x0, y: 0x3fb78d50, z: 0xbc54fdf4 })
}

fn upper_arm_right_points() -> (res: (Vec3Bits, Vec3Bits))
    ensures
        res == spec_upper_arm_right_points(),
{
    (
        Vec3Bits { x: 0x3e3126e9, y: 0x3fad9168, z: 0xbcd4fdf4 },
        Vec3Bits { x: 0x3eac2268, y: 0x3f936113, z: 0xbc7765fe },
    )
}

fn lower_arm_right_points() -> (res: (Vec3Bits, Vec3Bits))
    ensures
        res == spec_lower_arm_right_points(),
{
    (
        Vec3Bits { x: 0x3eac2268, y: 0x3f928588, z: 0xbcc8b439 },
        Vec3Bits { x: 0x3ef27bb3, y: 0x3f71e4f7, z: 0x3d401a37 },
    )
}

fn upper_leg_right_points() -> (res: (Vec3Bits, Vec3Bits))
    ensures
        res == spec_upper_leg_right_points(),
{
    (
        Vec3Bits { x: 0x3d8d4fdf, y: 0x3f6c0831, z: 0x3a83126f },
        Vec3Bits { x: 0x3e09374c, y: 0x3ef53f7d, z: 0xbce56042 },
    )
}

fn lower_leg_right_points() -> (res: (Vec3Bits, Vec3Bits))
    ensures
        res == spec_lower_leg_right_points(),
{
    (
        Vec3Bits { x: 0x3e09374c, y: 0x3ef53f7d, z: 0xbce56042 },
        Vec3Bits { x: 0x3e322d0e, y: 0x3db43958, z: 0xbd958106 },
    )
}

fn foot_right_points() -> (res: (Vec3Bits, Vec3Bits))
    ensures
        res == spec_foot_right_points(),
{
    (
        Vec3Bits { x: 0x3e322d0e, y: 0x3db43958, z: 0xbd958106 },
        Vec3Bits { x: 0x3e67bb30, y: 0x3ca3d70a, z: 0x3d03126f },
    )
}

/// The name of flag `i`.
fn flag_name_text(i: u16) -> (res: &'static str)
    requires
        i < 16,
    ensures
        res@ == flag_name(i as int),
{
    match i {
        0 => "Head",
        1 => "UpperArmRight",
        2 => "UpperArmLeft",
        3 => "LowerArmRight",
        4 => "LowerArmLeft",
        5 => "TorsoRight",
        6 => "TorsoLeft",
        7 => "TorsoFront",
        8 => "TorsoBack",
        9 => "UpperLegRight",
        10 => "UpperLegLeft",
        11 => "LowerLegRight",
        12 => "LowerLegLeft",
        13 => "FootRight",
        14 => "FootLeft",
        _ => "All",
    }
}

proof fn lemma_flag_names_distinct()
    ensures
        forall|i: int, j: int| 0 <= i < 16 && 0 <= j < 16 && i != j ==> flag_name(i) != flag_name(j),
{
    reveal_strlit("Head");
    reveal_strlit("UpperArmRight");
    reveal_strlit("UpperArmLeft");
    reveal_strlit("LowerArmRight");
    reveal_strlit("LowerArmLeft");
    reveal_strlit("TorsoRight");
    reveal_strlit("TorsoLeft");
    reveal_strlit("TorsoFront");
    reveal_strlit("TorsoBack");
    reveal_strlit("UpperLegRight");
    reveal_strlit("UpperLegLeft");
    reveal_strlit("LowerLegRight");
    reveal_strlit("LowerLegLeft");
    reveal_strlit("FootRight");
    reveal_strlit("FootLeft");
    reveal_strlit("All");
    assert forall|i: int, j: int| 0 <= i < 16 && 0 <= j < 16 && i != j implies flag_name(i) != flag_name(j) by {
        let a = flag_name(i);
        let b = flag_name(j);
        if a.len() == b.len() {
            if a[0] == b[0] {
                if a[5] == b[5] {
                    assert(a[a.len() - 1] != b[b.len() - 1] || a[a.len() - 2] != b[b.len() - 2] || a[2] != b[2]);
                }
            }
        }
    }
}

/// The flag of a region's name is that region.
pub proof fn lemma_flag_name_roundtrip(i: int)
    requires
        0 <= i < 16,
    ensures
        spec_flag_of_name(flag_name(i)) == Some(flag_bit(i)),
{
    lemma_flag_names_distinct();
}

proof fn lemma_sign_flip(x: u32)
    by (bit_vector)
    requires
        x < 0x8000_0000u32,
    ensures
        x ^ 0x8000_0000u32 == x + 0x8000_0000u32,
{
}

/// A right-side region lies on the right of the body: both its axis points
/// have x > 0 (a clear sign bit and a non-zero value). Its left-side
/// partner, the next flag up, has the same axis mirrored across x = 0: the
/// same y and z, and x negated (the sign bit set on the same magnitude).
pub proof fn lemma_left_region_mirrors_right(r: u16)
    requires
        r == UPPER_ARM_RIGHT || r == LOWER_ARM_RIGHT || r == UPPER_LEG_RIGHT || r == LOWER_LEG_RIGHT || r
            == FOOT_RIGHT,
    ensures
        spec_group_points(r) is Some,
        spec_group_points((r * 2) as u16) is Some,
        ({
            let (rt, rb) = spec_group_points(r)->0;
            let (lt, lb) = spec_group_points((r * 2) as u16)->0;
            &&& 0 < rt.x < 0x8000_0000 && 0 < rb.x < 0x8000_0000
            &&& lt.x == rt.x + 0x8000_0000 && lt.y == rt.y && lt.z == rt.z
            &&& lb.x == rb.x + 0x8000_0000 && lb.y == rb.y && lb.z == rb.z
        }),
        spec_group_points((r * 2) as u16) == Some(mirror_pair(spec_group_points(r)->0)),
{
    let (rt, rb) = spec_group_points(r)->0;
    assert(rt.x < 0x8000_0000 && rb.x < 0x8000_0000);
    lemma_sign_flip(rt.x);
    lemma_sign_flip(rb.x);
}

/// The head and the four torso faces lie on the body's centre line: both
/// axis points have an x of zero.
pub proof fn lemma_midline_regions(b: u16)
    requires
        b == HEAD || b == TORSO_RIGHT || b == TORSO_LEFT || b == TORSO_FRONT || b == TORSO_BACK,
    ensures
        spec_group_points(b) is Some,
        ({
            let (top, bottom) = spec_group_points(b)->0;
            top.x == 0 && bottom.x == 0
        }),
{
}

/// The union of two sets contains each of them.
pub proof fn lemma_union_contains(a: u16, b: u16)
    ensures
        (a | b) & a == a,
        (a | b) & b == b,
{
    assert((a | b) & a == a && (a | b) & b == b) by (bit_vector);
}

} // verus!
