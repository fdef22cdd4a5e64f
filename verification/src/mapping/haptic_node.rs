//! The eight-byte wire form of a haptic node: its position in whole
//! millimetres and its region set.
use vstd::prelude::*;

use crate::mapping::groups::{NodeGroup, ALL};

verus! {

/// A haptic node as the wire form holds it: the position in millimetres on
/// each axis, and the regions that the node belongs to.
#[derive(Debug, Clone, Copy)]
pub struct PackedNode {
    pub x_mm: i16,
    pub y_mm: i16,
    pub z_mm: i16,
    pub groups: NodeGroup,
}

/// The little-endian bytes of a 16-bit word.
pub open spec fn le16(v: u16) -> Seq<u8> {
    seq![(v % 256) as u8, (v / 256) as u8]
}

/// The 16-bit word of two little-endian bytes.
pub open spec fn word16(lo: u8, hi: u8) -> u16 {
    (lo as int + 256 * hi as int) as u16
}

/// The wire form: x, y, z and the region bits, two little-endian bytes each.
pub open spec fn spec_node_bytes(n: PackedNode) -> Seq<u8> {
    le16(n.x_mm as u16) + le16(n.y_mm as u16) + le16(n.z_mm as u16) + le16(n.groups.spec_bits())
}

fn put16(bytes: &mut [u8; 8], at: usize, v: u16)
    requires
        at + 2 <= 8,
    ensures
        final(bytes)@ == old(bytes)@.update(at as int, le16(v)[0]).update(at + 1, le16(v)[1]),
{
    bytes[at] = (v % 256) as u8;
    bytes[at + 1] = (v / 256) as u8;
}

impl PackedNode {
    /// The eight bytes of the node.
    pub fn to_bytes(&self) -> (res: [u8; 8])
        ensures
            res@ == spec_node_bytes(*self),
    {
        let mut bytes = [0u8; 8];
        put16(&mut bytes, 0, self.x_mm as u16);
        put16(&mut bytes, 2, self.y_mm as u16);
        put16(&mut bytes, 4, self.z_mm as u16);
        put16(&mut bytes, 6, self.groups.bits());
        assert(bytes@ =~= spec_node_bytes(*self));
        bytes
    }

    /// Reads a node back from its eight bytes. Every region bit is known, so
    /// every byte pattern reads.
    pub fn from_bytes(bytes: [u8; 8]) -> (res: Option<PackedNode>)
        ensures
            res matches Some(n) && {
                &&& n.x_mm == word16(bytes@[0], bytes@[1]) as i16
                &&& n.y_mm == word16(bytes@[2], bytes@[3]) as i16
                &&& n.z_mm == word16(bytes@[4], bytes@[5]) as i16
                &&& n.groups.spec_bits() == word16(bytes@[6], bytes@[7])
            },
    {
        let x = (bytes[0] as u16 + 256 * bytes[1] as u16) as i16;
        let y = (bytes[2] as u16 + 256 * bytes[3] as u16) as i16;
        let z = (bytes[4] as u16 + 256 * bytes[5] as u16) as i16;
        let flag = bytes[6] as u16 + 256 * bytes[7] as u16;
        match NodeGroup::from_bits(flag) {
            Some(groups) => Some(PackedNode { x_mm: x, y_mm: y, z_mm: z, groups }),
            None => None,
        }
    }
}

proof fn lemma_word_of_le(v: u16)
    ensures
        word16(le16(v)[0], le16(v)[1]) == v,
{
}

proof fn lemma_i16_roundtrip(x: i16)
    ensures
        (x as u16) as i16 == x,
{
    assert((x as u16) as i16 == x) by (bit_vector);
}

/// Reading the bytes of a node gives the node back.
pub proof fn lemma_node_bytes_roundtrip(n: PackedNode)
    ensures
        ({
            let b = spec_node_bytes(n);
            &&& word16(b[0], b[1]) as i16 == n.x_mm
            &&& word16(b[2], b[3]) as i16 == n.y_mm
            &&& word16(b[4], b[5]) as i16 == n.z_mm
            &&& word16(b[6], b[7]) == n.groups.spec_bits()
        }),
{
    lemma_word_of_le(n.x_mm as u16);
    lemma_word_of_le(n.y_mm as u16);
    lemma_word_of_le(n.z_mm as u16);
    lemma_word_of_le(n.groups.spec_bits());
    lemma_i16_roundtrip(n.x_mm);
    lemma_i16_roundtrip(n.y_mm);
    lemma_i16_roundtrip(n.z_mm);
}

impl PackedNode {
    /// Whether this node and an input of `group` interact: exactly when they
    /// share a region, or either covers all regions.
    pub fn interacts(&self, group: NodeGroup) -> (res: bool)
        ensures
            res == (self.groups.spec_bits() & ALL != 0 || group.spec_bits() & ALL != 0
                || self.groups.spec_bits() & group.spec_bits() != 0),
    {
        let mine = self.groups.bits();
        let theirs = group.bits();
        mine & ALL != 0 || theirs & ALL != 0 || mine & theirs != 0
    }
}

} // verus!
