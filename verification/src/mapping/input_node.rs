//! Slots of input nodes and the interpolation layers of the map.
use vstd::prelude::*;

use crate::haptic::mapping::Vec3Bits;
use crate::mapping::groups::NodeGroup;
use crate::mapping::NodeKey;
use crate::vrc::config::{InputLayer, InputType};

verus! {

/// Points to an input slot, within a node, within an interpolation layer.
#[derive(Debug, Clone, Copy, PartialEq, Eq, Structural)]
pub struct SlotKey {
    pub node: NodeKey,
    pub slot_idx: u8,
}

impl SlotKey {
    pub fn new(node: NodeKey, idx: u8) -> (res: Self)
        ensures
            res.node == node,
            res.slot_idx == idx,
    {
        SlotKey { node, slot_idx: idx }
    }
}

/// How a node affects the layers.
#[derive(Debug, Clone, Copy, PartialEq, Eq, Structural)]
pub enum InterpolationLayer {
    /// Grabs any nodes within its radius, forcefully drives them at this value.
    Greedy,
    /// Exponentially weights nodes within its radius; nodes at 0 pull to zero.
    Default,
    /// Weights nodes according to their proximity to this node.
    Linear,
    /// Weights all outputs in its radius.
    Area,
    /// Drives all nodes exactly at the output, without regard to distance.
    Global,
}

impl Default for InterpolationLayer {
    fn default() -> (res: Self)
        ensures
            res == InterpolationLayer::Default,
    {
        InterpolationLayer::Default
    }
}

/// What the map keeps of an input slot: whether it is muted, how its input
/// is read and combined, and the `f32` bits of its weight and of its latest
/// value.
#[derive(Debug, Clone, Copy, PartialEq, Eq, Structural)]
pub struct SlotState {
    pub muted: bool,
    pub source: InputType,
    pub layer: InputLayer,
    pub weight_bits: u32,
    pub value_bits: u32,
}

/// What the map keeps of an input node; each float is held as its `f32`
/// bits.
#[derive(Debug, Clone, PartialEq, Eq)]
pub struct InputNodeState {
    pub location: Vec3Bits,
    pub groups: NodeGroup,
    pub layer: InterpolationLayer,
    pub slots: Vec<SlotState>,
    pub radius_bits: u32,
    pub muted: bool,
}

} // verus!
