//! The identity and input descriptions of a game map file.
use vstd::prelude::*;

verus! {

/// Whether an input source is read as a weight or as a velocity.
#[derive(Debug, Clone, Copy, PartialEq, Eq, Structural)]
pub enum InputType {
    Weight,
    Velocity,
}

/// How an input combines with the other sources of its slot.
///
/// Gate(Max((Additive + Subtractive) * Multiplicative, Minimum of Max Layer),
/// Maximum of Min Layer), clamped to 0 to 1, overridden by the first
/// Override layer.
#[derive(Debug, Clone, Copy, PartialEq, Eq, Structural)]
pub enum InputLayer {
    /// Additive and subtractive combine to create base cumulative values.
    Additive,
    Subtractive,
    /// Multiplies the cumulative value.
    Multiplicative,
    /// Takes either the cumulative value or this value, whichever is bigger.
    Max,
    /// Takes either the cumulative value or this value, whichever is smaller.
    Gate,
    /// Should be used sparingly: it can disrupt the outputs.
    Override,
}

/// The identity of a map file.
#[derive(Debug, Clone)]
pub struct ConfIdent {
    pub map_name: String,
    pub map_version: u32,
    pub author_name: String,
    pub author_id: Option<String>,
    pub custom_repository: Option<CustomRepo>,
}

/// Where to retrieve other versions of a map.
#[derive(Debug, Clone)]
pub struct CustomRepo {
    pub author: String,
    pub map_name: String,
    pub map_author: String,
}

/// The bone that a node is parented to in the prefab (Unity's
/// HumanBodyBones).
#[derive(Debug, Clone, Copy, PartialEq, Eq, Structural)]
pub enum TargetBone {
    Hips,
    LeftUpperLeg,
    RightUpperLeg,
    LeftLowerLeg,
    RightLowerLeg,
    LeftFoot,
    RightFoot,
    Spine,
    Chest,
    Neck,
    Head,
    LeftShoulder,
    RightShoulder,
    LeftUpperArm,
    RightUpperArm,
    LeftLowerArm,
    RightLowerArm,
    LeftHand,
    RightHand,
    LeftToes,
    RightToes,
    LeftEye,
    RightEye,
    Jaw,
    LeftThumbProximal,
    LeftThumbIntermediate,
    LeftThumbDistal,
    LeftIndexProximal,
    LeftIndexIntermediate,
    LeftIndexDistal,
    LeftMiddleProximal,
    LeftMiddleIntermediate,
    LeftMiddleDistal,
    LeftRingProximal,
    LeftRingIntermediate,
    LeftRingDistal,
    LeftLittleProximal,
    LeftLittleIntermediate,
    LeftLittleDistal,
    RightThumbProximal,
    RightThumbIntermediate,
    RightThumbDistal,
    RightIndexProximal,
    RightIndexIntermediate,
    RightIndexDistal,
    RightMiddleProximal,
    RightMiddleIntermediate,
    RightMiddleDistal,
    RightRingProximal,
    RightRingIntermediate,
    RightRingDistal,
    RightLittleProximal,
    RightLittleIntermediate,
    RightLittleDistal,
    UpperChest,
    LastBone,
}

} // verus!
