//! Values of scripted events: constant for the whole event, or one value per
//! event tick.
use vstd::prelude::*;

use std::sync::Arc;

use crate::haptic::mapping::Vec3Bits;
use crate::mapping::groups::{NodeGroup, ALL};
use crate::mapping::input_node::{InputNodeState, InterpolationLayer, SlotState};
use crate::vrc::config::{InputLayer, InputType};

verus! {

/// A value that is constant, or that changes on each event tick.
#[derive(Debug, Clone)]
pub enum MaybeConst<T> where T: Clone {
    /// Not constant: one value per tick. Behaves as constant once the
    /// values run out.
    Var(Arc<[T]>),
    /// Constant for the duration of the event.
    Const(T),
}

impl<T: Clone> MaybeConst<T> {
    /// The constant variant.
    pub fn new_const(val: T) -> (res: Self)
        ensures
            res == MaybeConst::Const(val),
    {
        MaybeConst::Const(val)
    }

    /// The variant with one value per tick.
    pub fn new(val: Arc<[T]>) -> (res: Self)
        ensures
            res == MaybeConst::<T>::Var(val),
    {
        MaybeConst::Var(val)
    }

    pub fn is_const(&self) -> (res: bool)
        ensures
            res == (self is Const),
    {
        match self {
            MaybeConst::Const(_) => true,
            MaybeConst::Var(_) => false,
        }
    }

    /// The initial value.
    pub fn first(&self) -> (res: &T)
        requires
            self matches MaybeConst::Var(l) ==> l@.len() > 0,
        ensures
            match self {
                MaybeConst::Const(v) => *res == v,
                MaybeConst::Var(l) => *res == l@[0],
            },
    {
        match self {
            MaybeConst::Const(v) => v,
            MaybeConst::Var(l) => &l[0],
        }
    }

    /// The value of tick `idx`. A constant has no per tick value.
    pub fn get(&self, idx: usize) -> (res: Option<&T>)
        ensures
            match self {
                MaybeConst::Const(_) => res is None,
                MaybeConst::Var(l) => if idx < l@.len() {
                    res == Some(&l@[idx as int])
                } else {
                    res is None
                },
            },
    {
        match self {
            MaybeConst::Const(_) => None,
            MaybeConst::Var(l) => {
                if idx < l.len() {
                    Some(&l[idx])
                } else {
                    None
                }
            },
        }
    }
}

/// Why an event could not be created.
/// The value of the first event tick.
pub open spec fn first_of<T: Clone>(m: MaybeConst<T>) -> T {
    match m {
        MaybeConst::Const(v) => v,
        MaybeConst::Var(l) => l@[0],
    }
}

/// The frames of one event node: its location, mute, value, weight and
/// radius, each constant or one per tick; floats are held as `f32` bits.
#[derive(Debug, Clone)]
pub struct Steps {
    pub position: MaybeConst<Vec3Bits>,
    pub muted: MaybeConst<bool>,
    pub value: MaybeConst<u32>,
    pub weight: MaybeConst<u32>,
    pub radius: MaybeConst<u32>,
}

impl<T: Clone> MaybeConst<T> {
    /// The value list has a first tick.
    pub fn has_first(&self) -> (res: bool)
        ensures
            res == has_first(*self),
    {
        match self {
            MaybeConst::Const(_) => true,
            MaybeConst::Var(l) => l.len() > 0,
        }
    }
}

impl Steps {
    /// Every value of the steps has a first tick.
    pub fn is_ready(&self) -> (res: bool)
        ensures
            res == steps_ready(*self),
    {
        self.position.has_first() && self.muted.has_first() && self.value.has_first() && self.weight.has_first()
            && self.radius.has_first()
    }
}

/// A value list has a first tick.
pub open spec fn has_first<T: Clone>(m: MaybeConst<T>) -> bool {
    m matches MaybeConst::Var(l) ==> l@.len() > 0
}

/// Every value of the steps has a first tick.
pub open spec fn steps_ready(s: Steps) -> bool {
    &&& has_first(s.position)
    &&& has_first(s.muted)
    &&& has_first(s.value)
    &&& has_first(s.weight)
    &&& has_first(s.radius)
}

/// `n` is the node that an event starts for one steps entry: seeded from the
/// first tick, in all regions, on the default layer, with one unmuted slot.
pub open spec fn is_seed_node(n: InputNodeState, s: Steps) -> bool {
    &&& n.location == first_of(s.position)
    &&& n.groups.spec_bits() == ALL
    &&& n.layer == InterpolationLayer::Default
    &&& n.slots@ == seq![
        SlotState {
            muted: false,
            source: InputType::Weight,
            layer: InputLayer::Additive,
            weight_bits: first_of(s.weight),
            value_bits: first_of(s.value),
        },
    ]
    &&& n.radius_bits == first_of(s.radius)
    &&& n.muted == first_of(s.muted)
}

/// The node that an event starts for one steps entry.
pub fn seed_node(s: &Steps) -> (res: InputNodeState)
    requires
        steps_ready(*s),
    ensures
        is_seed_node(res, *s),
{
    let slot = SlotState {
        muted: false,
        source: InputType::Weight,
        layer: InputLayer::Additive,
        weight_bits: *s.weight.first(),
        value_bits: *s.value.first(),
    };
    let mut slots: Vec<SlotState> = Vec::new();
    slots.push(slot);
    assert(slots@ == seq![slot]);
    InputNodeState {
        location: *s.position.first(),
        groups: NodeGroup::from_bits_retain(ALL),
        layer: InterpolationLayer::Default,
        slots,
        radius_bits: *s.radius.first(),
        muted: *s.muted.first(),
    }
}

#[derive(Debug, Clone, Copy, PartialEq, Eq)]
pub enum CreateEventError {
    /// An event must run for at least one tick.
    NotEnoughSteps,
}

} // verus!
