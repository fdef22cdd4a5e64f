use std::sync::Arc;

use haptic_core::haptic::mapping::Vec3Bits;
use haptic_core::mapping::event::{MaybeConst, Steps};
use haptic_core::mapping::groups::{
    NodeGroup, ALL, FOOT_LEFT, HEAD, LOWER_ARM_LEFT, LOWER_ARM_RIGHT, TORSO_BACK, TORSO_FRONT,
};
use haptic_core::mapping::haptic_node::PackedNode;
use haptic_core::mapping::input_node::{InputNodeState, InterpolationLayer, SlotKey, SlotState};
use haptic_core::mapping::store::{key_bits, node_key, tick_event, BatchUpdateMsg, NodeField, Nodes, SlotField};
use haptic_core::vrc::config::{InputLayer, InputType};
use haptic_core::mapping::{
    ArmStat, EventInstance, EventKey, EventMap, EventSchedule, MapChange, MapFlags, NodeKey,
};

#[test]
fn started_event_runs_for_its_duration() {
    let mut sched = EventSchedule::new(15);
    let key = sched.register(3);
    assert_eq!(key, EventKey(0));
    let id = sched.start(key, 2).unwrap();
    assert_eq!(id, 15);
    assert_eq!(sched.live, vec![15]);

    let t0 = sched.tick();
    assert_eq!(t0.to_tick, vec![(EventInstance { start: 0, key, id: 15 }, 0)]);
    assert!(t0.dropped.is_empty());
    assert!(!t0.changed);
    let t1 = sched.tick();
    assert_eq!(t1.to_tick[0].1, 1);
    let t2 = sched.tick();
    assert_eq!(t2.to_tick[0].1, 2);
    // The fourth tick is past the duration: the instance and its nodes go.
    let t3 = sched.tick();
    assert!(t3.to_tick.is_empty());
    assert_eq!(t3.dropped, vec![15]);
    assert!(t3.changed);
    assert!(sched.instances.is_empty());
    assert!(sched.live.is_empty());
    assert_eq!(sched.now, 4);
}

#[test]
fn unknown_or_empty_events_do_not_start() {
    let mut sched = EventSchedule::new(0);
    assert_eq!(sched.start(EventKey(0), 1), None);
    let key = sched.register(5);
    assert_eq!(sched.start(key, 0), None);
    assert_eq!(sched.next_id, 0);
    assert!(sched.instances.is_empty());
}

#[test]
fn instance_ids_are_never_reused() {
    let mut sched = EventSchedule::new(7);
    let key = sched.register(1);
    let a = sched.start(key, 1).unwrap();
    sched.tick();
    sched.tick();
    let b = sched.start(key, 1).unwrap();
    assert_ne!(a, b);
    assert_eq!(b, 8);
}

#[test]
fn cancel_and_flush_clear_the_schedule() {
    let mut sched = EventSchedule::new(0);
    let key = sched.register(10);
    sched.start(key, 1);
    sched.cancel_all();
    assert!(sched.instances.is_empty() && sched.live.is_empty());
    assert_eq!(sched.durations, vec![10]);
    sched.flush();
    assert!(sched.durations.is_empty());
    // A flushed event key no longer names an event.
    assert_eq!(sched.start(key, 1), None);
}

#[test]
fn orphaned_instance_leaves_without_dropping_nodes() {
    let mut sched = EventSchedule::new(0);
    let key = sched.register(10);
    sched.start(key, 1);
    sched.live.clear();
    let out = sched.tick();
    assert!(out.changed);
    assert!(out.dropped.is_empty());
    assert!(sched.instances.is_empty());
}

#[test]
fn arm_stats_record() {
    let mut s = ArmStat::default();
    s.record(30);
    s.record(10);
    assert_eq!(s, ArmStat { count: 2, total_ns: 40, max_ns: 30 });
}

#[test]
fn group_sets() {
    let head = NodeGroup::from_bits_retain(HEAD);
    let torso = NodeGroup::from_bits_retain(TORSO_FRONT | TORSO_BACK);
    let both = head.union(torso);
    assert_eq!(both.bits(), HEAD | TORSO_FRONT | TORSO_BACK);
    assert!(both.contains(head));
    assert!(both.intersects(torso));
    assert!(!head.intersects(torso));
    assert!(!head.contains(both));
    assert_eq!(NodeGroup::empty().bits(), 0);
    assert_eq!(NodeGroup::from_bits(0xffff).map(|g| g.bits()), Some(0xffff));
}

#[test]
fn group_names_roundtrip() {
    assert_eq!(NodeGroup::from_name("Head").map(|g| g.bits()), Some(HEAD));
    assert_eq!(NodeGroup::from_name("FootLeft").map(|g| g.bits()), Some(FOOT_LEFT));
    assert_eq!(NodeGroup::from_name("All").map(|g| g.bits()), Some(ALL));
    assert!(NodeGroup::from_name("head").is_none());
    let set = NodeGroup::from_bits_retain(HEAD | LOWER_ARM_LEFT | ALL);
    assert_eq!(set.names(), vec!["Head", "LowerArmLeft", "All"]);
    for name in set.names() {
        assert!(set.contains(NodeGroup::from_name(name).unwrap()));
    }
}

#[test]
fn group_axis_points() {
    let torso = NodeGroup::from_bits_retain(TORSO_FRONT).to_points().unwrap();
    assert_eq!(NodeGroup::from_bits_retain(TORSO_BACK).to_points().unwrap(), torso);
    assert!(NodeGroup::from_bits_retain(ALL).to_points().is_none());
    assert!(NodeGroup::from_bits_retain(HEAD | TORSO_BACK).to_points().is_none());
    assert!(NodeGroup::empty().to_points().is_none());
    let (top, _) = NodeGroup::from_bits_retain(HEAD).to_points().unwrap();
    assert_eq!(f32::from_bits(top.x), 0.0);
    for i in 0..15u16 {
        assert!(NodeGroup::from_bits_retain(1 << i).to_points().is_some(), "flag {i}");
    }
    let (ra, rb) = NodeGroup::from_bits_retain(LOWER_ARM_RIGHT).to_points().unwrap();
    let (la, lb) = NodeGroup::from_bits_retain(LOWER_ARM_LEFT).to_points().unwrap();
    assert_eq!(f32::from_bits(ra.x), 0.3362);
    assert_eq!(f32::from_bits(la.x), -0.3362);
    assert_eq!(la.y, ra.y);
    assert_eq!(f32::from_bits(lb.x), -f32::from_bits(rb.x));
}

#[test]
fn packed_node_bytes_roundtrip() {
    let n = PackedNode { x_mm: -151, y_mm: 1290, z_mm: 76, groups: NodeGroup::from_bits_retain(TORSO_FRONT) };
    let bytes = n.to_bytes();
    assert_eq!(bytes, [0x69, 0xff, 0x0a, 0x05, 0x4c, 0x00, 0x80, 0x00]);
    let back = PackedNode::from_bytes(bytes).unwrap();
    assert_eq!((back.x_mm, back.y_mm, back.z_mm), (-151, 1290, 76));
    assert_eq!(back.groups.bits(), TORSO_FRONT);
}

#[test]
fn maybe_const_values() {
    let c = MaybeConst::new_const(0.5f32);
    assert!(c.is_const());
    assert_eq!(*c.first(), 0.5);
    assert_eq!(c.get(0), None);
    let v: MaybeConst<u8> = MaybeConst::new(Arc::from(vec![1u8, 2, 3]));
    assert!(!v.is_const());
    assert_eq!(*v.first(), 1);
    assert_eq!(v.get(2), Some(&3));
    assert_eq!(v.get(3), None);
}

#[test]
fn slot_keys_and_layers() {
    let node = NodeKey { idx: 4, version: 2 };
    let k = SlotKey::new(node, 3);
    assert_eq!(k.node, node);
    assert_eq!(k.slot_idx, 3);
    assert_eq!(InterpolationLayer::default(), InterpolationLayer::Default);
    assert_eq!(EventKey::default(), EventKey(0));
}

#[test]
fn quick_event_is_registered_once_and_reused() {
    let mut sched = EventSchedule::new(0);
    sched.register(50);
    let k = sched.prepare_quick(0).unwrap();
    assert_eq!(k, EventKey(1));
    assert_eq!(sched.durations, vec![50, 1]);
    assert_eq!(sched.quick, Some(k));
    assert_eq!(sched.prepare_quick(20), Some(k));
    assert_eq!(sched.durations, vec![50, 20]);
    sched.flush();
    assert_eq!(sched.quick, None);
    assert_eq!(sched.prepare_quick(5), Some(EventKey(0)));
}

#[test]
fn map_flags_follow_changes_and_ticks() {
    let mut f = MapFlags::new();
    assert!(f.on_info_request());
    assert!(!f.on_info_request());
    f.on_change(MapChange::Update { applied: false });
    assert!(!f.map_dirty && !f.dirty_since_snap);
    f.on_change(MapChange::MapDirty);
    assert!(f.map_dirty && !f.dirty_since_snap);
    assert!(f.on_tick());
    assert!(!f.map_dirty);
    f.on_change(MapChange::Flush);
    assert_eq!(f.generation, 1);
    assert!(f.dirty_since_snap);
    assert!(f.on_tick());
    // With no change the devices still update on the eleventh tick.
    for _ in 0..10 {
        assert!(!f.on_tick());
    }
    assert_eq!(f.cleanups, 10);
    assert!(f.on_tick());
    assert_eq!(f.cleanups, 0);
    f.after_events(false);
    assert!(f.map_dirty);
    f.on_change(MapChange::RegisterEvent);
    f.on_change(MapChange::StartEvent { started: true });
    assert!(f.on_info_request());
}

fn event_steps() -> Steps {
    Steps {
        position: MaybeConst::new_const(Vec3Bits { x: 1.0f32.to_bits(), y: 2.0f32.to_bits(), z: 0 }),
        muted: MaybeConst::new_const(false),
        value: MaybeConst::new(Arc::from(vec![0.5f32.to_bits(), 0.25f32.to_bits()])),
        weight: MaybeConst::new_const(1.0f32.to_bits()),
        radius: MaybeConst::new_const(0.0375f32.to_bits()),
    }
}

#[test]
fn event_instances_own_their_nodes_until_they_expire() {
    let mut map = EventMap::new(15);
    let key = map.register_event(2, vec![event_steps(), event_steps()]);
    let empty = map.register_event(3, vec![]);
    assert!(map.can_start(key));
    assert_eq!(map.start_event(key), Some(15));
    assert_eq!(map.nodes.len(), 2);
    assert_eq!(map.nodes.transient.len(), 1);
    assert_eq!(map.nodes.transient[0].0, 15);
    let keys = map.nodes.transient[0].1.clone();
    assert_eq!(keys.len(), 2);
    let seeded = map.nodes.get(node_key(keys[0])).unwrap();
    assert_eq!(seeded.location, Vec3Bits { x: 1.0f32.to_bits(), y: 2.0f32.to_bits(), z: 0 });
    assert_eq!(seeded.groups.bits(), ALL);
    assert_eq!(seeded.slots, vec![SlotState { muted: false, source: InputType::Weight, layer: InputLayer::Additive, weight_bits: 1.0f32.to_bits(), value_bits: 0.5f32.to_bits() }]);
    assert_eq!(seeded.radius_bits, 0.0375f32.to_bits());
    assert!(!seeded.muted);
    // An event with no nodes starts nothing; an unknown event neither.
    assert_eq!(map.start_event(empty), None);
    assert_eq!(map.start_event(EventKey(9)), None);
    let t = map.tick();
    assert_eq!(t.to_tick.len(), 1);
    assert_eq!(t.to_tick[0].1, 0);
    assert!(t.dropped.is_empty());
    assert_eq!(map.nodes.get(node_key(keys[1])).unwrap().slots[0].value_bits, 0.5f32.to_bits());
    let t = map.tick();
    assert_eq!(t.to_tick[0].1, 1);
    // The second tick plays the second value of the frames.
    assert_eq!(map.nodes.get(node_key(keys[0])).unwrap().slots[0].value_bits, 0.25f32.to_bits());
    assert_eq!(map.nodes.get(node_key(keys[1])).unwrap().slots[0].value_bits, 0.25f32.to_bits());
    assert_eq!(map.nodes.get(node_key(keys[0])).unwrap().location, seeded.location);
    let t = map.tick();
    assert_eq!(t.dropped, vec![15]);
    assert!(t.changed);
    assert_eq!(map.nodes.len(), 0);
    assert!(map.nodes.transient.is_empty());
    assert!(map.nodes.get(node_key(keys[0])).is_none());
}

#[test]
fn registered_nodes_stream_until_flushed() {
    let mut nodes = Nodes::new();
    let node = InputNodeState {
        location: Vec3Bits { x: 0, y: 0, z: 0 },
        groups: NodeGroup::from_bits_retain(HEAD),
        layer: InterpolationLayer::Greedy,
        slots: vec![SlotState { muted: false, source: InputType::Velocity, layer: InputLayer::Max, weight_bits: 0, value_bits: 0 }],
        radius_bits: 0,
        muted: true,
    };
    let a = nodes.register(node.clone());
    let b = nodes.register(node.clone());
    assert_ne!(a, b);
    assert_eq!(nodes.get(a), Some(node.clone()));
    assert_eq!(nodes.active_streaming, vec![key_bits(a), key_bits(b)]);
    assert_eq!(node_key(key_bits(a)), a);
    nodes.drop_instance(3);
    assert_eq!(nodes.len(), 2);
    nodes.flush();
    assert_eq!(nodes.len(), 0);
    assert!(nodes.get(a).is_none());
}

#[test]
fn updates_reach_the_node_and_slot_they_name() {
    let mut nodes = Nodes::new();
    let slot = SlotState { muted: false, source: InputType::Velocity, layer: InputLayer::Max, weight_bits: 0, value_bits: 0 };
    let node = InputNodeState {
        location: Vec3Bits { x: 0, y: 0, z: 0 },
        groups: NodeGroup::from_bits_retain(HEAD),
        layer: InterpolationLayer::Default,
        slots: vec![slot],
        radius_bits: 0,
        muted: false,
    };
    let key = nodes.register(node.clone());
    let loc = Vec3Bits { x: 1, y: 2, z: 3 };
    assert!(nodes.apply_update(BatchUpdateMsg::Node { key, muted: true, location: loc, radius_bits: 7 }));
    let n = nodes.get(key).unwrap();
    assert!(n.muted);
    assert_eq!((n.location, n.radius_bits), (loc, 7));
    assert!(nodes.apply_update(BatchUpdateMsg::SlotField {
        key: SlotKey::new(key, 0),
        field: SlotField::Weight(0.5f32.to_bits())
    }));
    assert!(nodes.apply_update(BatchUpdateMsg::Slot {
        key: SlotKey::new(key, 0),
        value_bits: 9,
        weight_bits: 0.25f32.to_bits(),
        muted: true
    }));
    assert_eq!(nodes.get(key).unwrap().slots, vec![SlotState { muted: true, source: InputType::Velocity, layer: InputLayer::Max, weight_bits: 0.25f32.to_bits(), value_bits: 9 }]);
    assert!(nodes.apply_update(BatchUpdateMsg::NodeField { key, field: NodeField::Radius(3) }));
    assert_eq!(nodes.get(key).unwrap().radius_bits, 3);
    // A missing slot or node changes nothing.
    assert!(!nodes.apply_update(BatchUpdateMsg::SlotField { key: SlotKey::new(key, 1), field: SlotField::Muted(false) }));
    let gone = NodeKey { idx: 40, version: 1 };
    assert!(!nodes.apply_update(BatchUpdateMsg::NodeField { key: gone, field: NodeField::Muted(false) }));
    assert_eq!(nodes.get(key).unwrap().radius_bits, 3);
}

#[test]
fn nodes_interact_when_they_share_a_region() {
    let node = |bits: u16| PackedNode { x_mm: 0, y_mm: 1500, z_mm: 0, groups: NodeGroup::from_bits_retain(bits) };
    assert!(node(ALL).interacts(NodeGroup::from_bits_retain(HEAD)));
    assert!(node(HEAD).interacts(NodeGroup::from_bits_retain(ALL | FOOT_LEFT)));
    assert!(!node(HEAD).interacts(NodeGroup::from_bits_retain(TORSO_FRONT)));
    assert!(node(LOWER_ARM_RIGHT).interacts(NodeGroup::from_bits_retain(LOWER_ARM_RIGHT)));
    assert!(node(HEAD | TORSO_FRONT).interacts(NodeGroup::from_bits_retain(TORSO_FRONT | FOOT_LEFT)));
    assert!(!node(HEAD).interacts(NodeGroup::empty()));
}

#[test]
fn quick_events_reuse_one_event_and_cancel_keeps_nodes() {
    let mut map = EventMap::new(15);
    let at = Vec3Bits { x: 1, y: 2, z: 3 };
    assert_eq!(map.quick_event(0, at, 0.5f32.to_bits()), Some(15));
    assert_eq!(map.schedule.durations, vec![1]);
    let keys = map.nodes.transient[0].1.clone();
    let n = map.nodes.get(node_key(keys[0])).unwrap();
    assert_eq!(n.location, at);
    assert_eq!(n.radius_bits, 0.0375f32.to_bits());
    assert_eq!(n.slots[0].weight_bits, 1.0f32.to_bits());
    assert_eq!(n.slots[0].value_bits, 0.5f32.to_bits());
    assert_eq!(map.quick_event(5, at, 0), Some(16));
    assert_eq!(map.schedule.durations, vec![5]);
    map.cancel_all();
    assert!(map.schedule.instances.is_empty());
    assert!(map.nodes.transient.is_empty());
    assert_eq!(map.nodes.len(), 2);
    map.flush();
    assert_eq!(map.nodes.len(), 0);
    assert!(map.schedule.durations.is_empty());
}

#[test]
fn an_event_tick_sets_the_fields_that_its_frames_hold() {
    let mut nodes = Nodes::new();
    let slot = SlotState { muted: true, source: InputType::Weight, layer: InputLayer::Gate, weight_bits: 1, value_bits: 2 };
    let node = InputNodeState {
        location: Vec3Bits { x: 0, y: 0, z: 0 },
        groups: NodeGroup::from_bits_retain(HEAD),
        layer: InterpolationLayer::Default,
        slots: vec![slot, slot],
        radius_bits: 5,
        muted: false,
    };
    let a = nodes.register(node.clone());
    let b = nodes.register(node.clone());
    let steps = Steps {
        position: MaybeConst::new(Arc::from(vec![Vec3Bits { x: 1, y: 1, z: 1 }, Vec3Bits { x: 2, y: 2, z: 2 }])),
        muted: MaybeConst::new(Arc::from(vec![true])),
        value: MaybeConst::new(Arc::from(vec![7, 8, 9])),
        weight: MaybeConst::new_const(3),
        radius: MaybeConst::new(Arc::from(vec![10, 11])),
    };
    // Only `a` is driven: there is one steps entry.
    tick_event(&mut nodes, &[key_bits(a), key_bits(b)], &[steps.clone()], 1);
    let n = nodes.get(a).unwrap();
    assert_eq!(n.location, Vec3Bits { x: 2, y: 2, z: 2 });
    assert!(!n.muted, "no mute at tick 1 keeps the mute");
    assert_eq!(n.radius_bits, 11);
    assert_eq!(n.slots, vec![SlotState { muted: true, source: InputType::Weight, layer: InputLayer::Gate, weight_bits: 1, value_bits: 8 }, slot]);
    assert_eq!(nodes.get(b), Some(node.clone()));
    // Past every list nothing changes; a key with no node is passed over.
    tick_event(&mut nodes, &[key_bits(a)], &[steps.clone()], 5);
    assert_eq!(nodes.get(a).unwrap().radius_bits, 11);
    tick_event(&mut nodes, &[key_bits(NodeKey { idx: 77, version: 1 })], &[steps], 0);
    assert_eq!(nodes.get(b), Some(node));
}

fn default_node() -> InputNodeState {
    let slot = SlotState {
        muted: false,
        source: InputType::Weight,
        layer: InputLayer::Additive,
        weight_bits: 1.0f32.to_bits(),
        value_bits: 0,
    };
    InputNodeState {
        location: Vec3Bits { x: 0.0f32.to_bits(), y: 1.0f32.to_bits(), z: 0.0f32.to_bits() },
        groups: NodeGroup::from_bits_retain(ALL),
        layer: InterpolationLayer::Default,
        slots: vec![slot],
        radius_bits: 1.0f32.to_bits(),
        muted: false,
    }
}

#[test]
fn map_simple() {
    let map = EventMap::new(15);
    let state = map.snapshot();
    assert_eq!(state.active_events.len(), 0);
    assert_eq!(state.event_durations.len(), 0);
    assert_eq!(state.input_nodes.len(), 0);
}

#[test]
fn map_add_node() {
    let mut map = EventMap::new(15);
    assert!(map.snapshot().input_nodes.len() == 0);
    let key = map.nodes.register(default_node());
    let state = map.snapshot();
    let nodes = &state.input_nodes;
    let _ = nodes.get(key).unwrap();
    assert!(nodes.active_streaming.contains(&key_bits(key)));
}

#[test]
fn map_mutate_node() {
    let mut map = EventMap::new(15);
    let key = map.nodes.register(default_node());
    let def_node = default_node();
    let muted = !def_node.muted;
    let pos = Vec3Bits { x: 1.0f32.to_bits(), y: 0.0f32.to_bits(), z: 0.0f32.to_bits() };
    let rad = (f32::from_bits(def_node.radius_bits) / 2.).to_bits();
    assert!(map.nodes.apply_update(BatchUpdateMsg::Node { key, muted, location: pos, radius_bits: rad }));
    let state = map.snapshot();
    let node = state.input_nodes.get(key).unwrap();
    assert_eq!(node.muted, muted);
    assert_eq!(node.radius_bits, rad);
    assert_eq!(node.location, pos);
}

#[test]
fn map_mutate_slot() {
    let mut map = EventMap::new(15);
    let key = map.nodes.register(default_node());
    let def_node = default_node();
    let def_slot = def_node.slots.first().unwrap();
    let val = 1.0f32;
    let muted = !def_slot.muted;
    let weight = 0.5f32;
    let slot = SlotKey::new(key, 0);
    assert!(map.nodes.apply_update(BatchUpdateMsg::Slot {
        key: slot,
        value_bits: val.to_bits(),
        weight_bits: weight.to_bits(),
        muted
    }));
    let state = map.snapshot();
    let node = state.input_nodes.get(key).unwrap();
    let slot = node.slots.first().unwrap();
    assert_eq!(f32::from_bits(slot.value_bits), val);
    assert_eq!(f32::from_bits(slot.weight_bits), weight);
    assert_eq!(slot.muted, muted);
}

#[test]
fn nodes_without_slots_register_too() {
    let mut map = EventMap::new(15);
    let mut node = default_node();
    node.slots.clear();
    let key = map.nodes.register(node.clone());
    assert_eq!(map.nodes.get(key), Some(node));
    assert!(!map.nodes.apply_update(BatchUpdateMsg::SlotField { key: SlotKey::new(key, 0), field: SlotField::Muted(true) }));
}
