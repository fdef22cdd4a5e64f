//! The node store of the input map: a slot map of input nodes, the nodes
//! that each running event instance owns, and the nodes that stream from
//! outside.
use vstd::prelude::*;

use slotmap::{DefaultKey, Key, KeyData, SlotMap};


use crate::mapping::event::{is_seed_node, seed_node, steps_ready, MaybeConst, Steps};
use crate::haptic::mapping::Vec3Bits;
use crate::mapping::input_node::{InputNodeState, SlotKey, SlotState};
use crate::mapping::NodeKey;

verus! {

/// A `slotmap::SlotMap` of input nodes under `slotmap::DefaultKey`, seen
/// through its entries only.
#[verifier::external_body]
#[derive(Debug)]
pub struct NodeSlots {
    map: SlotMap<DefaultKey, InputNodeState>,
}

/// The entries of a node slot map, each under the 64-bit form of its key
/// (`KeyData::as_ffi`: the version in the high half, the index in the low).
pub uninterp spec fn store_entries(m: NodeSlots) -> Map<u64, InputNodeState>;

/// The bit that every key of a slot map has set: the low bit of its version.
pub open spec fn key_form(x: u64) -> u64 {
    x | 0x1_0000_0000
}

/// A slot map with nothing in it.
pub open spec fn no_entries() -> Map<u64, InputNodeState> {
    Map::empty()
}

/// `SlotMap::new`: a map with no entries.
#[verifier::external_body]
fn store_new() -> (res: NodeSlots)
    ensures
        store_entries(res) == no_entries(),
{
    NodeSlots { map: SlotMap::new() }
}

/// `SlotMap::len`: the count of entries.
#[verifier::external_body]
fn store_len(m: &NodeSlots) -> (res: usize)
    requires
        store_entries(*m).dom().finite(),
    ensures
        res == store_entries(*m).dom().len(),
{
    m.map.len()
}

/// `SlotMap::insert`, then `as_ffi` of the key: the value goes under a key
/// that no entry had, whose version is odd. The map panics only when it holds
/// `u32::MAX - 1` entries.
#[verifier::external_body]
fn store_insert(m: &mut NodeSlots, v: InputNodeState) -> (res: u64)
    requires
        store_entries(*old(m)).dom().finite(),
        store_entries(*old(m)).dom().len() < u32::MAX - 1,
    ensures
        !store_entries(*old(m)).dom().contains(res),
        key_form(res) == res,
        store_entries(*final(m)) == store_entries(*old(m)).insert(res, v),
{
    m.map.insert(v).data().as_ffi()
}

/// `SlotMap::remove` of `KeyData::from_ffi(x)`: that key is `x` with the low
/// bit of its version set; its entry, if there is one, leaves and is returned.
#[verifier::external_body]
fn store_remove(m: &mut NodeSlots, x: u64) -> (res: Option<InputNodeState>)
    ensures
        res == (if store_entries(*old(m)).dom().contains(key_form(x)) {
            Some(store_entries(*old(m))[key_form(x)])
        } else {
            None
        }),
        store_entries(*final(m)) == store_entries(*old(m)).remove(key_form(x)),
{
    m.map.remove(KeyData::from_ffi(x).into())
}

/// `SlotMap::get` of `KeyData::from_ffi(x)`, cloned: the entry under `x`
/// with the low bit of its version set, if there is one.
#[verifier::external_body]
fn store_get(m: &NodeSlots, x: u64) -> (res: Option<InputNodeState>)
    ensures
        res == (if store_entries(*m).dom().contains(key_form(x)) {
            Some(store_entries(*m)[key_form(x)])
        } else {
            None
        }),
{
    m.map.get(KeyData::from_ffi(x).into()).cloned()
}

/// `SlotMap::get_mut` of `KeyData::from_ffi(x)`, then a write through it:
/// the entry under `x` with the low bit of its version set, if there is one,
/// becomes `v`; `false`, and no change, when there is none.
#[verifier::external_body]
fn store_replace(m: &mut NodeSlots, x: u64, v: InputNodeState) -> (res: bool)
    ensures
        res == store_entries(*old(m)).dom().contains(key_form(x)),
        res ==> store_entries(*final(m)) == store_entries(*old(m)).insert(key_form(x), v),
        !res ==> store_entries(*final(m)) == store_entries(*old(m)),
{
    match m.map.get_mut(KeyData::from_ffi(x).into()) {
        Some(slot) => {
            *slot = v;
            true
        },
        None => false,
    }
}

/// `SlotMap::clone`: a map with the same entries under the same keys.
#[verifier::external_body]
fn store_clone(m: &NodeSlots) -> (res: NodeSlots)
    ensures
        store_entries(res) == store_entries(*m),
{
    NodeSlots { map: m.map.clone() }
}

/// `SlotMap::clear`: every entry leaves.
#[verifier::external_body]
fn store_clear(m: &mut NodeSlots)
    ensures
        store_entries(*final(m)) == no_entries(),
{
    m.map.clear()
}

/// The key of the input map that the 64-bit form of a slot map key stands
/// for.
pub open spec fn spec_node_key(x: u64) -> NodeKey {
    NodeKey { idx: (x & 0xffff_ffff) as u32, version: (x >> 32) as u32 }
}

/// The 64-bit form of a node key.
pub open spec fn spec_key_bits(k: NodeKey) -> u64 {
    ((k.version as u64) << 32) | (k.idx as u64)
}

/// The node key of a 64-bit key form.
pub fn node_key(x: u64) -> (res: NodeKey)
    ensures
        res == spec_node_key(x),
        spec_key_bits(res) == x,
{
    let k = NodeKey { idx: (x & 0xffff_ffff) as u32, version: (x >> 32) as u32 };
    assert((((x >> 32) as u32 as u64) << 32) | ((x & 0xffff_ffff) as u32 as u64) == x) by (bit_vector);
    k
}

/// The 64-bit form of a node key.
pub fn key_bits(k: NodeKey) -> (res: u64)
    ensures
        res == spec_key_bits(k),
        spec_node_key(res) == k,
{
    let idx = k.idx;
    let version = k.version;
    assert(((((version as u64) << 32) | (idx as u64)) & 0xffff_ffff) as u32 == idx) by (bit_vector);
    assert(((((version as u64) << 32) | (idx as u64)) >> 32) as u32 == version) by (bit_vector);
    ((version as u64) << 32) | (idx as u64)
}

/// The map after the keys of `keys` leave it, one after another.
pub open spec fn removed_all(m: Map<u64, InputNodeState>, keys: Seq<u64>, n: int) -> Map<u64, InputNodeState>
    decreases n,
{
    if n <= 0 {
        m
    } else {
        removed_all(m, keys, n - 1).remove(key_form(keys[n - 1]))
    }
}

/// The position of the entry of instance `id`, or -1: ids are unique, so
/// there is at most one.
pub open spec fn id_index(t: Seq<(usize, Vec<u64>)>, id: usize) -> int {
    if exists|i: int| 0 <= i < t.len() && #[trigger] t[i].0 == id {
        choose|i: int| 0 <= i < t.len() && #[trigger] t[i].0 == id
    } else {
        -1
    }
}

/// The instance ids that own nodes, in order.
pub open spec fn owner_ids(t: Seq<(usize, Vec<u64>)>) -> Seq<usize> {
    t.map_values(|e: (usize, Vec<u64>)| e.0)
}

/// The owner lists and the nodes after instance `id` drops its nodes.
pub open spec fn spec_drop(t: Seq<(usize, Vec<u64>)>, e: Map<u64, InputNodeState>, id: usize) -> (
    Seq<(usize, Vec<u64>)>,
    Map<u64, InputNodeState>,
) {
    let i = id_index(t, id);
    if i < 0 {
        (t, e)
    } else {
        (t.remove(i), removed_all(e, t[i].1@, t[i].1@.len() as int))
    }
}

/// The owner lists and the nodes after the first `n` ids of `ids` drop
/// their nodes, in order.
pub open spec fn spec_drop_all(t: Seq<(usize, Vec<u64>)>, e: Map<u64, InputNodeState>, ids: Seq<usize>, n: int) -> (
    Seq<(usize, Vec<u64>)>,
    Map<u64, InputNodeState>,
)
    decreases n,
{
    if n <= 0 {
        (t, e)
    } else {
        let p = spec_drop_all(t, e, ids, n - 1);
        spec_drop(p.0, p.1, ids[n - 1])
    }
}

/// No two owner lists belong to one instance.
pub open spec fn owners_distinct(t: Seq<(usize, Vec<u64>)>) -> bool {
    forall|i: int, j: int| 0 <= i < j < t.len() ==> #[trigger] t[i].0 != #[trigger] t[j].0
}

/// `after` is `before` once instance `id` has started one node per steps
/// entry: each under a fresh key with the form of a slot map key, seeded
/// from the first tick, and the keys kept under `id`; nothing else changes.
pub open spec fn started_nodes(before: Nodes, after: Nodes, id: usize, frames: Seq<Steps>) -> bool {
    let keys = after.transient@.last().1@;
    &&& after.active_streaming@ == before.active_streaming@
    &&& after.transient@.len() == before.transient@.len() + 1
    &&& after.transient@.drop_last() == before.transient@
    &&& after.transient@.last().0 == id
    &&& keys.len() == frames.len()
    &&& forall|i: int, j: int| 0 <= i < j < keys.len() ==> keys[i] != keys[j]
    &&& forall|i: int| 0 <= i < keys.len() ==> key_form(#[trigger] keys[i]) == keys[i]
    &&& forall|i: int| 0 <= i < keys.len() ==> !before.entries().dom().contains(#[trigger] keys[i])
    &&& forall|k: u64|
        #[trigger] after.entries().dom().contains(k) <==> (before.entries().dom().contains(k) || keys.contains(k))
    &&& forall|k: u64| #[trigger] before.entries().dom().contains(k) ==> after.entries()[k] == before.entries()[k]
    &&& forall|i: int| 0 <= i < keys.len() ==> is_seed_node(after.entries()[#[trigger] keys[i]], frames[i])
}

/// A new value for one field of a node.
#[derive(Debug, Clone, Copy, PartialEq, Eq)]
pub enum NodeField {
    Muted(bool),
    Location(Vec3Bits),
    Radius(u32),
}

/// A new value for one field of a slot.
#[derive(Debug, Clone, Copy, PartialEq, Eq)]
pub enum SlotField {
    Value(u32),
    Weight(u32),
    Muted(bool),
}

/// One update of a node, or of one slot of a node; floats as `f32` bits.
#[derive(Debug, Clone, Copy, PartialEq, Eq)]
pub enum BatchUpdateMsg {
    Node { key: NodeKey, muted: bool, location: Vec3Bits, radius_bits: u32 },
    Slot { key: SlotKey, value_bits: u32, weight_bits: u32, muted: bool },
    NodeField { key: NodeKey, field: NodeField },
    SlotField { key: SlotKey, field: SlotField },
}

/// The node that an update is for.
pub open spec fn update_target(u: BatchUpdateMsg) -> NodeKey {
    match u {
        BatchUpdateMsg::Node { key, .. } => key,
        BatchUpdateMsg::Slot { key, .. } => key.node,
        BatchUpdateMsg::NodeField { key, .. } => key,
        BatchUpdateMsg::SlotField { key, .. } => key.node,
    }
}

/// An update for a slot needs the node to have that slot.
pub open spec fn update_fits(n: InputNodeState, u: BatchUpdateMsg) -> bool {
    match u {
        BatchUpdateMsg::Slot { key, .. } => (key.slot_idx as int) < n.slots@.len(),
        BatchUpdateMsg::SlotField { key, .. } => (key.slot_idx as int) < n.slots@.len(),
        _ => true,
    }
}

/// A slot with one field set.
pub open spec fn slot_with(s: SlotState, f: SlotField) -> SlotState {
    match f {
        SlotField::Value(v) => SlotState { value_bits: v, ..s },
        SlotField::Weight(w) => SlotState { weight_bits: w, ..s },
        SlotField::Muted(m) => SlotState { muted: m, ..s },
    }
}

/// `after` is `before` with the update applied: a whole-node update sets the
/// mute, the location and the radius; a whole-slot update sets the slot's
/// mute, weight and latest value; a field update sets that field; nothing
/// else changes.
pub open spec fn node_updated(before: InputNodeState, after: InputNodeState, u: BatchUpdateMsg) -> bool {
    &&& after.groups == before.groups
    &&& after.layer == before.layer
    &&& match u {
        BatchUpdateMsg::Node { muted, location, radius_bits, .. } => {
            &&& after.muted == muted
            &&& after.location == location
            &&& after.radius_bits == radius_bits
            &&& after.slots@ == before.slots@
        },
        BatchUpdateMsg::Slot { key, value_bits, weight_bits, muted } => {
            &&& after.muted == before.muted
            &&& after.location == before.location
            &&& after.radius_bits == before.radius_bits
            &&& after.slots@ == before.slots@.update(
                key.slot_idx as int,
                SlotState { muted, weight_bits, value_bits, ..before.slots@[key.slot_idx as int] },
            )
        },
        BatchUpdateMsg::NodeField { field, .. } => {
            &&& after.slots@ == before.slots@
            &&& after.muted == (match field {
                NodeField::Muted(m) => m,
                _ => before.muted,
            })
            &&& after.location == (match field {
                NodeField::Location(l) => l,
                _ => before.location,
            })
            &&& after.radius_bits == (match field {
                NodeField::Radius(r) => r,
                _ => before.radius_bits,
            })
        },
        BatchUpdateMsg::SlotField { key, field } => {
            &&& after.muted == before.muted
            &&& after.location == before.location
            &&& after.radius_bits == before.radius_bits
            &&& after.slots@ == before.slots@.update(key.slot_idx as int, slot_with(before.slots@[key.slot_idx as int], field))
        },
    }
}

/// Every key that an event instance owns has the form of a slot map key and
/// holds a node with a first slot, which playback drives; no key is owned
/// twice.
pub open spec fn owned_ok(t: Seq<(usize, Vec<u64>)>, e: Map<u64, InputNodeState>) -> bool {
    &&& forall|i: int, j: int|
        0 <= i < t.len() && 0 <= j < t[i].1@.len() ==> {
            let k = #[trigger] t[i].1@[j];
            &&& key_form(k) == k
            &&& e.dom().contains(k)
            &&& e[k].slots@.len() >= 1
        }
    &&& forall|i1: int, j1: int, i2: int, j2: int|
        0 <= i1 < t.len() && 0 <= j1 < t[i1].1@.len() && 0 <= i2 < t.len() && 0 <= j2 < t[i2].1@.len() && (i1
            != i2 || j1 != j2) ==> #[trigger] t[i1].1@[j1] != #[trigger] t[i2].1@[j2]
}

/// A first slot is needed where steps `s` set the weight or the value at
/// tick `t`.
pub open spec fn sets_slot(s: Steps, t: int) -> bool {
    value_at(s.weight, t) is Some || value_at(s.value, t) is Some
}

/// What event playback reads and writes of a node: its location, mute,
/// radius and slots.
pub open spec fn node_fields(n: InputNodeState) -> (Vec3Bits, bool, u32, Seq<SlotState>) {
    (n.location, n.muted, n.radius_bits, n.slots@)
}

/// The playback fields of every node.
pub open spec fn fields_of(e: Map<u64, InputNodeState>) -> Map<u64, (Vec3Bits, bool, u32, Seq<SlotState>)> {
    e.map_values(|n: InputNodeState| node_fields(n))
}

/// The value of tick `t` of a per-tick list; a constant has none, and
/// neither has a tick past the end.
pub open spec fn value_at<T: Clone>(m: MaybeConst<T>, t: int) -> Option<T> {
    match m {
        MaybeConst::Const(_) => None,
        MaybeConst::Var(l) => if 0 <= t < l@.len() {
            Some(l@[t])
        } else {
            None
        },
    }
}

/// The value, or `d` when there is none.
pub open spec fn or_keep<T>(o: Option<T>, d: T) -> T {
    match o {
        Some(v) => v,
        None => d,
    }
}

/// A node's playback fields after one tick of its steps, `t` ticks after the
/// event started: each field that the steps hold at `t` is set, the weight
/// and the value in the first slot.
pub open spec fn ticked_fields(f: (Vec3Bits, bool, u32, Seq<SlotState>), s: Steps, t: int) -> (
    Vec3Bits,
    bool,
    u32,
    Seq<SlotState>,
) {
    let slot = f.3[0];
    let slot2 = SlotState {
        weight_bits: or_keep(value_at(s.weight, t), slot.weight_bits),
        value_bits: or_keep(value_at(s.value, t), slot.value_bits),
        ..slot
    };
    (
        or_keep(value_at(s.position, t), f.0),
        or_keep(value_at(s.muted, t), f.1),
        or_keep(value_at(s.radius, t), f.2),
        if sets_slot(s, t) {
            f.3.update(0, slot2)
        } else {
            f.3
        },
    )
}

/// The playback fields after steps `0..n` each drive the node under the key
/// of the same index, in order; a key that holds no node is passed over.
pub open spec fn played(
    m: Map<u64, (Vec3Bits, bool, u32, Seq<SlotState>)>,
    keys: Seq<u64>,
    frames: Seq<Steps>,
    t: int,
    n: int,
) -> Map<u64, (Vec3Bits, bool, u32, Seq<SlotState>)>
    decreases n,
{
    if n <= 0 {
        m
    } else {
        let p = played(m, keys, frames, t, n - 1);
        let k = key_form(keys[n - 1]);
        if p.dom().contains(k) {
            p.insert(k, ticked_fields(p[k], frames[n - 1], t))
        } else {
            p
        }
    }
}

/// The value of tick `t` of a per-tick list.
fn value_at_tick<T: Copy>(m: &MaybeConst<T>, t: u64) -> (res: Option<T>)
    ensures
        res == value_at(*m, t as int),
{
    match m {
        MaybeConst::Const(_) => None,
        MaybeConst::Var(l) => {
            if t < l.len() as u64 {
                Some(l[t as usize])
            } else {
                None
            }
        },
    }
}

/// Plays one tick of an event onto its nodes: the steps of index `i` drive
/// the node under `keys[i]`, for each `i` below both lengths, with the values
/// that they hold `since_start` ticks after the start. A key that holds no
/// node is passed over; no other node changes. A node whose weight or value
/// the steps set needs a first slot.
pub fn tick_event(nodes: &mut Nodes, keys: &[u64], frames: &[Steps], since_start: u64)
    requires
        old(nodes).wf(),
        forall|i: int|
            0 <= i < keys@.len() && 0 <= i < frames@.len() && old(nodes).entries().dom().contains(
                key_form(#[trigger] keys@[i]),
            ) && sets_slot(frames@[i], since_start as int) ==> old(nodes).entries()[key_form(keys@[i])].slots@.len()
                >= 1,
    ensures
        final(nodes).wf(),
        final(nodes).transient@ == old(nodes).transient@,
        final(nodes).active_streaming@ == old(nodes).active_streaming@,
        final(nodes).entries().dom() == old(nodes).entries().dom(),
        forall|k: u64|
            #[trigger] old(nodes).entries().dom().contains(k) ==> final(nodes).entries()[k].groups == old(
                nodes,
            ).entries()[k].groups && final(nodes).entries()[k].layer == old(nodes).entries()[k].layer
                && final(nodes).entries()[k].slots@.len() == old(nodes).entries()[k].slots@.len(),
        fields_of(final(nodes).entries()) == played(
            fields_of(old(nodes).entries()),
            keys@,
            frames@,
            since_start as int,
            if keys@.len() < frames@.len() { keys@.len() as int } else { frames@.len() as int },
        ),
{
    let n = if keys.len() < frames.len() { keys.len() } else { frames.len() };
    let ghost e0 = nodes.entries();
    let mut i: usize = 0;
    while i < n
        invariant
            i <= n,
            n <= keys@.len(),
            n <= frames@.len(),
            nodes.wf(),
            nodes.transient@ == old(nodes).transient@,
            nodes.active_streaming@ == old(nodes).active_streaming@,
            e0 == old(nodes).entries(),
            nodes.entries().dom() == e0.dom(),
            forall|i: int|
                0 <= i < keys@.len() && 0 <= i < frames@.len() && e0.dom().contains(key_form(#[trigger] keys@[i]))
                    && sets_slot(frames@[i], since_start as int) ==> e0[key_form(keys@[i])].slots@.len() >= 1,
            forall|k: u64|
                #[trigger] e0.dom().contains(k) ==> nodes.entries()[k].groups == e0[k].groups
                    && nodes.entries()[k].layer == e0[k].layer && nodes.entries()[k].slots@.len()
                    == e0[k].slots@.len(),
            fields_of(nodes.entries()) == played(fields_of(e0), keys@, frames@, since_start as int, i as int),
        decreases n - i,
    {
        let x = keys[i];
        let ghost before = nodes.entries();
        match store_get(&nodes.nodes, x) {
            None => {
                assert(!fields_of(before).dom().contains(key_form(x)));
            },
            Some(node) => {
                let steps = &frames[i];
                let ghost k = key_form(x);
                let mut node = node;
                match value_at_tick(&steps.muted, since_start) {
                    Some(m) => {
                        node.muted = m;
                    },
                    None => {},
                }
                match value_at_tick(&steps.position, since_start) {
                    Some(p) => {
                        node.location = p;
                    },
                    None => {},
                }
                match value_at_tick(&steps.radius, since_start) {
                    Some(r) => {
                        node.radius_bits = r;
                    },
                    None => {},
                }
                let weight = value_at_tick(&steps.weight, since_start);
                let value = value_at_tick(&steps.value, since_start);
                if weight.is_some() || value.is_some() {
                    assert(e0.dom().contains(key_form(keys@[i as int])));
                    let mut slot = node.slots[0];
                    match weight {
                        Some(w) => {
                            slot.weight_bits = w;
                        },
                        None => {},
                    }
                    match value {
                        Some(v) => {
                            slot.value_bits = v;
                        },
                        None => {},
                    }
                    node.slots.set(0, slot);
                }
                assert(node_fields(node) == ticked_fields(fields_of(before)[k], frames@[i as int], since_start as int));
                let _ = store_replace(&mut nodes.nodes, x, node);
                proof {
                    assert(fields_of(nodes.entries()) =~= fields_of(before).insert(k, node_fields(node)));
                    assert(nodes.entries().dom() =~= before.dom());
                    let t = nodes.transient@;
                    assert forall|a: int, b: int| 0 <= a < t.len() && 0 <= b < t[a].1@.len() implies {
                        let kk = #[trigger] t[a].1@[b];
                        &&& key_form(kk) == kk
                        &&& nodes.entries().dom().contains(kk)
                        &&& nodes.entries()[kk].slots@.len() >= 1
                    } by {
                        let kk = t[a].1@[b];
                        assert(before.dom().contains(kk));
                        if kk != k {
                            assert(nodes.entries()[kk] == before[kk]);
                        }
                    }
                }
            },
        }
        i += 1;
    }
}

/// The nodes of the input map.
#[derive(Debug)]
pub struct Nodes {
    /// The nodes that each running event instance owns, by instance id.
    pub transient: Vec<(usize, Vec<u64>)>,
    /// Every node, by key.
    pub nodes: NodeSlots,
    /// The nodes that stream from outside.
    pub active_streaming: Vec<u64>,
}

impl Nodes {
    /// The nodes by the 64-bit form of their keys.
    pub open spec fn entries(&self) -> Map<u64, InputNodeState> {
        store_entries(self.nodes)
    }

    /// The store holds finitely many nodes, and each instance id owns one
    /// list of keys.
    pub open spec fn wf(&self) -> bool {
        &&& self.entries().dom().finite()
        &&& owners_distinct(self.transient@)
        &&& owned_ok(self.transient@, self.entries())
    }

    /// A store with no nodes.
    pub fn new() -> (res: Self)
        ensures
            res.wf(),
            res.entries() == Map::<u64, InputNodeState>::empty(),
            res.transient@ == Seq::<(usize, Vec<u64>)>::empty(),
            res.active_streaming@ == Seq::<u64>::empty(),
    {
        Nodes { transient: Vec::new(), nodes: store_new(), active_streaming: Vec::new() }
    }

    /// The count of nodes.
    pub fn len(&self) -> (res: usize)
        requires
            self.wf(),
        ensures
            res == self.entries().dom().len(),
    {
        store_len(&self.nodes)
    }

    /// The node under a key, if the store holds one there.
    pub fn get(&self, key: NodeKey) -> (res: Option<InputNodeState>)
        ensures
            res == (if self.entries().dom().contains(key_form(spec_key_bits(key))) {
                Some(self.entries()[key_form(spec_key_bits(key))])
            } else {
                None
            }),
    {
        store_get(&self.nodes, key_bits(key))
    }

    /// There is room for `more` nodes: the slot map holds fewer than
    /// `u32::MAX - 1` entries afterwards.
    pub fn has_room(&self, more: usize) -> (res: bool)
        requires
            self.wf(),
        ensures
            res == (self.entries().dom().len() + more < u32::MAX - 1),
    {
        let n = store_len(&self.nodes);
        match n.checked_add(more) {
            Some(t) => t < (u32::MAX - 1) as usize,
            None => false,
        }
    }

    /// Adds a node that streams from outside; its key is fresh.
    pub fn register(&mut self, node: InputNodeState) -> (res: NodeKey)
        requires
            old(self).wf(),
            old(self).entries().dom().len() < u32::MAX - 1,
        ensures
            final(self).wf(),
            !old(self).entries().dom().contains(spec_key_bits(res)),
            key_form(spec_key_bits(res)) == spec_key_bits(res),
            final(self).entries() == old(self).entries().insert(spec_key_bits(res), node),
            final(self).active_streaming@ == old(self).active_streaming@.push(spec_key_bits(res)),
            final(self).transient@ == old(self).transient@,
    {
        let x = store_insert(&mut self.nodes, node);
        self.active_streaming.push(x);
        node_key(x)
    }

    /// Starts the nodes of event instance `id`: one node per steps entry, in
    /// order, seeded from the first tick, each under a fresh key; the keys
    /// are kept under `id`.
    pub fn start_instance(&mut self, id: usize, frames: &[Steps])
        requires
            old(self).wf(),
            old(self).entries().dom().len() + frames@.len() < u32::MAX - 1,
            !owner_ids(old(self).transient@).contains(id),
            forall|i: int| 0 <= i < frames@.len() ==> steps_ready(#[trigger] frames@[i]),
        ensures
            final(self).wf(),
            final(self).active_streaming@ == old(self).active_streaming@,
            started_nodes(*old(self), *final(self), id, frames@),
    {
        let ghost m0 = self.entries();
        let mut keys: Vec<u64> = Vec::new();
        let mut i: usize = 0;
        while i < frames.len()
            invariant
                i <= frames@.len(),
                old(self).wf(),
                old(self).entries().dom().len() + frames@.len() < u32::MAX - 1,
                forall|i: int| 0 <= i < frames@.len() ==> steps_ready(#[trigger] frames@[i]),
                m0 == old(self).entries(),
                self.transient@ == old(self).transient@,
                self.active_streaming@ == old(self).active_streaming@,
                self.entries().dom().finite(),
                self.entries().dom().len() == m0.dom().len() + i,
                keys@.len() == i,
                forall|a: int, b: int| 0 <= a < b < keys@.len() ==> keys@[a] != keys@[b],
                forall|a: int| 0 <= a < keys@.len() ==> key_form(#[trigger] keys@[a]) == keys@[a],
                forall|a: int| 0 <= a < keys@.len() ==> !m0.dom().contains(#[trigger] keys@[a]),
                forall|k: u64| #[trigger] self.entries().dom().contains(k) <==> (m0.dom().contains(k) || keys@.contains(k)),
                forall|k: u64| #[trigger] m0.dom().contains(k) ==> self.entries()[k] == m0[k],
                forall|a: int| 0 <= a < keys@.len() ==> is_seed_node(self.entries()[#[trigger] keys@[a]], frames@[a]),
            decreases frames@.len() - i,
        {
            let node = seed_node(&frames[i]);
            let ghost before = self.entries();
            let ghost old_keys = keys@;
            let x = store_insert(&mut self.nodes, node);
            proof {
                assert forall|a: int| 0 <= a < keys@.len() implies keys@[a] != x by {
                    assert(before.dom().contains(keys@[a]));
                }
            }
            keys.push(x);
            proof {
                assert forall|k: u64| #[trigger] self.entries().dom().contains(k) <==> (m0.dom().contains(k)
                    || keys@.contains(k)) by {
                    if old_keys.contains(k) {
                        let a = choose|a: int| 0 <= a < old_keys.len() && old_keys[a] == k;
                        assert(keys@[a] == k);
                    }
                    if keys@.contains(k) && k != x {
                        let a = choose|a: int| 0 <= a < keys@.len() && keys@[a] == k;
                        assert(a < old_keys.len());
                        assert(old_keys[a] == k);
                    }
                    if k == x {
                        assert(keys@[keys@.len() - 1] == x);
                    }
                }
            }
            i += 1;
        }
        self.transient.push((id, keys));
        proof {
            assert forall|a: int, b: int|
                0 <= a < b < self.transient@.len() implies #[trigger] self.transient@[a].0
                != #[trigger] self.transient@[b].0 by {
                if b == self.transient@.len() - 1 {
                    assert(owner_ids(old(self).transient@)[a] == self.transient@[a].0);
                }
            }
            assert(self.transient@.drop_last() =~= old(self).transient@);
        }
    }

    /// Ends the nodes of event instance `id`: its keys are forgotten and its
    /// nodes leave the store. Nothing changes when `id` owns no nodes.
    pub fn drop_instance(&mut self, id: usize)
        requires
            old(self).wf(),
        ensures
            final(self).wf(),
            final(self).active_streaming@ == old(self).active_streaming@,
            (final(self).transient@, final(self).entries()) == spec_drop(old(self).transient@, old(self).entries(), id),
            ({
                let i = id_index(old(self).transient@, id);
                if i < 0 {
                    &&& final(self).transient@ == old(self).transient@
                    &&& final(self).entries() == old(self).entries()
                } else {
                    let keys = old(self).transient@[i].1@;
                    &&& final(self).transient@ == old(self).transient@.remove(i)
                    &&& final(self).entries() == removed_all(old(self).entries(), keys, keys.len() as int)
                }
            }),
    {
        let mut i: usize = 0;
        while i < self.transient.len()
            invariant
                i <= self.transient@.len(),
                *self == *old(self),
                forall|k: int| 0 <= k < i ==> #[trigger] self.transient@[k].0 != id,
            ensures
                i <= self.transient@.len(),
                *self == *old(self),
                forall|k: int| 0 <= k < i ==> #[trigger] self.transient@[k].0 != id,
                i < self.transient@.len() ==> self.transient@[i as int].0 == id,
            decreases self.transient@.len() - i,
        {
            if self.transient[i].0 == id {
                break;
            }
            i += 1;
        }
        if i == self.transient.len() {
            assert(id_index(old(self).transient@, id) == -1);
            return;
        }
        proof {
            let j = id_index(old(self).transient@, id);
            assert(old(self).transient@[i as int].0 == id);
            assert(0 <= j < old(self).transient@.len() && old(self).transient@[j].0 == id);
            if j != i as int {
                if j < i {
                    assert(self.transient@[j].0 != id);
                } else {
                    assert(old(self).transient@[i as int].0 != old(self).transient@[j].0);
                }
            }
        }
        let entry = self.transient.remove(i);
        let keys = entry.1;
        let mut k: usize = 0;
        while k < keys.len()
            invariant
                k <= keys@.len(),
                self.entries() == removed_all(old(self).entries(), keys@, k as int),
                self.entries().dom().finite(),
                self.transient@ == old(self).transient@.remove(i as int),
                self.active_streaming@ == old(self).active_streaming@,
                old(self).wf(),
            decreases keys@.len() - k,
        {
            let _ = store_remove(&mut self.nodes, keys[k]);
            k += 1;
        }
        proof {
            assert forall|a: int, b: int|
                0 <= a < b < self.transient@.len() implies #[trigger] self.transient@[a].0
                != #[trigger] self.transient@[b].0 by {
                let t = old(self).transient@;
                if a < i {
                    if b < i {
                        assert(t[a].0 != t[b].0);
                    } else {
                        assert(t[a].0 != t[b + 1].0);
                    }
                } else {
                    assert(t[a + 1].0 != t[b + 1].0);
                }
            }
            lemma_removed_all_gone(old(self).entries(), keys@, keys@.len() as int);
            let t = old(self).transient@;
            let t2 = self.transient@;
            let e0 = old(self).entries();
            assert(keys@ == t[i as int].1@);
            assert forall|a: int, b: int| 0 <= a < t2.len() && 0 <= b < t2[a].1@.len() implies {
                let kk = #[trigger] t2[a].1@[b];
                &&& key_form(kk) == kk
                &&& self.entries().dom().contains(kk)
                &&& self.entries()[kk].slots@.len() >= 1
            } by {
                let a2 = if a < i { a } else { a + 1 };
                assert(t2[a] == t[a2]);
                let kk = t[a2].1@[b];
                assert(e0.dom().contains(kk));
                assert forall|j: int| 0 <= j < keys@.len() implies key_form(#[trigger] keys@[j]) != kk by {
                    assert(t[i as int].1@[j] != t[a2].1@[b]);
                    assert(key_form(t[i as int].1@[j]) == t[i as int].1@[j]);
                }
                lemma_removed_all_keeps(e0, keys@, keys@.len() as int, kk);
            }
            assert forall|a1: int, b1: int, a2: int, b2: int|
                0 <= a1 < t2.len() && 0 <= b1 < t2[a1].1@.len() && 0 <= a2 < t2.len() && 0 <= b2 < t2[a2].1@.len()
                    && (a1 != a2 || b1 != b2) implies #[trigger] t2[a1].1@[b1] != #[trigger] t2[a2].1@[b2] by {
                let c1 = if a1 < i { a1 } else { a1 + 1 };
                let c2 = if a2 < i { a2 } else { a2 + 1 };
                assert(t2[a1] == t[c1]);
                assert(t2[a2] == t[c2]);
                assert(t[c1].1@[b1] != t[c2].1@[b2]);
            }
        }
    }

    /// Applies one update to the node it is for. `false`, and no change, when
    /// the store holds no such node or the node has no such slot.
    pub fn apply_update(&mut self, u: BatchUpdateMsg) -> (res: bool)
        requires
            old(self).wf(),
        ensures
            final(self).wf(),
            final(self).transient@ == old(self).transient@,
            final(self).active_streaming@ == old(self).active_streaming@,
            ({
                let k = key_form(spec_key_bits(update_target(u)));
                &&& res == (old(self).entries().dom().contains(k) && update_fits(old(self).entries()[k], u))
                &&& res ==> final(self).entries().dom() == old(self).entries().dom() && node_updated(
                    old(self).entries()[k],
                    final(self).entries()[k],
                    u,
                ) && forall|j: u64| j != k ==> #[trigger] final(self).entries().get(j) == old(self).entries().get(j)
                &&& !res ==> final(self).entries() == old(self).entries()
            }),
    {
        let target = match u {
            BatchUpdateMsg::Node { key, .. } => key,
            BatchUpdateMsg::Slot { key, .. } => key.node,
            BatchUpdateMsg::NodeField { key, .. } => key,
            BatchUpdateMsg::SlotField { key, .. } => key.node,
        };
        let x = key_bits(target);
        let mut n = match store_get(&self.nodes, x) {
            Some(n) => n,
            None => return false,
        };
        let ghost before = n;
        match u {
            BatchUpdateMsg::Node { muted, location, radius_bits, .. } => {
                n.muted = muted;
                n.location = location;
                n.radius_bits = radius_bits;
            },
            BatchUpdateMsg::Slot { key, value_bits, weight_bits, muted } => {
                let idx = key.slot_idx as usize;
                if idx >= n.slots.len() {
                    return false;
                }
                let old_slot = n.slots[idx];
                n.slots.set(idx, SlotState { muted, weight_bits, value_bits, ..old_slot });
            },
            BatchUpdateMsg::NodeField { field, .. } => {
                match field {
                    NodeField::Muted(m) => {
                        n.muted = m;
                    },
                    NodeField::Location(l) => {
                        n.location = l;
                    },
                    NodeField::Radius(r) => {
                        n.radius_bits = r;
                    },
                }
            },
            BatchUpdateMsg::SlotField { key, field } => {
                let idx = key.slot_idx as usize;
                if idx >= n.slots.len() {
                    return false;
                }
                let old_slot = n.slots[idx];
                let s = match field {
                    SlotField::Value(v) => SlotState { value_bits: v, ..old_slot },
                    SlotField::Weight(w) => SlotState { weight_bits: w, ..old_slot },
                    SlotField::Muted(m) => SlotState { muted: m, ..old_slot },
                };
                n.slots.set(idx, s);
            },
        }
        assert(node_updated(before, n, u));
        store_replace(&mut self.nodes, x, n)
    }

    /// A copy of the store: the same nodes under the same keys, the same
    /// owner lists and the same streamed keys.
    pub fn copy(&self) -> (res: Nodes)
        requires
            self.wf(),
        ensures
            res.wf(),
            res.entries() == self.entries(),
            res.transient@.len() == self.transient@.len(),
            forall|i: int|
                0 <= i < self.transient@.len() ==> (#[trigger] res.transient@[i]).0 == self.transient@[i].0
                    && res.transient@[i].1@ == self.transient@[i].1@,
            owner_ids(res.transient@) == owner_ids(self.transient@),
            res.active_streaming@ == self.active_streaming@,
    {
        let mut transient: Vec<(usize, Vec<u64>)> = Vec::new();
        let mut i: usize = 0;
        while i < self.transient.len()
            invariant
                i <= self.transient@.len(),
                transient@.len() == i,
                forall|k: int|
                    0 <= k < i ==> (#[trigger] transient@[k]).0 == self.transient@[k].0 && transient@[k].1@
                        == self.transient@[k].1@,
            decreases self.transient@.len() - i,
        {
            let keys = copy_u64s(&self.transient[i].1);
            transient.push((self.transient[i].0, keys));
            i += 1;
        }
        proof {
            assert(owner_ids(transient@) =~= owner_ids(self.transient@));
        }
        Nodes { transient, nodes: store_clone(&self.nodes), active_streaming: copy_u64s(&self.active_streaming) }
    }

    /// Forgets which instance owns which nodes; the nodes stay in the store.
    pub fn clear_transient(&mut self)
        requires
            old(self).wf(),
        ensures
            final(self).wf(),
            final(self).transient@ == Seq::<(usize, Vec<u64>)>::empty(),
            final(self).entries() == old(self).entries(),
            final(self).active_streaming@ == old(self).active_streaming@,
    {
        self.transient = Vec::new();
    }

    /// Removes every node.
    pub fn flush(&mut self)
        ensures
            final(self).wf(),
            final(self).transient@ == Seq::<(usize, Vec<u64>)>::empty(),
            final(self).entries() == Map::<u64, InputNodeState>::empty(),
            final(self).active_streaming@ == Seq::<u64>::empty(),
    {
        self.transient = Vec::new();
        store_clear(&mut self.nodes);
        self.active_streaming = Vec::new();
    }
}

/// Dropping the nodes of `id` takes `id`, and only `id`, out of the owners.
pub proof fn lemma_drop_owners(t: Seq<(usize, Vec<u64>)>, e: Map<u64, InputNodeState>, id: usize)
    requires
        owners_distinct(t),
    ensures
        owners_distinct(spec_drop(t, e, id).0),
        forall|x: usize|
            #[trigger] owner_ids(spec_drop(t, e, id).0).contains(x) <==> (owner_ids(t).contains(x) && x != id),
{
    let i = id_index(t, id);
    let t2 = spec_drop(t, e, id).0;
    if i < 0 {
        assert forall|x: usize| #[trigger] owner_ids(t2).contains(x) implies x != id by {
            let k = choose|k: int| 0 <= k < owner_ids(t2).len() && owner_ids(t2)[k] == x;
            assert(t[k].0 == x);
        }
    } else {
        assert(0 <= i < t.len() && t[i].0 == id);
        assert forall|a: int, b: int| 0 <= a < b < t2.len() implies #[trigger] t2[a].0 != #[trigger] t2[b].0 by {
            if a < i {
                if b < i {
                    assert(t[a].0 != t[b].0);
                } else {
                    assert(t[a].0 != t[b + 1].0);
                }
            } else {
                assert(t[a + 1].0 != t[b + 1].0);
            }
        }
        assert forall|x: usize| #[trigger] owner_ids(t2).contains(x) <==> (owner_ids(t).contains(x) && x != id) by {
            if owner_ids(t2).contains(x) {
                let k = choose|k: int| 0 <= k < owner_ids(t2).len() && owner_ids(t2)[k] == x;
                if k < i {
                    assert(owner_ids(t)[k] == x);
                    assert(t[k].0 != t[i].0);
                } else {
                    assert(owner_ids(t)[k + 1] == x);
                    assert(t[k + 1].0 != t[i].0);
                }
            }
            if owner_ids(t).contains(x) && x != id {
                let k = choose|k: int| 0 <= k < owner_ids(t).len() && owner_ids(t)[k] == x;
                if k < i {
                    assert(owner_ids(t2)[k] == x);
                } else {
                    assert(k != i);
                    assert(owner_ids(t2)[k - 1] == x);
                }
            }
        }
    }
}

/// A registered node reads back: the store after `register` holds the node
/// under the key that `register` handed out, which `get` looks up.
pub proof fn lemma_registered_node_reads_back(e: Map<u64, InputNodeState>, node: InputNodeState, k: NodeKey)
    requires
        key_form(spec_key_bits(k)) == spec_key_bits(k),
    ensures
        e.insert(spec_key_bits(k), node).dom().contains(key_form(spec_key_bits(k))),
        e.insert(spec_key_bits(k), node)[key_form(spec_key_bits(k))] == node,
{
}

/// Once an instance's nodes are dropped, none of its keys holds a node.
pub proof fn lemma_dropped_keys_gone(m: Map<u64, InputNodeState>, keys: Seq<u64>)
    ensures
        forall|i: int| 0 <= i < keys.len() ==> !removed_all(m, keys, keys.len() as int).dom().contains(
            #[trigger] key_form(keys[i]),
        ),
{
    lemma_removed_all_gone(m, keys, keys.len() as int);
}

proof fn lemma_removed_all_gone(m: Map<u64, InputNodeState>, keys: Seq<u64>, n: int)
    requires
        0 <= n <= keys.len(),
    ensures
        forall|i: int| 0 <= i < n ==> !removed_all(m, keys, n).dom().contains(#[trigger] key_form(keys[i])),
        forall|k: u64| #[trigger] removed_all(m, keys, n).dom().contains(k) ==> m.dom().contains(k),
        forall|k: u64| removed_all(m, keys, n).dom().contains(k) ==> #[trigger] removed_all(m, keys, n)[k] == m[k],
    decreases n,
{
    if n > 0 {
        lemma_removed_all_gone(m, keys, n - 1);
        assert forall|k: u64| #[trigger] removed_all(m, keys, n).dom().contains(k) implies m.dom().contains(k) by {
            assert(removed_all(m, keys, n - 1).dom().contains(k));
        }
        assert forall|k: u64| removed_all(m, keys, n).dom().contains(k) implies #[trigger] removed_all(m, keys, n)[k]
            == m[k] by {
            assert(removed_all(m, keys, n - 1).dom().contains(k));
        }
    }
}

/// A key that none of the removed keys stands for keeps its node.
proof fn lemma_removed_all_keeps(m: Map<u64, InputNodeState>, keys: Seq<u64>, n: int, k: u64)
    requires
        0 <= n <= keys.len(),
        m.dom().contains(k),
        forall|j: int| 0 <= j < keys.len() ==> key_form(#[trigger] keys[j]) != k,
    ensures
        removed_all(m, keys, n).dom().contains(k),
        removed_all(m, keys, n)[k] == m[k],
    decreases n,
{
    if n > 0 {
        lemma_removed_all_keeps(m, keys, n - 1, k);
        assert(key_form(keys[n - 1]) != k);
    }
}

/// Each drop only takes nodes out of the store.
proof fn lemma_drop_shrinks(t: Seq<(usize, Vec<u64>)>, e: Map<u64, InputNodeState>, id: usize)
    ensures
        forall|k: u64| #[trigger] spec_drop(t, e, id).1.dom().contains(k) ==> e.dom().contains(k),
{
    let i = id_index(t, id);
    if i >= 0 {
        lemma_removed_all_gone(e, t[i].1@, t[i].1@.len() as int);
    }
}

proof fn lemma_drop_all_step(
    t: Seq<(usize, Vec<u64>)>,
    e: Map<u64, InputNodeState>,
    ids: Seq<usize>,
    i: int,
    k: int,
    n: int,
)
    requires
        owners_distinct(t),
        0 <= i < t.len(),
        0 <= k < t[i].1@.len(),
        0 <= n <= ids.len(),
    ensures
        ({
            let d = spec_drop_all(t, e, ids, n);
            ||| (forall|j: int| 0 <= j < n ==> #[trigger] ids[j] != t[i].0) && d.0.contains(t[i]) && owners_distinct(d.0)
            ||| !d.1.dom().contains(key_form(t[i].1@[k]))
        }),
    decreases n,
{
    if n > 0 {
        lemma_drop_all_step(t, e, ids, i, k, n - 1);
        let d = spec_drop_all(t, e, ids, n - 1);
        let id = ids[n - 1];
        let key = key_form(t[i].1@[k]);
        let first = (forall|j: int| 0 <= j < n - 1 ==> #[trigger] ids[j] != t[i].0) && d.0.contains(t[i])
            && owners_distinct(d.0);
        if first {
            let j = choose|j: int| 0 <= j < d.0.len() && d.0[j] == t[i];
            let x = id_index(d.0, id);
            if id == t[i].0 {
                assert(0 <= j < d.0.len() && d.0[j].0 == id);
                if x != j {
                    assert(d.0[x].0 == id);
                    if x < j {
                        assert(d.0[x].0 != d.0[j].0);
                    } else {
                        assert(d.0[j].0 != d.0[x].0);
                    }
                }
                lemma_removed_all_gone(d.1, t[i].1@, t[i].1@.len() as int);
            } else {
                lemma_drop_owners(d.0, d.1, id);
                let d2 = spec_drop(d.0, d.1, id).0;
                if x >= 0 {
                    assert(d.0[x].0 == id);
                    if j < x {
                        assert(d2[j] == t[i]);
                    } else {
                        assert(d2[j - 1] == t[i]);
                    }
                } else {
                    assert(d2[j] == t[i]);
                }
                assert forall|q: int| 0 <= q < n implies #[trigger] ids[q] != t[i].0 by {
                    if q < n - 1 {
                        assert(ids[q] != t[i].0);
                    }
                }
            }
        } else {
            lemma_drop_shrinks(d.0, d.1, id);
        }
    }
}

/// An instance that leaves takes its nodes with it: once the ids of `ids`
/// have dropped their nodes in turn, no key that instance `ids[p]` owned
/// holds a node.
pub proof fn lemma_dropped_instance_leaves_no_nodes(
    t: Seq<(usize, Vec<u64>)>,
    e: Map<u64, InputNodeState>,
    ids: Seq<usize>,
    p: int,
    i: int,
    k: int,
)
    requires
        owners_distinct(t),
        0 <= p < ids.len(),
        0 <= i < t.len(),
        t[i].0 == ids[p],
        0 <= k < t[i].1@.len(),
    ensures
        !spec_drop_all(t, e, ids, ids.len() as int).1.dom().contains(key_form(t[i].1@[k])),
{
    lemma_drop_all_step(t, e, ids, i, k, ids.len() as int);
    assert(ids[p] == t[i].0);
}

/// A copy of a list of keys.
pub fn copy_u64s(v: &Vec<u64>) -> (res: Vec<u64>)
    ensures
        res@ == v@,
{
    let mut out: Vec<u64> = Vec::new();
    let mut i: usize = 0;
    while i < v.len()
        invariant
            i <= v@.len(),
            out@ == v@.subrange(0, i as int),
        decreases v@.len() - i,
    {
        out.push(v[i]);
        assert(out@ =~= v@.subrange(0, i + 1));
        i += 1;
    }
    assert(v@.subrange(0, i as int) =~= v@);
    out
}

/// Events only change the nodes under their own keys: playing steps onto
/// keys leaves every other node's fields as they were, and no node comes or
/// goes.
pub proof fn lemma_play_touches_only_its_keys(
    m: Map<u64, (Vec3Bits, bool, u32, Seq<SlotState>)>,
    keys: Seq<u64>,
    frames: Seq<Steps>,
    t: int,
    n: int,
    k: u64,
)
    requires
        0 <= n <= keys.len(),
        forall|i: int| 0 <= i < n ==> key_form(#[trigger] keys[i]) != k,
    ensures
        played(m, keys, frames, t, n).dom() == m.dom(),
        m.dom().contains(k) ==> played(m, keys, frames, t, n)[k] == m[k],
    decreases n,
{
    if n > 0 {
        lemma_play_touches_only_its_keys(m, keys, frames, t, n - 1, k);
        let p = played(m, keys, frames, t, n - 1);
        let kk = key_form(keys[n - 1]);
        if p.dom().contains(kk) {
            assert(p.insert(kk, ticked_fields(p[kk], frames[n - 1], t)).dom() =~= p.dom());
        }
    }
}

} // verus!
