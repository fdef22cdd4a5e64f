//! Keys into the input map, the event schedule that the map tick runs, and
//! the timing counters of the map loop.
pub mod event;
pub mod groups;
pub mod haptic_node;
pub mod input_node;
pub mod store;

use vstd::prelude::*;

pub use input_node::SlotKey;

use crate::haptic::mapping::Vec3Bits;
use event::{is_seed_node, steps_ready, MaybeConst, Steps};
use input_node::SlotState;
use store::{
    copy_u64s, fields_of, id_index, lemma_drop_owners, no_entries, owner_ids, owners_distinct, played, spec_drop_all, started_nodes, tick_event,
    Nodes,
};

verus! {

/// The key of an input node in the node store: its slot and the version of
/// the slot.
#[derive(Debug, Clone, Copy, PartialEq, Eq, Structural)]
pub struct NodeKey {
    pub idx: u32,
    pub version: u32,
}

/// The index of a registered event.
#[derive(Debug, Clone, Copy, PartialEq, Eq, Structural)]
pub struct EventKey(pub usize);

impl Default for EventKey {
    fn default() -> (res: Self)
        ensures
            res.0 == 0,
    {
        EventKey(0)
    }
}

/// Which field of a node an update sets.
#[derive(Debug, Clone, Copy, PartialEq, Eq, Structural)]
pub enum NodeFieldKind {
    Muted,
    Location,
    Radius,
}

/// Which field of a slot an update sets.
#[derive(Debug, Clone, Copy, PartialEq, Eq, Structural)]
pub enum SlotFieldKind {
    Value,
    Weight,
    Muted,
}

/// The count, total and maximum of the durations of one arm of the map loop.
#[derive(Debug, Clone, Copy, PartialEq, Eq, Structural)]
pub struct ArmStat {
    pub count: u64,
    pub total_ns: u128,
    pub max_ns: u128,
}

impl Default for ArmStat {
    fn default() -> (res: Self)
        ensures
            res == (ArmStat { count: 0, total_ns: 0, max_ns: 0 }),
    {
        ArmStat { count: 0, total_ns: 0, max_ns: 0 }
    }
}

impl ArmStat {
    /// Adds one duration.
    pub fn record(&mut self, ns: u128)
        requires
            old(self).count < u64::MAX,
            old(self).total_ns + ns <= u128::MAX,
        ensures
            final(self).count == old(self).count + 1,
            final(self).total_ns == old(self).total_ns + ns,
            final(self).max_ns == if ns > old(self).max_ns { ns } else { old(self).max_ns },
    {
        self.count += 1;
        self.total_ns += ns;
        if ns > self.max_ns {
            self.max_ns = ns;
        }
    }
}

/// The bookkeeping flags of the map loop.
#[derive(Debug, Clone, Copy, PartialEq, Eq, Structural)]
pub struct MapFlags {
    /// Bumped by each flush: every key handed out before is stale.
    pub generation: u64,
    /// The device outputs must be recomputed on the next tick.
    pub map_dirty: bool,
    /// The snapshot that the UI reads is out of date.
    pub dirty_since_snap: bool,
    /// Ticks since the last device update.
    pub cleanups: u32,
}

/// What a message to the map did to the map, as far as the flags care.
#[derive(Debug, Clone, Copy, PartialEq, Eq, Structural)]
pub enum MapChange {
    /// Something outside changed the map.
    MapDirty,
    /// Every running event was cancelled.
    CancelEvents,
    /// Every node and event was dropped.
    Flush,
    /// A node was registered.
    Register,
    /// An update of a node or slot; `applied` when its target was found.
    Update { applied: bool },
    /// An event start; `started` when the event existed and had nodes.
    StartEvent { started: bool },
    /// An event was registered; the nodes are untouched.
    RegisterEvent,
}

impl MapFlags {
    /// The flags of a new map: the snapshot is stale, nothing else pending.
    pub fn new() -> (res: Self)
        ensures
            res == (MapFlags { generation: 0, map_dirty: false, dirty_since_snap: true, cleanups: 0 }),
    {
        MapFlags { generation: 0, map_dirty: false, dirty_since_snap: true, cleanups: 0 }
    }

    /// The counter of ticks between device updates never passes ten.
    pub open spec fn wf(&self) -> bool {
        self.cleanups <= 10
    }

    /// Records a change to the map: every change but an event registration or
    /// an update of a missing target makes the devices and the snapshot stale;
    /// a flush also starts a new generation.
    pub fn on_change(&mut self, change: MapChange)
        requires
            change == MapChange::Flush ==> old(self).generation < u64::MAX,
        ensures
            final(self).cleanups == old(self).cleanups,
            final(self).generation == if change == MapChange::Flush {
                (old(self).generation + 1) as u64
            } else {
                old(self).generation
            },
            final(self).map_dirty == (old(self).map_dirty || match change {
                MapChange::RegisterEvent => false,
                MapChange::Update { applied } => applied,
                MapChange::StartEvent { started } => started,
                _ => true,
            }),
            final(self).dirty_since_snap == (old(self).dirty_since_snap || match change {
                MapChange::RegisterEvent | MapChange::MapDirty => false,
                MapChange::Update { applied } => applied,
                MapChange::StartEvent { started } => started,
                _ => true,
            }),
    {
        match change {
            MapChange::MapDirty => {
                self.map_dirty = true;
            },
            MapChange::CancelEvents | MapChange::Register => {
                self.dirty_since_snap = true;
                self.map_dirty = true;
            },
            MapChange::Flush => {
                self.dirty_since_snap = true;
                self.generation = self.generation + 1;
                self.map_dirty = true;
            },
            MapChange::Update { applied } => {
                if applied {
                    self.dirty_since_snap = true;
                    self.map_dirty = true;
                }
            },
            MapChange::StartEvent { started } => {
                if started {
                    self.map_dirty = true;
                    self.dirty_since_snap = true;
                }
            },
            MapChange::RegisterEvent => {},
        }
    }

    /// An info request: the snapshot is taken again only when it is stale.
    /// Returns whether it is.
    pub fn on_info_request(&mut self) -> (refresh: bool)
        ensures
            (*final(self), refresh) == spec_info_request(*old(self)),
    {
        let refresh = self.dirty_since_snap;
        self.dirty_since_snap = false;
        refresh
    }

    /// One map tick: the devices are updated when the map changed, and at
    /// least on every eleventh tick. Returns whether to update them.
    pub fn on_tick(&mut self) -> (update: bool)
        requires
            old(self).wf(),
        ensures
            final(self).wf(),
            (*final(self), update) == spec_tick(*old(self)),
    {
        if self.map_dirty || self.cleanups == 10 {
            self.map_dirty = false;
            self.cleanups = 0;
            true
        } else {
            self.cleanups = self.cleanups + 1;
            false
        }
    }

    /// After the running events were driven: the outputs are stale, and the
    /// snapshot too when an instance left.
    pub fn after_events(&mut self, changed: bool)
        ensures
            *final(self) == (MapFlags {
                map_dirty: true,
                dirty_since_snap: old(self).dirty_since_snap || changed,
                ..*old(self)
            }),
    {
        self.map_dirty = true;
        if changed {
            self.dirty_since_snap = true;
        }
    }
}

/// An info request: the flags after it, and whether the snapshot is taken.
pub open spec fn spec_info_request(f: MapFlags) -> (MapFlags, bool) {
    (MapFlags { dirty_since_snap: false, ..f }, f.dirty_since_snap)
}

/// A map tick: the flags after it, and whether the devices are updated.
pub open spec fn spec_tick(f: MapFlags) -> (MapFlags, bool) {
    if f.map_dirty || f.cleanups == 10 {
        (MapFlags { map_dirty: false, cleanups: 0, ..f }, true)
    } else {
        (MapFlags { cleanups: (f.cleanups + 1) as u32, ..f }, false)
    }
}

/// One of the next `n` ticks, with no change in between, updates the devices.
pub open spec fn updated_within(f: MapFlags, n: nat) -> bool
    decreases n,
{
    n > 0 && (spec_tick(f).1 || updated_within(spec_tick(f).0, (n - 1) as nat))
}

/// The devices are never left without an update for more than eleven ticks:
/// from any state, one of the next `11 - cleanups` ticks updates them.
pub proof fn lemma_devices_updated_within_eleven_ticks(f: MapFlags)
    requires
        f.wf(),
    ensures
        updated_within(f, (11 - f.cleanups) as nat),
        updated_within(f, 11),
    decreases 10 - f.cleanups,
{
    if !(f.map_dirty || f.cleanups == 10) {
        lemma_devices_updated_within_eleven_ticks(spec_tick(f).0);
        lemma_updated_within_mono(spec_tick(f).0, (10 - f.cleanups) as nat, 10);
    }
    lemma_updated_within_mono(f, (11 - f.cleanups) as nat, 11);
}

proof fn lemma_updated_within_mono(f: MapFlags, n: nat, m: nat)
    requires
        updated_within(f, n),
        n <= m,
    ensures
        updated_within(f, m),
    decreases n,
{
    if !spec_tick(f).1 {
        lemma_updated_within_mono(spec_tick(f).0, (n - 1) as nat, (m - 1) as nat);
    }
}

/// An info request refreshes the snapshot only once per change: a second
/// request with no change in between refreshes nothing.
pub proof fn lemma_snapshot_once_per_change(f: MapFlags)
    ensures
        !spec_info_request(spec_info_request(f).0).1,
{
}

/// One running event: the tick it started on, the event it runs, and the id
/// that its nodes are kept under.
#[derive(Debug, Clone, Copy, PartialEq, Eq, Structural)]
pub struct EventInstance {
    pub start: u64,
    pub key: EventKey,
    pub id: usize,
}

/// What happens to an instance on a tick.
#[derive(Debug, Clone, Copy, PartialEq, Eq, Structural)]
pub enum InstanceFate {
    /// The event definition is gone: the instance and its nodes go.
    Missing,
    /// The instance starts on a later tick.
    Waiting,
    /// The event has run its duration: the instance and its nodes go.
    Expired,
    /// The nodes of the instance are gone: the instance goes.
    Orphaned,
    /// The event drives its nodes for this tick.
    Running,
}

/// The event side of the input map: the registered events, the running
/// instances and the ids that own nodes in the map.
#[derive(Debug, Clone)]
pub struct EventSchedule {
    /// The current map tick.
    pub now: u64,
    /// The duration of each registered event, in ticks, by event key.
    pub durations: Vec<u64>,
    /// The running instances, oldest first.
    pub instances: Vec<EventInstance>,
    /// The instance ids that own nodes in the map.
    pub live: Vec<usize>,
    /// The id of the next instance.
    pub next_id: usize,
    /// The reusable single-step event of quick requests, once registered.
    pub quick: Option<EventKey>,
}

/// What a tick asks of the map.
#[derive(Debug, Clone)]
pub struct TickOutcome {
    /// The instances to drive, with the ticks since their start.
    pub to_tick: Vec<(EventInstance, u64)>,
    /// The ids whose nodes leave the map.
    pub dropped: Vec<usize>,
    /// The node set changed.
    pub changed: bool,
}

/// The fate of an instance at tick `now`.
pub open spec fn spec_fate(durations: Seq<u64>, live: Seq<usize>, now: u64, inst: EventInstance) -> InstanceFate {
    if inst.key.0 >= durations.len() {
        InstanceFate::Missing
    } else if now < inst.start {
        InstanceFate::Waiting
    } else if now - inst.start >= durations[inst.key.0 as int] {
        InstanceFate::Expired
    } else if !live.contains(inst.id) {
        InstanceFate::Orphaned
    } else {
        InstanceFate::Running
    }
}

/// The instances that stay after a tick: those waiting or running.
pub open spec fn kept_instances(durations: Seq<u64>, live: Seq<usize>, now: u64, insts: Seq<EventInstance>) -> Seq<
    EventInstance,
>
    decreases insts.len(),
{
    if insts.len() == 0 {
        insts
    } else {
        let rest = kept_instances(durations, live, now, insts.drop_last());
        let f = spec_fate(durations, live, now, insts.last());
        if f is Waiting || f is Running {
            rest.push(insts.last())
        } else {
            rest
        }
    }
}

/// The running instances and the ticks since their start, in order.
pub open spec fn ticked_instances(durations: Seq<u64>, live: Seq<usize>, now: u64, insts: Seq<EventInstance>) -> Seq<
    (EventInstance, u64),
>
    decreases insts.len(),
{
    if insts.len() == 0 {
        Seq::empty()
    } else {
        let rest = ticked_instances(durations, live, now, insts.drop_last());
        if spec_fate(durations, live, now, insts.last()) is Running {
            rest.push((insts.last(), (now - insts.last().start) as u64))
        } else {
            rest
        }
    }
}

/// The ids of the missing and expired instances that own nodes, in order.
pub open spec fn dropped_ids(durations: Seq<u64>, live: Seq<usize>, now: u64, insts: Seq<EventInstance>) -> Seq<usize>
    decreases insts.len(),
{
    if insts.len() == 0 {
        Seq::empty()
    } else {
        let rest = dropped_ids(durations, live, now, insts.drop_last());
        let f = spec_fate(durations, live, now, insts.last());
        if (f is Missing || f is Expired) && live.contains(insts.last().id) {
            rest.push(insts.last().id)
        } else {
            rest
        }
    }
}

/// An instance of the list leaves on this tick.
pub open spec fn any_leaves(durations: Seq<u64>, live: Seq<usize>, now: u64, insts: Seq<EventInstance>) -> bool {
    exists|i: int|
        0 <= i < insts.len() && {
            let f = #[trigger] spec_fate(durations, live, now, insts[i]);
            f is Missing || f is Expired || f is Orphaned
        }
}

/// The ids of `s` that are not in `gone`, in order.
pub open spec fn without_ids(s: Seq<usize>, gone: Seq<usize>) -> Seq<usize>
    decreases s.len(),
{
    if s.len() == 0 {
        s
    } else if gone.contains(s.last()) {
        without_ids(s.drop_last(), gone)
    } else {
        without_ids(s.drop_last(), gone).push(s.last())
    }
}

impl EventSchedule {
    /// Every instance id, and every id that owns nodes, is below the next id:
    /// a started instance gets an id that nothing holds yet.
    pub open spec fn wf(&self) -> bool {
        &&& forall|i: int| 0 <= i < self.instances@.len() ==> #[trigger] self.instances@[i].id < self.next_id
        &&& forall|i: int| 0 <= i < self.live@.len() ==> #[trigger] self.live@[i] < self.next_id
    }

    /// An empty schedule at tick 0; instance ids start at `first_id`.
    pub fn new(first_id: usize) -> (res: Self)
        ensures
            res.wf(),
            res.now == 0,
            res.durations@ == Seq::<u64>::empty(),
            res.instances@ == Seq::<EventInstance>::empty(),
            res.live@ == Seq::<usize>::empty(),
            res.next_id == first_id,
            res.quick is None,
    {
        EventSchedule {
            now: 0,
            durations: Vec::new(),
            instances: Vec::new(),
            live: Vec::new(),
            next_id: first_id,
            quick: None,
        }
    }

    /// Registers an event of this many ticks; its key is its index.
    pub fn register(&mut self, duration: u64) -> (res: EventKey)
        ensures
            res.0 == old(self).durations@.len(),
            final(self).durations@ == old(self).durations@.push(duration),
            final(self).now == old(self).now,
            final(self).instances@ == old(self).instances@,
            final(self).live@ == old(self).live@,
            final(self).next_id == old(self).next_id,
            final(self).quick == old(self).quick,
    {
        let idx = self.durations.len();
        self.durations.push(duration);
        EventKey(idx)
    }

    /// Starts an instance of an event with `node_count` nodes at this tick.
    /// `None`, and no change, when the event is unknown or has no nodes;
    /// else the id that the new nodes are kept under.
    pub fn start(&mut self, key: EventKey, node_count: usize) -> (res: Option<usize>)
        requires
            old(self).wf(),
            old(self).next_id < usize::MAX,
        ensures
            final(self).wf(),
            final(self).now == old(self).now,
            final(self).durations@ == old(self).durations@,
            final(self).quick == old(self).quick,
            (key.0 >= old(self).durations@.len() || node_count == 0) ==> res is None && final(self).instances@
                == old(self).instances@ && final(self).live@ == old(self).live@ && final(self).next_id
                == old(self).next_id,
            !(key.0 >= old(self).durations@.len() || node_count == 0) ==> {
                &&& res == Some(old(self).next_id)
                &&& final(self).next_id == old(self).next_id + 1
                &&& final(self).live@ == old(self).live@.push(old(self).next_id)
                &&& final(self).instances@ == old(self).instances@.push(
                    EventInstance { start: old(self).now, key, id: old(self).next_id },
                )
            },
    {
        if key.0 >= self.durations.len() {
            return None;
        }
        if node_count == 0 {
            return None;
        }
        let id = self.next_id;
        self.next_id = id + 1;
        self.live.push(id);
        self.instances.push(EventInstance { start: self.now, key, id });
        Some(id)
    }

    /// Ends every instance; their nodes leave the map.
    pub fn cancel_all(&mut self)
        requires
            old(self).wf(),
        ensures
            final(self).wf(),
            final(self).now == old(self).now,
            final(self).durations@ == old(self).durations@,
            final(self).instances@ == Seq::<EventInstance>::empty(),
            final(self).live@ == Seq::<usize>::empty(),
            final(self).next_id == old(self).next_id,
            final(self).quick == old(self).quick,
    {
        self.instances = Vec::new();
        self.live = Vec::new();
    }

    /// Forgets every event and instance, the quick event too.
    pub fn flush(&mut self)
        requires
            old(self).wf(),
        ensures
            final(self).wf(),
            final(self).now == old(self).now,
            final(self).durations@ == Seq::<u64>::empty(),
            final(self).instances@ == Seq::<EventInstance>::empty(),
            final(self).live@ == Seq::<usize>::empty(),
            final(self).next_id == old(self).next_id,
            final(self).quick is None,
    {
        self.instances = Vec::new();
        self.live = Vec::new();
        self.durations = Vec::new();
        self.quick = None;
    }

    /// Readies the quick event for a request of `duration` ticks (at least
    /// one): the registered quick event takes the new duration, or a new one
    /// is registered. Returns the key to start; `None`, and no change, when the
    /// remembered quick event is gone.
    pub fn prepare_quick(&mut self, duration: u64) -> (res: Option<EventKey>)
        ensures
            final(self).now == old(self).now,
            final(self).instances@ == old(self).instances@,
            final(self).live@ == old(self).live@,
            final(self).next_id == old(self).next_id,
            res matches Some(k) ==> k.0 < final(self).durations@.len() && final(self).durations@[k.0 as int] >= 1,
            ({
                let d: u64 = if duration < 1 { 1 } else { duration };
                match old(self).quick {
                    Some(k) => if k.0 < old(self).durations@.len() {
                        &&& res == Some(k)
                        &&& final(self).durations@ == old(self).durations@.update(k.0 as int, d)
                        &&& final(self).quick == old(self).quick
                    } else {
                        &&& res is None
                        &&& final(self).durations@ == old(self).durations@
                        &&& final(self).quick == old(self).quick
                    },
                    None => {
                        &&& res == Some(EventKey(old(self).durations@.len() as usize))
                        &&& final(self).durations@ == old(self).durations@.push(d)
                        &&& final(self).quick == res
                    },
                }
            }),
    {
        let d: u64 = if duration < 1 { 1 } else { duration };
        match self.quick {
            Some(k) => {
                if k.0 < self.durations.len() {
                    self.durations.set(k.0, d);
                    Some(k)
                } else {
                    None
                }
            },
            None => {
                let idx = self.durations.len();
                self.durations.push(d);
                let k = EventKey(idx);
                self.quick = Some(k);
                Some(k)
            },
        }
    }
}

/// An instance id is never reused: the id that the next start hands out is
/// held by no running instance and owns no nodes yet.
pub proof fn lemma_fresh_instance_id(s: EventSchedule)
    requires
        s.wf(),
    ensures
        forall|i: int| 0 <= i < s.instances@.len() ==> #[trigger] s.instances@[i].id != s.next_id,
        !s.live@.contains(s.next_id),
{
}

/// An instance runs exactly while its event's duration lasts: from its start
/// tick, for `duration` ticks, as long as it owns nodes.
pub proof fn lemma_runs_for_its_duration(durations: Seq<u64>, live: Seq<usize>, now: u64, inst: EventInstance)
    requires
        inst.key.0 < durations.len(),
        live.contains(inst.id),
    ensures
        (spec_fate(durations, live, now, inst) is Running) <==> (inst.start <= now && now - inst.start
            < durations[inst.key.0 as int]),
{
}

/// No two instances share an id.
pub open spec fn ids_unique(insts: Seq<EventInstance>) -> bool {
    forall|i: int, j: int| 0 <= i < j < insts.len() ==> #[trigger] insts[i].id != #[trigger] insts[j].id
}

/// What one tick makes of the schedule's tick, owning ids and instances.
pub open spec fn after_tick(now: u64, d: Seq<u64>, live: Seq<usize>, insts: Seq<EventInstance>) -> (
    u64,
    Seq<usize>,
    Seq<EventInstance>,
) {
    ((now + 1) as u64, without_ids(live, dropped_ids(d, live, now, insts)), kept_instances(d, live, now, insts))
}

/// The tick, owning ids and instances after `m` ticks.
pub open spec fn after_ticks(now: u64, d: Seq<u64>, live: Seq<usize>, insts: Seq<EventInstance>, m: nat) -> (
    u64,
    Seq<usize>,
    Seq<EventInstance>,
)
    decreases m,
{
    if m == 0 {
        (now, live, insts)
    } else {
        let p = after_ticks(now, d, live, insts, (m - 1) as nat);
        after_tick(p.0, d, p.1, p.2)
    }
}

proof fn lemma_kept_elems(d: Seq<u64>, live: Seq<usize>, now: u64, insts: Seq<EventInstance>)
    ensures
        forall|x: EventInstance|
            #[trigger] kept_instances(d, live, now, insts).contains(x) <==> (insts.contains(x) && (spec_fate(
                d,
                live,
                now,
                x,
            ) is Waiting || spec_fate(d, live, now, x) is Running)),
        ids_unique(insts) ==> ids_unique(kept_instances(d, live, now, insts)),
    decreases insts.len(),
{
    if insts.len() > 0 {
        let p = insts.drop_last();
        lemma_kept_elems(d, live, now, p);
        let k = kept_instances(d, live, now, insts);
        let kp = kept_instances(d, live, now, p);
        let f = spec_fate(d, live, now, insts.last());
        assert forall|x: EventInstance| #[trigger] k.contains(x) <==> (insts.contains(x) && (spec_fate(
            d,
            live,
            now,
            x,
        ) is Waiting || spec_fate(d, live, now, x) is Running)) by {
            if insts.contains(x) {
                let a = choose|a: int| 0 <= a < insts.len() && insts[a] == x;
                if a < insts.len() - 1 {
                    assert(p[a] == x);
                }
            }
            if p.contains(x) {
                let a = choose|a: int| 0 <= a < p.len() && p[a] == x;
                assert(insts[a] == x);
            }
            if f is Waiting || f is Running {
                assert(k == kp.push(insts.last()));
                if k.contains(x) && x != insts.last() {
                    let a = choose|a: int| 0 <= a < k.len() && k[a] == x;
                    assert(kp[a] == x);
                }
                if kp.contains(x) {
                    let a = choose|a: int| 0 <= a < kp.len() && kp[a] == x;
                    assert(k[a] == x);
                }
                assert(k[k.len() - 1] == insts.last());
            }
        }
        if ids_unique(insts) {
            assert(ids_unique(p)) by {
                assert forall|i: int, j: int| 0 <= i < j < p.len() implies #[trigger] p[i].id != #[trigger] p[j].id by {
                    assert(insts[i].id != insts[j].id);
                }
            }
            if f is Waiting || f is Running {
                assert(k == kp.push(insts.last()));
                assert forall|i: int, j: int| 0 <= i < j < k.len() implies #[trigger] k[i].id != #[trigger] k[j].id by {
                    if j == k.len() - 1 {
                        assert(kp.contains(k[i]));
                        assert(p.contains(k[i]));
                        let a = choose|a: int| 0 <= a < p.len() && p[a] == k[i];
                        assert(insts[a].id != insts[insts.len() - 1].id);
                    } else {
                        assert(kp[i].id != kp[j].id);
                    }
                }
            }
        }
    }
}

proof fn lemma_ticked_has(d: Seq<u64>, live: Seq<usize>, now: u64, insts: Seq<EventInstance>, x: EventInstance)
    requires
        insts.contains(x),
        spec_fate(d, live, now, x) is Running,
    ensures
        ticked_instances(d, live, now, insts).contains((x, (now - x.start) as u64)),
    decreases insts.len(),
{
    let p = insts.drop_last();
    let t = ticked_instances(d, live, now, insts);
    let tp = ticked_instances(d, live, now, p);
    if insts.last() == x {
        assert(t == tp.push((x, (now - x.start) as u64)));
        assert(t[t.len() - 1] == (x, (now - x.start) as u64));
    } else {
        let a = choose|a: int| 0 <= a < insts.len() && insts[a] == x;
        assert(p[a] == x);
        lemma_ticked_has(d, live, now, p, x);
        let b = choose|b: int| 0 <= b < tp.len() && tp[b] == (x, (now - x.start) as u64);
        if spec_fate(d, live, now, insts.last()) is Running {
            assert(t == tp.push((insts.last(), (now - insts.last().start) as u64)));
            assert(t[b] == tp[b]);
        }
    }
}

proof fn lemma_dropped_ids_from(d: Seq<u64>, live: Seq<usize>, now: u64, insts: Seq<EventInstance>)
    ensures
        forall|id: usize|
            #[trigger] dropped_ids(d, live, now, insts).contains(id) ==> exists|a: int|
                0 <= a < insts.len() && insts[a].id == id && {
                    let f = #[trigger] spec_fate(d, live, now, insts[a]);
                    f is Missing || f is Expired
                },
        forall|a: int|
            0 <= a < insts.len() && live.contains(insts[a].id) && {
                let f = #[trigger] spec_fate(d, live, now, insts[a]);
                f is Missing || f is Expired
            } ==> dropped_ids(d, live, now, insts).contains(insts[a].id),
    decreases insts.len(),
{
    if insts.len() > 0 {
        let p = insts.drop_last();
        lemma_dropped_ids_from(d, live, now, p);
        let r = dropped_ids(d, live, now, insts);
        let rp = dropped_ids(d, live, now, p);
        let l = insts.last();
        let f = spec_fate(d, live, now, l);
        let pushed = (f is Missing || f is Expired) && live.contains(l.id);
        if pushed {
            assert(r == rp.push(l.id));
        } else {
            assert(r == rp);
        }
        assert forall|id: usize| #[trigger] r.contains(id) implies exists|a: int|
            0 <= a < insts.len() && insts[a].id == id && {
                let f = #[trigger] spec_fate(d, live, now, insts[a]);
                f is Missing || f is Expired
            } by {
            if rp.contains(id) {
                let a = choose|a: int|
                    0 <= a < p.len() && p[a].id == id && {
                        let f = #[trigger] spec_fate(d, live, now, p[a]);
                        f is Missing || f is Expired
                    };
                assert(insts[a] == p[a]);
            } else {
                let b = choose|b: int| 0 <= b < r.len() && r[b] == id;
                if pushed {
                    assert(b == r.len() - 1);
                    assert(insts[insts.len() - 1] == l);
                }
            }
        }
        assert forall|a: int|
            0 <= a < insts.len() && live.contains(insts[a].id) && {
                let f = #[trigger] spec_fate(d, live, now, insts[a]);
                f is Missing || f is Expired
            } implies r.contains(insts[a].id) by {
            if a < insts.len() - 1 {
                assert(p[a] == insts[a]);
                let b = choose|b: int| 0 <= b < rp.len() && rp[b] == insts[a].id;
                if pushed {
                    assert(r[b] == rp[b]);
                }
            } else {
                assert(r[r.len() - 1] == l.id);
            }
        }
    }
}

/// An event runs exactly for its duration, across ticks: an instance that
/// starts at this tick, owning nodes, is driven on each of the next
/// `duration` ticks with 0, 1, ... ticks since its start, and on the tick
/// after that it leaves and its nodes are dropped.
pub proof fn lemma_instance_lifetime(
    now: u64,
    d: Seq<u64>,
    live: Seq<usize>,
    insts: Seq<EventInstance>,
    inst: EventInstance,
    m: nat,
)
    requires
        insts.contains(inst),
        live.contains(inst.id),
        ids_unique(insts),
        inst.key.0 < d.len(),
        inst.start == now,
        m <= d[inst.key.0 as int],
        now + m < u64::MAX,
    ensures
        ({
            let p = after_ticks(now, d, live, insts, m);
            &&& p.0 == now + m
            &&& p.2.contains(inst)
            &&& p.1.contains(inst.id)
            &&& ids_unique(p.2)
            &&& m < d[inst.key.0 as int] ==> ticked_instances(d, p.1, p.0, p.2).contains((inst, m as u64))
            &&& m == d[inst.key.0 as int] ==> dropped_ids(d, p.1, p.0, p.2).contains(inst.id) && !kept_instances(
                d,
                p.1,
                p.0,
                p.2,
            ).contains(inst)
        }),
    decreases m,
{
    if m > 0 {
        lemma_instance_lifetime(now, d, live, insts, inst, (m - 1) as nat);
        let q = after_ticks(now, d, live, insts, (m - 1) as nat);
        lemma_kept_elems(d, q.1, q.0, q.2);
        lemma_dropped_ids_from(d, q.1, q.0, q.2);
        let dr = dropped_ids(d, q.1, q.0, q.2);
        lemma_without_ids(q.1, dr);
        if dr.contains(inst.id) {
            let a = choose|a: int|
                0 <= a < q.2.len() && q.2[a].id == inst.id && {
                    let f = #[trigger] spec_fate(d, q.1, q.0, q.2[a]);
                    f is Missing || f is Expired
                };
            let b = choose|b: int| 0 <= b < q.2.len() && q.2[b] == inst;
            if a < b {
                assert(q.2[a].id != q.2[b].id);
            } else if b < a {
                assert(q.2[b].id != q.2[a].id);
            }
            assert(false);
        }
    }
    let p = after_ticks(now, d, live, insts, m);
    lemma_kept_elems(d, p.1, p.0, p.2);
    lemma_dropped_ids_from(d, p.1, p.0, p.2);
    if m < d[inst.key.0 as int] {
        lemma_ticked_has(d, p.1, p.0, p.2, inst);
    } else {
        let b = choose|b: int| 0 <= b < p.2.len() && p.2[b] == inst;
        assert(spec_fate(d, p.1, p.0, p.2[b]) is Expired);
    }
}

fn contains_id(ids: &Vec<usize>, id: usize) -> (res: bool)
    ensures
        res == ids@.contains(id),
{
    let mut i: usize = 0;
    while i < ids.len()
        invariant
            i <= ids@.len(),
            forall|k: int| 0 <= k < i ==> ids@[k] != id,
        decreases ids@.len() - i,
    {
        if ids[i] == id {
            assert(ids@[i as int] == id);
            return true;
        }
        i += 1;
    }
    false
}

impl EventSchedule {
    /// Runs one map tick over the instances, oldest first. A missing or
    /// expired instance leaves, and its nodes leave the map with it; an
    /// instance whose nodes are gone leaves; an instance that has not started
    /// waits; the others run. The tick counter then moves on.
    ///
    /// Instance ids are never reused, so leaving instances take no ids that
    /// a later instance of the same tick owns: each fate is read against the
    /// ids that own nodes at the start of the tick.
    pub fn tick(&mut self) -> (res: TickOutcome)
        requires
            old(self).wf(),
            old(self).now < u64::MAX,
        ensures
            final(self).wf(),
            final(self).now == old(self).now + 1,
            final(self).durations@ == old(self).durations@,
            final(self).next_id == old(self).next_id,
            final(self).quick == old(self).quick,
            final(self).instances@ == kept_instances(
                old(self).durations@,
                old(self).live@,
                old(self).now,
                old(self).instances@,
            ),
            res.to_tick@ == ticked_instances(old(self).durations@, old(self).live@, old(self).now, old(self).instances@),
            res.dropped@ == dropped_ids(old(self).durations@, old(self).live@, old(self).now, old(self).instances@),
            final(self).live@ == without_ids(old(self).live@, res.dropped@),
            res.changed == any_leaves(old(self).durations@, old(self).live@, old(self).now, old(self).instances@),
    {
        let ghost d = self.durations@;
        let ghost live0 = self.live@;
        let ghost now0 = self.now;
        let ghost insts = self.instances@;
        let mut kept: Vec<EventInstance> = Vec::new();
        let mut to_tick: Vec<(EventInstance, u64)> = Vec::new();
        let mut dropped: Vec<usize> = Vec::new();
        let mut changed = false;
        let mut i: usize = 0;
        while i < self.instances.len()
            invariant
                self.durations@ == d,
                self.live@ == live0,
                self.now == now0,
                self.instances@ == insts,
                old(self).wf(),
                *old(self) == *self,
                i <= insts.len(),
                kept@ == kept_instances(d, live0, now0, insts.subrange(0, i as int)),
                to_tick@ == ticked_instances(d, live0, now0, insts.subrange(0, i as int)),
                dropped@ == dropped_ids(d, live0, now0, insts.subrange(0, i as int)),
                changed == any_leaves(d, live0, now0, insts.subrange(0, i as int)),
                forall|k: int| 0 <= k < kept@.len() ==> #[trigger] kept@[k].id < self.next_id,
            decreases insts.len() - i,
        {
            let inst = self.instances[i];
            let ghost pre = insts.subrange(0, i as int);
            let ghost cur = insts.subrange(0, i + 1);
            assert(cur.drop_last() =~= pre);
            assert(cur.last() == inst);
            let ghost fate = spec_fate(d, live0, now0, inst);
            assert(any_leaves(d, live0, now0, cur) == (any_leaves(d, live0, now0, pre) || fate is Missing
                || fate is Expired || fate is Orphaned)) by {
                if any_leaves(d, live0, now0, pre) {
                    let k = choose|k: int|
                        0 <= k < pre.len() && {
                            let f = #[trigger] spec_fate(d, live0, now0, pre[k]);
                            f is Missing || f is Expired || f is Orphaned
                        };
                    assert(cur[k] == pre[k]);
                }
                if any_leaves(d, live0, now0, cur) {
                    let k = choose|k: int|
                        0 <= k < cur.len() && {
                            let f = #[trigger] spec_fate(d, live0, now0, cur[k]);
                            f is Missing || f is Expired || f is Orphaned
                        };
                    if k < pre.len() {
                        assert(pre[k] == cur[k]);
                    }
                }
                if fate is Missing || fate is Expired || fate is Orphaned {
                    assert(cur[i as int] == inst);
                }
            }
            if inst.key.0 >= self.durations.len() {
                if contains_id(&self.live, inst.id) {
                    dropped.push(inst.id);
                }
                changed = true;
            } else if self.now < inst.start {
                kept.push(inst);
            } else {
                let elapsed = self.now - inst.start;
                if elapsed >= self.durations[inst.key.0] {
                    if contains_id(&self.live, inst.id) {
                        dropped.push(inst.id);
                    }
                    changed = true;
                } else if !contains_id(&self.live, inst.id) {
                    changed = true;
                } else {
                    kept.push(inst);
                    to_tick.push((inst, elapsed));
                }
            }
            i += 1;
        }
        assert(insts.subrange(0, i as int) =~= insts);
        let mut live: Vec<usize> = Vec::new();
        let mut j: usize = 0;
        while j < self.live.len()
            invariant
                self.live@ == live0,
                old(self).wf(),
                *old(self) == *self,
                j <= live0.len(),
                live@ == without_ids(live0.subrange(0, j as int), dropped@),
                forall|k: int| 0 <= k < live@.len() ==> #[trigger] live@[k] < self.next_id,
            decreases live0.len() - j,
        {
            let id = self.live[j];
            assert(live0.subrange(0, j + 1).drop_last() =~= live0.subrange(0, j as int));
            if !contains_id(&dropped, id) {
                live.push(id);
            }
            j += 1;
        }
        assert(live0.subrange(0, j as int) =~= live0);
        self.instances = kept;
        self.live = live;
        self.now = self.now + 1;
        TickOutcome { to_tick, dropped, changed }
    }
}

proof fn lemma_without_ids(s: Seq<usize>, gone: Seq<usize>)
    ensures
        forall|x: usize| #[trigger] without_ids(s, gone).contains(x) <==> (s.contains(x) && !gone.contains(x)),
    decreases s.len(),
{
    if s.len() > 0 {
        lemma_without_ids(s.drop_last(), gone);
        let r = without_ids(s, gone);
        let p = without_ids(s.drop_last(), gone);
        assert forall|x: usize| #[trigger] r.contains(x) <==> (s.contains(x) && !gone.contains(x)) by {
            if s.contains(x) {
                let k = choose|k: int| 0 <= k < s.len() && s[k] == x;
                if k < s.len() - 1 {
                    assert(s.drop_last()[k] == x);
                }
            }
            if s.drop_last().contains(x) {
                let k = choose|k: int| 0 <= k < s.drop_last().len() && s.drop_last()[k] == x;
                assert(s[k] == x);
            }
            if !gone.contains(s.last()) {
                assert(r == p.push(s.last()));
                if r.contains(x) && x != s.last() {
                    let k = choose|k: int| 0 <= k < r.len() && r[k] == x;
                    assert(k < p.len());
                    assert(p[k] == x);
                }
                if p.contains(x) {
                    let k = choose|k: int| 0 <= k < p.len() && p[k] == x;
                    assert(r[k] == x);
                }
                assert(r[r.len() - 1] == s.last());
            }
        }
    }
}

/// The event side of the input map together with its nodes: every instance
/// id that the schedule counts as owning nodes has its node list in the
/// store, and no other.
#[derive(Debug)]
pub struct EventMap {
    pub schedule: EventSchedule,
    pub nodes: Nodes,
    /// The frames of each registered event, by event key.
    pub frames: Vec<Vec<Steps>>,
}

/// What the map shows of itself to the rest of the program.
#[derive(Debug)]
pub struct Snapshot {
    /// The map tick.
    pub instant: u64,
    /// The duration of each registered event, by event key.
    pub event_durations: Vec<u64>,
    /// The running instances.
    pub active_events: Vec<EventInstance>,
    /// The nodes.
    pub input_nodes: Nodes,
}

/// The instance ids that the schedule counts as owning nodes are those that
/// own a node list in the store.
pub open spec fn linked(schedule: EventSchedule, nodes: Nodes) -> bool {
    forall|id: usize| #[trigger] schedule.live@.contains(id) <==> owner_ids(nodes.transient@).contains(id)
}

/// Every steps entry of every event has a first tick.
pub open spec fn frames_ready(frames: Seq<Vec<Steps>>) -> bool {
    forall|e: int, i: int| 0 <= e < frames.len() && 0 <= i < frames[e]@.len() ==> steps_ready(#[trigger] frames[e]@[i])
}

/// The playback fields after each running instance of `to_tick[0..n]`, in
/// order, drives the nodes that it owns in `t` with its event's frames, at
/// its ticks since start.
pub open spec fn played_all(
    t: Seq<(usize, Vec<u64>)>,
    m: Map<u64, (Vec3Bits, bool, u32, Seq<SlotState>)>,
    frames: Seq<Vec<Steps>>,
    to_tick: Seq<(EventInstance, u64)>,
    n: int,
) -> Map<u64, (Vec3Bits, bool, u32, Seq<SlotState>)>
    decreases n,
{
    if n <= 0 {
        m
    } else {
        let p = played_all(t, m, frames, to_tick, n - 1);
        let inst = to_tick[n - 1].0;
        let since = to_tick[n - 1].1;
        let i = id_index(t, inst.id);
        if i >= 0 && inst.key.0 < frames.len() {
            let keys = t[i].1@;
            let fr = frames[inst.key.0 as int]@;
            played(p, keys, fr, since as int, if keys.len() < fr.len() { keys.len() as int } else { fr.len() as int })
        } else {
            p
        }
    }
}

/// The position of the owner list of `id`, found by a scan.
fn find_owner(t: &Vec<(usize, Vec<u64>)>, id: usize) -> (res: Option<usize>)
    requires
        owners_distinct(t@),
    ensures
        match res {
            Some(i) => i < t@.len() && i as int == id_index(t@, id),
            None => id_index(t@, id) == -1,
        },
{
    let mut i: usize = 0;
    while i < t.len()
        invariant
            i <= t@.len(),
            owners_distinct(t@),
            forall|k: int| 0 <= k < i ==> #[trigger] t@[k].0 != id,
        decreases t@.len() - i,
    {
        if t[i].0 == id {
            proof {
                let j = id_index(t@, id);
                assert(t@[i as int].0 == id);
                assert(0 <= j < t@.len() && t@[j].0 == id);
                if j != i as int {
                    if j < i {
                        assert(t@[j].0 != id);
                    } else {
                        assert(t@[i as int].0 != t@[j].0);
                    }
                }
            }
            return Some(i);
        }
        i += 1;
    }
    None
}

/// Starts an instance of event `key` with these frames; see `start_event`.
fn start_on(schedule: &mut EventSchedule, nodes: &mut Nodes, key: EventKey, frames: &[Steps]) -> (res: Option<usize>)
    requires
        old(schedule).wf(),
        old(nodes).wf(),
        linked(*old(schedule), *old(nodes)),
        old(schedule).next_id < usize::MAX,
        old(nodes).entries().dom().len() + frames@.len() < u32::MAX - 1,
        forall|i: int| 0 <= i < frames@.len() ==> steps_ready(#[trigger] frames@[i]),
    ensures
        final(schedule).wf(),
        final(nodes).wf(),
        linked(*final(schedule), *final(nodes)),
        final(schedule).now == old(schedule).now,
        final(schedule).durations@ == old(schedule).durations@,
        final(schedule).quick == old(schedule).quick,
        (key.0 >= old(schedule).durations@.len() || frames@.len() == 0) ==> {
            &&& res is None
            &&& final(schedule).instances@ == old(schedule).instances@
            &&& final(schedule).next_id == old(schedule).next_id
            &&& final(nodes).transient@ == old(nodes).transient@
            &&& final(nodes).entries() == old(nodes).entries()
            &&& final(nodes).active_streaming@ == old(nodes).active_streaming@
        },
        !(key.0 >= old(schedule).durations@.len() || frames@.len() == 0) ==> {
            &&& res == Some(old(schedule).next_id)
            &&& final(schedule).next_id == old(schedule).next_id + 1
            &&& final(schedule).instances@ == old(schedule).instances@.push(
                EventInstance { start: old(schedule).now, key, id: old(schedule).next_id },
            )
            &&& started_nodes(*old(nodes), *final(nodes), old(schedule).next_id, frames@)
        },
{
    proof {
        lemma_fresh_instance_id(*schedule);
    }
    let started = schedule.start(key, frames.len());
    match started {
        Some(id) => {
            nodes.start_instance(id, frames);
            proof {
                let t = nodes.transient@;
                assert forall|x: usize| #[trigger] schedule.live@.contains(x) <==> owner_ids(t).contains(x) by {
                    let t0 = old(nodes).transient@;
                    assert(t.drop_last() == t0);
                    if owner_ids(t).contains(x) {
                        let k = choose|k: int| 0 <= k < owner_ids(t).len() && owner_ids(t)[k] == x;
                        if k < t0.len() {
                            assert(owner_ids(t0)[k] == x);
                        }
                    }
                    if owner_ids(t0).contains(x) {
                        let k = choose|k: int| 0 <= k < owner_ids(t0).len() && owner_ids(t0)[k] == x;
                        assert(owner_ids(t)[k] == x);
                    }
                    assert(owner_ids(t)[t.len() - 1] == id);
                    if schedule.live@.contains(x) && x != id {
                        let k = choose|k: int| 0 <= k < schedule.live@.len() && schedule.live@[k] == x;
                        assert(old(schedule).live@[k] == x);
                    }
                    if old(schedule).live@.contains(x) {
                        let k = choose|k: int| 0 <= k < old(schedule).live@.len() && old(schedule).live@[k] == x;
                        assert(schedule.live@[k] == x);
                    }
                    assert(schedule.live@[schedule.live@.len() - 1] == id);
                }
            }
        },
        None => {},
    }
    started
}

impl EventMap {
    pub open spec fn wf(&self) -> bool {
        &&& self.schedule.wf()
        &&& self.nodes.wf()
        &&& linked(self.schedule, self.nodes)
        &&& self.frames@.len() == self.schedule.durations@.len()
        &&& frames_ready(self.frames@)
    }

    /// The frames of event `key`; none for an unknown event.
    pub open spec fn event_frames(&self, key: EventKey) -> Seq<Steps> {
        if key.0 < self.frames@.len() {
            self.frames@[key.0 as int]@
        } else {
            Seq::empty()
        }
    }

    /// What the map shows of itself: the tick, the duration of each event,
    /// the running instances and a copy of the node store.
    pub fn snapshot(&self) -> (res: Snapshot)
        requires
            self.wf(),
        ensures
            res.instant == self.schedule.now,
            res.event_durations@ == self.schedule.durations@,
            res.active_events@ == self.schedule.instances@,
            res.input_nodes.wf(),
            res.input_nodes.entries() == self.nodes.entries(),
            res.input_nodes.transient@.len() == self.nodes.transient@.len(),
            forall|i: int|
                0 <= i < self.nodes.transient@.len() ==> (#[trigger] res.input_nodes.transient@[i]).0
                    == self.nodes.transient@[i].0 && res.input_nodes.transient@[i].1@
                    == self.nodes.transient@[i].1@,
            owner_ids(res.input_nodes.transient@) == owner_ids(self.nodes.transient@),
            res.input_nodes.active_streaming@ == self.nodes.active_streaming@,
    {
        let mut active: Vec<EventInstance> = Vec::new();
        let mut i: usize = 0;
        while i < self.schedule.instances.len()
            invariant
                i <= self.schedule.instances@.len(),
                active@ == self.schedule.instances@.subrange(0, i as int),
            decreases self.schedule.instances@.len() - i,
        {
            active.push(self.schedule.instances[i]);
            assert(active@ =~= self.schedule.instances@.subrange(0, i + 1));
            i += 1;
        }
        assert(self.schedule.instances@.subrange(0, i as int) =~= self.schedule.instances@);
        Snapshot {
            instant: self.schedule.now,
            event_durations: copy_u64s(&self.schedule.durations),
            active_events: active,
            input_nodes: self.nodes.copy(),
        }
    }

    /// Registers an event of this many ticks and these frames, one steps
    /// entry per node; its key is its index.
    pub fn register_event(&mut self, duration: u64, frames: Vec<Steps>) -> (res: EventKey)
        requires
            old(self).wf(),
            forall|i: int| 0 <= i < frames@.len() ==> steps_ready(#[trigger] frames@[i]),
        ensures
            final(self).wf(),
            res.0 == old(self).schedule.durations@.len(),
            final(self).schedule.durations@ == old(self).schedule.durations@.push(duration),
            final(self).frames@ == old(self).frames@.push(frames),
            final(self).schedule.instances@ == old(self).schedule.instances@,
            final(self).schedule.next_id == old(self).schedule.next_id,
            final(self).schedule.now == old(self).schedule.now,
            final(self).nodes.transient@ == old(self).nodes.transient@,
            final(self).nodes.entries() == old(self).nodes.entries(),
    {
        let key = self.schedule.register(duration);
        self.frames.push(frames);
        proof {
            assert forall|e: int, i: int|
                0 <= e < self.frames@.len() && 0 <= i < self.frames@[e]@.len() implies steps_ready(
                #[trigger] self.frames@[e]@[i],
            ) by {
                if e < old(self).frames@.len() {
                    assert(self.frames@[e] == old(self).frames@[e]);
                }
            }
        }
        key
    }

    /// An empty map at tick 0; instance ids start at `first_id`.
    pub fn new(first_id: usize) -> (res: Self)
        ensures
            res.wf(),
            res.schedule.now == 0,
            res.schedule.durations@ == Seq::<u64>::empty(),
            res.schedule.instances@ == Seq::<EventInstance>::empty(),
            res.schedule.next_id == first_id,
            res.nodes.entries() == no_entries(),
            res.nodes.transient@ == Seq::<(usize, Vec<u64>)>::empty(),
            res.frames@ == Seq::<Vec<Steps>>::empty(),
    {
        EventMap { schedule: EventSchedule::new(first_id), nodes: Nodes::new(), frames: Vec::new() }
    }

    /// Starts an instance of a registered event at this tick: one node per
    /// steps entry of its frames, seeded from its first tick, owned by the new
    /// instance id. `None`, and no change, when the event is unknown or has no
    /// nodes.
    pub fn start_event(&mut self, key: EventKey) -> (res: Option<usize>)
        requires
            old(self).wf(),
            old(self).schedule.next_id < usize::MAX,
            old(self).nodes.entries().dom().len() + old(self).event_frames(key).len() < u32::MAX - 1,
        ensures
            final(self).wf(),
            final(self).frames@ == old(self).frames@,
            final(self).schedule.now == old(self).schedule.now,
            final(self).schedule.durations@ == old(self).schedule.durations@,
            final(self).schedule.quick == old(self).schedule.quick,
            (key.0 >= old(self).schedule.durations@.len() || old(self).event_frames(key).len() == 0) ==> {
                &&& res is None
                &&& final(self).schedule.instances@ == old(self).schedule.instances@
                &&& final(self).schedule.next_id == old(self).schedule.next_id
                &&& final(self).nodes.transient@ == old(self).nodes.transient@
                &&& final(self).nodes.entries() == old(self).nodes.entries()
            },
            !(key.0 >= old(self).schedule.durations@.len() || old(self).event_frames(key).len() == 0) ==> {
                &&& res == Some(old(self).schedule.next_id)
                &&& final(self).schedule.next_id == old(self).schedule.next_id + 1
                &&& final(self).schedule.instances@ == old(self).schedule.instances@.push(
                    EventInstance { start: old(self).schedule.now, key, id: old(self).schedule.next_id },
                )
                &&& started_nodes(old(self).nodes, final(self).nodes, old(self).schedule.next_id, old(self).event_frames(key))
            },
    {
        if key.0 >= self.frames.len() {
            return None;
        }
        proof {
            assert forall|i: int| 0 <= i < self.frames@[key.0 as int]@.len() implies steps_ready(
                #[trigger] self.frames@[key.0 as int]@[i],
            ) by {}
        }
        start_on(&mut self.schedule, &mut self.nodes, key, self.frames[key.0].as_slice())
    }

    /// There is room in the node store to start event `key`.
    pub fn can_start(&self, key: EventKey) -> (res: bool)
        requires
            self.wf(),
        ensures
            res == (self.schedule.next_id < usize::MAX && self.nodes.entries().dom().len() + self.event_frames(
                key,
            ).len() < u32::MAX - 1),
    {
        let n = if key.0 < self.frames.len() { self.frames[key.0].len() } else { 0 };
        self.schedule.next_id < usize::MAX && self.nodes.has_room(n)
    }

    /// Ends every instance: no instance runs and none owns nodes. The nodes
    /// themselves stay in the store.
    pub fn cancel_all(&mut self)
        requires
            old(self).wf(),
        ensures
            final(self).wf(),
            final(self).schedule.instances@ == Seq::<EventInstance>::empty(),
            final(self).schedule.durations@ == old(self).schedule.durations@,
            final(self).nodes.transient@ == Seq::<(usize, Vec<u64>)>::empty(),
            final(self).nodes.entries() == old(self).nodes.entries(),
            final(self).frames@ == old(self).frames@,
    {
        self.schedule.cancel_all();
        self.nodes.clear_transient();
    }

    /// Forgets every event, every instance and every node.
    pub fn flush(&mut self)
        requires
            old(self).wf(),
        ensures
            final(self).wf(),
            final(self).schedule.durations@ == Seq::<u64>::empty(),
            final(self).schedule.instances@ == Seq::<EventInstance>::empty(),
            final(self).schedule.quick is None,
            final(self).nodes.entries() == no_entries(),
            final(self).nodes.transient@ == Seq::<(usize, Vec<u64>)>::empty(),
            final(self).nodes.active_streaming@ == Seq::<u64>::empty(),
            final(self).frames@ == Seq::<Vec<Steps>>::empty(),
    {
        self.schedule.flush();
        self.nodes.flush();
        self.frames = Vec::new();
    }

    /// Starts the quick event of a request: one node at `location` with the
    /// given power, full weight and a radius of 0.0375, for `duration` ticks
    /// (at least one). `None` when the remembered quick event is gone.
    pub fn quick_event(&mut self, duration: u64, location: Vec3Bits, power_bits: u32) -> (res: Option<usize>)
        requires
            old(self).wf(),
            old(self).schedule.next_id < usize::MAX,
            old(self).nodes.entries().dom().len() + 1 < u32::MAX - 1,
        ensures
            final(self).wf(),
            final(self).schedule.now == old(self).schedule.now,
            (res is Some) <==> quick_available(old(self).schedule),
            !quick_available(old(self).schedule) ==> {
                &&& final(self).schedule.durations@ == old(self).schedule.durations@
                &&& final(self).schedule.quick == old(self).schedule.quick
                &&& final(self).schedule.instances@ == old(self).schedule.instances@
                &&& final(self).schedule.next_id == old(self).schedule.next_id
                &&& final(self).frames@ == old(self).frames@
                &&& final(self).nodes.entries() == old(self).nodes.entries()
                &&& final(self).nodes.transient@ == old(self).nodes.transient@
            },
            quick_available(old(self).schedule) ==> {
                let d: u64 = if duration < 1 { 1 } else { duration };
                let key = quick_key(old(self).schedule);
                &&& final(self).schedule.quick == Some(key)
                &&& final(self).schedule.durations@ == (match old(self).schedule.quick {
                    Some(k) => old(self).schedule.durations@.update(k.0 as int, d),
                    None => old(self).schedule.durations@.push(d),
                })
                &&& final(self).frames@.len() == final(self).schedule.durations@.len()
                &&& final(self).event_frames(key) == seq![quick_steps(location, power_bits)]
                &&& forall|e: int|
                    0 <= e < old(self).frames@.len() && e != key.0 ==> #[trigger] final(self).frames@[e] == old(
                        self,
                    ).frames@[e]
                &&& res == Some(old(self).schedule.next_id)
                &&& final(self).schedule.next_id == old(self).schedule.next_id + 1
                &&& final(self).schedule.instances@ == old(self).schedule.instances@.push(
                    EventInstance { start: old(self).schedule.now, key, id: old(self).schedule.next_id },
                )
                &&& started_nodes(
                    old(self).nodes,
                    final(self).nodes,
                    old(self).schedule.next_id,
                    seq![quick_steps(location, power_bits)],
                )
            },
    {
        let key = match self.schedule.prepare_quick(duration) {
            Some(k) => k,
            None => return None,
        };
        let mut frames: Vec<Steps> = Vec::new();
        frames.push(make_quick_steps(location, power_bits));
        if key.0 < self.frames.len() {
            self.frames.set(key.0, frames);
        } else {
            self.frames.push(frames);
        }
        proof {
            assert forall|e: int, i: int|
                0 <= e < self.frames@.len() && 0 <= i < self.frames@[e]@.len() implies steps_ready(
                #[trigger] self.frames@[e]@[i],
            ) by {
                if e != key.0 {
                    assert(self.frames@[e] == old(self).frames@[e]);
                }
            }
            assert(self.event_frames(key) == seq![quick_steps(location, power_bits)]);
        }
        self.start_event(key)
    }

    /// Runs one map tick: the schedule decides which instances run, wait or
    /// leave, and each instance that leaves with nodes drops them from the
    /// store, in order.
    pub fn tick(&mut self) -> (res: TickOutcome)
        requires
            old(self).wf(),
            old(self).schedule.now < u64::MAX,
        ensures
            final(self).wf(),
            final(self).schedule.now == old(self).schedule.now + 1,
            final(self).schedule.durations@ == old(self).schedule.durations@,
            final(self).schedule.next_id == old(self).schedule.next_id,
            final(self).schedule.instances@ == kept_instances(
                old(self).schedule.durations@,
                old(self).schedule.live@,
                old(self).schedule.now,
                old(self).schedule.instances@,
            ),
            res.to_tick@ == ticked_instances(
                old(self).schedule.durations@,
                old(self).schedule.live@,
                old(self).schedule.now,
                old(self).schedule.instances@,
            ),
            res.dropped@ == dropped_ids(
                old(self).schedule.durations@,
                old(self).schedule.live@,
                old(self).schedule.now,
                old(self).schedule.instances@,
            ),
            res.changed == any_leaves(
                old(self).schedule.durations@,
                old(self).schedule.live@,
                old(self).schedule.now,
                old(self).schedule.instances@,
            ),
            ({
                let d = spec_drop_all(
                    old(self).nodes.transient@,
                    old(self).nodes.entries(),
                    res.dropped@,
                    res.dropped@.len() as int,
                );
                &&& final(self).nodes.transient@ == d.0
                &&& final(self).nodes.entries().dom() == d.1.dom()
                &&& forall|k: u64|
                    #[trigger] d.1.dom().contains(k) ==> final(self).nodes.entries()[k].groups == d.1[k].groups
                        && final(self).nodes.entries()[k].layer == d.1[k].layer
                &&& fields_of(final(self).nodes.entries()) == played_all(
                    d.0,
                    fields_of(d.1),
                    old(self).frames@,
                    res.to_tick@,
                    res.to_tick@.len() as int,
                )
            }),
            final(self).nodes.active_streaming@ == old(self).nodes.active_streaming@,
            final(self).frames@ == old(self).frames@,
    {
        let out = self.schedule.tick();
        let ghost t0 = old(self).nodes.transient@;
        let ghost e0 = old(self).nodes.entries();
        let ghost sched = self.schedule;
        let mut j: usize = 0;
        while j < out.dropped.len()
            invariant
                j <= out.dropped@.len(),
                self.schedule == sched,
                self.frames@ == old(self).frames@,
                old(self).wf(),
                self.nodes.wf(),
                (self.nodes.transient@, self.nodes.entries()) == spec_drop_all(t0, e0, out.dropped@, j as int),
                self.nodes.active_streaming@ == old(self).nodes.active_streaming@,
                forall|x: usize|
                    #[trigger] owner_ids(self.nodes.transient@).contains(x) <==> (owner_ids(t0).contains(x)
                        && !out.dropped@.subrange(0, j as int).contains(x)),
            decreases out.dropped@.len() - j,
        {
            let id = out.dropped[j];
            proof {
                lemma_drop_owners(self.nodes.transient@, self.nodes.entries(), id);
            }
            self.nodes.drop_instance(id);
            proof {
                let d = out.dropped@;
                let s0 = d.subrange(0, j as int);
                let s1 = d.subrange(0, j + 1);
                assert forall|x: usize| #[trigger] owner_ids(self.nodes.transient@).contains(x) <==> (owner_ids(
                    t0,
                ).contains(x) && !s1.contains(x)) by {
                    if s1.contains(x) && x != id {
                        let k = choose|k: int| 0 <= k < s1.len() && #[trigger] s1[k] == x;
                        assert(k < j);
                        assert(s0[k] == x);
                    }
                    if s0.contains(x) {
                        let k = choose|k: int| 0 <= k < s0.len() && #[trigger] s0[k] == x;
                        assert(s1[k] == x);
                    }
                    assert(s1[j as int] == id);
                }
            }
            j += 1;
        }
        proof {
            assert(out.dropped@.subrange(0, j as int) =~= out.dropped@);
            lemma_without_ids(old(self).schedule.live@, out.dropped@);
        }
        let ghost t1 = self.nodes.transient@;
        let ghost e1 = self.nodes.entries();
        let mut p: usize = 0;
        while p < out.to_tick.len()
            invariant
                p <= out.to_tick@.len(),
                self.schedule == sched,
                self.frames@ == old(self).frames@,
                frames_ready(self.frames@),
                self.frames@.len() == self.schedule.durations@.len(),
                self.nodes.wf(),
                linked(self.schedule, self.nodes),
                self.nodes.transient@ == t1,
                self.nodes.active_streaming@ == old(self).nodes.active_streaming@,
                self.nodes.entries().dom() == e1.dom(),
                forall|k: u64|
                    #[trigger] e1.dom().contains(k) ==> self.nodes.entries()[k].groups == e1[k].groups
                        && self.nodes.entries()[k].layer == e1[k].layer,
                fields_of(self.nodes.entries()) == played_all(t1, fields_of(e1), self.frames@, out.to_tick@, p as int),
            decreases out.to_tick@.len() - p,
        {
            let inst = out.to_tick[p].0;
            let since = out.to_tick[p].1;
            let ghost before = self.nodes.entries();
            match find_owner(&self.nodes.transient, inst.id) {
                Some(i) => {
                    if inst.key.0 < self.frames.len() {
                        let keys = copy_u64s(&self.nodes.transient[i].1);
                        tick_event(&mut self.nodes, keys.as_slice(), self.frames[inst.key.0].as_slice(), since);
                    }
                },
                None => {},
            }
            p += 1;
        }
        out
    }
}

/// The quick event can be started: none is remembered yet, or the
/// remembered one is still registered.
pub open spec fn quick_available(s: EventSchedule) -> bool {
    s.quick matches Some(k) ==> k.0 < s.durations@.len()
}

/// The key that a quick request starts: the remembered quick event, or the
/// next key.
pub open spec fn quick_key(s: EventSchedule) -> EventKey {
    match s.quick {
        Some(k) => k,
        None => EventKey(s.durations@.len() as usize),
    }
}

/// The steps of a quick event: a constant location and power, unmuted, at
/// full weight (`f32` 1.0) with a radius of 0.0375.
pub open spec fn quick_steps(location: Vec3Bits, power_bits: u32) -> Steps {
    Steps {
        position: MaybeConst::Const(location),
        muted: MaybeConst::Const(false),
        value: MaybeConst::Const(power_bits),
        weight: MaybeConst::Const(0x3f80_0000u32),
        radius: MaybeConst::Const(0x3d19_999au32),
    }
}

fn make_quick_steps(location: Vec3Bits, power_bits: u32) -> (res: Steps)
    ensures
        res == quick_steps(location, power_bits),
        steps_ready(res),
{
    Steps {
        position: MaybeConst::Const(location),
        muted: MaybeConst::Const(false),
        value: MaybeConst::Const(power_bits),
        weight: MaybeConst::Const(0x3f80_0000u32),
        radius: MaybeConst::Const(0x3d19_999au32),
    }
}

} // verus!
