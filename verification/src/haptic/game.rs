//! One game connection of the bHaptics API: the events that the game's
//! mapping registered, by name, and what each message of the game asks for.
use vstd::prelude::*;

use crate::mapping::EventKey;
use crate::text::{signed_text, spec_signed_decimal, str_eq};

verus! {

broadcast use vstd::string::group_string_axioms;

/// The map of a list of registrations: a later registration of a name
/// replaces an earlier one.
pub open spec fn map_of(s: Seq<(Seq<char>, EventKey)>) -> Map<Seq<char>, EventKey>
    decreases s.len(),
{
    if s.len() == 0 {
        Map::empty()
    } else {
        map_of(s.drop_last()).insert(s.last().0, s.last().1)
    }
}

/// The event keys of a game's mapping, by event name.
#[derive(Debug, Clone)]
pub struct GameMapping {
    entries: Vec<(String, EventKey)>,
}

impl GameMapping {
    pub closed spec fn entries_view(&self) -> Seq<(Seq<char>, EventKey)> {
        self.entries@.map_values(|e: (String, EventKey)| (e.0@, e.1))
    }

    /// The registered event of each name.
    pub closed spec fn spec_map(&self) -> Map<Seq<char>, EventKey> {
        map_of(self.entries_view())
    }

    /// A mapping with no event.
    pub fn new() -> (res: Self)
        ensures
            res.spec_map() == Map::<Seq<char>, EventKey>::empty(),
    {
        let res = GameMapping { entries: Vec::new() };
        assert(res.entries_view() =~= Seq::<(Seq<char>, EventKey)>::empty());
        res
    }

    /// Registers the event of a name, replacing an earlier one.
    pub fn insert(&mut self, name: String, key: EventKey)
        ensures
            final(self).spec_map() == old(self).spec_map().insert(name@, key),
    {
        let ghost before = self.entries_view();
        let ghost n = name@;
        self.entries.push((name, key));
        assert(self.entries_view().drop_last() =~= before);
        assert(self.entries_view().last() == (n, key));
    }

    /// The event registered under a name.
    pub fn get(&self, name: &str) -> (res: Option<EventKey>)
        ensures
            match res {
                Some(k) => self.spec_map().contains_key(name@) && self.spec_map()[name@] == k,
                None => !self.spec_map().contains_key(name@),
            },
    {
        let ghost s = self.entries_view();
        let mut i = self.entries.len();
        assert(s.subrange(0, i as int) =~= s);
        while i > 0
            invariant
                i <= self.entries@.len(),
                s == self.entries_view(),
                s.len() == self.entries@.len(),
                map_of(s).contains_key(name@) == map_of(s.subrange(0, i as int)).contains_key(name@),
                map_of(s).contains_key(name@) ==> map_of(s)[name@] == map_of(s.subrange(0, i as int))[name@],
            decreases i,
        {
            let ghost pre = s.subrange(0, i as int);
            assert(pre.drop_last() =~= s.subrange(0, i - 1));
            assert(pre.last() == s[i - 1]);
            assert(s[i - 1].0 == self.entries@[i - 1].0@);
            if str_eq(self.entries[i - 1].0.as_str(), name) {
                return Some(self.entries[i - 1].1);
            }
            i -= 1;
        }
        assert(s.subrange(0, 0) =~= Seq::<(Seq<char>, EventKey)>::empty());
        None
    }
}

/// A message from a game, as far as the connection tells them apart.
#[derive(Debug, Clone)]
pub enum GameMessage {
    /// The authentication, with its raw JSON contents.
    AuthInit(String),
    /// A request to play the event with this name.
    Play { event_name: String },
    /// A request to stop every event.
    StopAll,
}

/// What the connection does with a message.
#[derive(Debug, Clone)]
pub enum GameAction {
    /// Read the authentication out of this JSON text, with the SDK's doubled
    /// backslashes removed.
    Authenticate(String),
    /// Start the registered event.
    Start(EventKey),
    /// The game named an event that its mapping does not hold.
    UnknownEvent,
    /// Cancel every running event.
    CancelEvents,
}

/// Decides what a game message asks of the map.
pub fn handle_message(mapping: &GameMapping, msg: &GameMessage) -> (res: GameAction)
    ensures
        match msg {
            GameMessage::AuthInit(c) => res matches GameAction::Authenticate(t) && t@
                == crate::haptic::bhaptics::spec_strip_backslash_pairs(c@),
            GameMessage::Play { event_name } => if mapping.spec_map().contains_key(event_name@) {
                res == GameAction::Start(mapping.spec_map()[event_name@])
            } else {
                res is UnknownEvent
            },
            GameMessage::StopAll => res is CancelEvents,
        },
{
    match msg {
        GameMessage::AuthInit(contents) => {
            GameAction::Authenticate(crate::haptic::bhaptics::strip_backslash_pairs(contents.as_str()))
        },
        GameMessage::Play { event_name } => match mapping.get(event_name.as_str()) {
            Some(k) => GameAction::Start(k),
            None => GameAction::UnknownEvent,
        },
        GameMessage::StopAll => GameAction::CancelEvents,
    }
}

/// How long a fetched mapping is reused: one day, in nanoseconds.
pub const MAPPING_CACHE_MAX_AGE_NS: u128 = 86_400_000_000_000;

/// The address that serves a game's mappings; a version of -1 asks for the
/// latest.
pub fn mappings_url(version: i32, api_key: &str, app_id: &str) -> (res: String)
    ensures
        res@ == "http://sdk-apis.bhaptics.com/api/v1/haptic-definitions/workspace-v3/latest?latest-version="@
            + spec_signed_decimal(version as int) + "&api-key="@ + api_key@ + "&app-id="@ + app_id@,
{
    let mut s = String::from_str(
        "http://sdk-apis.bhaptics.com/api/v1/haptic-definitions/workspace-v3/latest?latest-version=",
    );
    let v = signed_text(version as i64);
    s.append(v.as_str());
    s.append("&api-key=");
    s.append(api_key);
    s.append("&app-id=");
    s.append(app_id);
    s
}

/// The file that caches a game's mappings.
pub fn mapping_cache_file(app_id: &str) -> (res: String)
    ensures
        res@ == "bhaptics_cache_"@ + app_id@ + ".json"@,
{
    let mut s = String::from_str("bhaptics_cache_");
    s.append(app_id);
    s.append(".json");
    s
}

/// A cached mapping is reused while it is at most a day old. `None` is an age
/// that cannot be told (a file dated in the future): the cache is not used.
pub fn mapping_cache_fresh(age_ns: Option<u128>) -> (res: bool)
    ensures
        res == match age_ns {
            Some(a) => a <= MAPPING_CACHE_MAX_AGE_NS,
            None => false,
        },
{
    match age_ns {
        Some(a) => a <= MAPPING_CACHE_MAX_AGE_NS,
        None => false,
    }
}

/// A play request after a registration of its name starts the registered
/// event; a later registration of the name replaces it.
pub proof fn lemma_play_after_register(m: Map<Seq<char>, EventKey>, name: Seq<char>, first: EventKey, second: EventKey)
    ensures
        m.insert(name, first).contains_key(name) && m.insert(name, first)[name] == first,
        m.insert(name, first).insert(name, second)[name] == second,
{
}

} // verus!
