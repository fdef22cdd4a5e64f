//! bHaptics devices, the body positions of the game protocol, and the
//! messages of the game API.
use vstd::prelude::*;

use crate::mapping::event::CreateEventError;
use crate::text::{push_char, str_eq, string_of};

verus! {

broadcast use vstd::string::group_string_axioms;

// ---------------------------------------------------------------------------
// Devices
// ---------------------------------------------------------------------------

/// A bHaptics device model.
#[derive(Debug, Clone, Copy, PartialEq, Eq, Structural)]
pub enum BhapticsModel {
    TacsuitX16,
}

/// The nibble of the output buffer that each motor of the X16 drives. The
/// device drives a few pins per motor and one of them is enough.
pub const X16_NIBBLE_INDICES: [usize; 16] = [0, 1, 4, 5, 10, 11, 14, 15, 20, 21, 24, 25, 30, 31, 34, 35];

/// The nibble index of X16 motor `m` of the first half, `m` in `0..8`.
pub open spec fn x16_half_nibble(m: int) -> int {
    if m < 2 {
        m
    } else if m < 4 {
        m + 2
    } else if m < 6 {
        m + 6
    } else {
        m + 8
    }
}

/// The nibble index of X16 motor `m`: the second half of the motors repeats
/// the first, 20 nibbles on.
pub open spec fn x16_nibble(m: int) -> int {
    if m < 8 {
        x16_half_nibble(m)
    } else {
        x16_half_nibble(m - 8) + 20
    }
}

/// The byte of the output buffer that X16 motor pair `p` (motors `2p` and
/// `2p + 1`) fills.
pub open spec fn x16_pair_byte(p: int) -> int {
    x16_nibble(2 * p) / 2
}

/// The level of motor `m`, or 0 past the end of the levels.
pub open spec fn level_of(levels: Seq<u8>, m: int) -> int {
    if 0 <= m < levels.len() {
        levels[m] as int
    } else {
        0
    }
}

/// What the encoder writes into byte `b` of a 20 byte X16 buffer: the level
/// of the first motor of a pair in the high nibble and of the second in the
/// low nibble; 0 in the bytes that no motor uses.
pub open spec fn x16_byte(levels: Seq<u8>, b: int) -> int {
    if exists|p: int| 0 <= p < 8 && x16_pair_byte(p) == b {
        let p = choose|p: int| 0 <= p < 8 && x16_pair_byte(p) == b;
        16 * level_of(levels, 2 * p) + level_of(levels, 2 * p + 1)
    } else {
        0
    }
}

/// The model of a name that the device advertises.
pub open spec fn spec_model_of(name: Seq<char>) -> Option<BhapticsModel> {
    if name == "TactSuitX16"@ {
        Some(BhapticsModel::TacsuitX16)
    } else {
        None
    }
}

impl BhapticsModel {
    pub fn from_name(name: &str) -> (res: Option<Self>)
        ensures
            res == spec_model_of(name@),
    {
        if str_eq(name, "TactSuitX16") {
            Some(BhapticsModel::TacsuitX16)
        } else {
            None
        }
    }

    /// Number of motors to allocate in the input map.
    pub fn motor_num(&self) -> (res: usize)
        ensures
            res == 16,
    {
        match self {
            BhapticsModel::TacsuitX16 => 16,
        }
    }

    /// The size of the output buffer that goes out over bluetooth.
    pub fn buffer_size(&self) -> (res: usize)
        ensures
            res == 20,
    {
        match self {
            BhapticsModel::TacsuitX16 => 20,
        }
    }

    /// Packs motor levels, each 0 to 15, into the write buffer: two motors
    /// per byte, the first in the high nibble. A buffer smaller than half the
    /// levels, or smaller than 20 bytes, is left as it is.
    pub fn encode_feedback(&self, buf: &mut [u8], levels: &[u8])
        requires
            forall|m: int| 0 <= m < levels@.len() ==> levels@[m] <= 15,
        ensures
            final(buf)@.len() == old(buf)@.len(),
            (old(buf)@.len() < levels@.len() / 2 || old(buf)@.len() < 20) ==> final(buf)@ == old(buf)@,
            !(old(buf)@.len() < levels@.len() / 2 || old(buf)@.len() < 20) ==> {
                &&& forall|b: int| 0 <= b < 20 ==> #[trigger] final(buf)@[b] == x16_byte(levels@, b)
                &&& forall|b: int| 20 <= b < final(buf)@.len() ==> #[trigger] final(buf)@[b] == old(buf)@[b]
            },
    {
        if buf.len() < levels.len() / 2 {
            return;
        }
        if buf.len() < 20 {
            return;
        }
        let mut k: usize = 0;
        while k < 20
            invariant
                k <= 20,
                20 <= buf@.len(),
                buf@.len() == old(buf)@.len(),
                forall|b: int| 0 <= b < k ==> buf@[b] == 0,
                forall|b: int| 20 <= b < buf@.len() ==> #[trigger] buf@[b] == old(buf)@[b],
            decreases 20 - k,
        {
            buf[k] = 0;
            k += 1;
        }
        let mut motor: usize = 0;
        while motor < 16
            invariant
                motor <= 16,
                motor % 2 == 0,
                20 <= buf@.len(),
                buf@.len() == old(buf)@.len(),
                forall|m: int| 0 <= m < levels@.len() ==> levels@[m] <= 15,
                forall|p: int| 0 <= p < motor / 2 ==> #[trigger] buf@[x16_pair_byte(p)] == 16 * level_of(levels@, 2 * p)
                    + level_of(levels@, 2 * p + 1),
                forall|b: int|
                    0 <= b < 20 && !(exists|p: int| 0 <= p < motor / 2 && x16_pair_byte(p) == b) ==> #[trigger] buf@[b]
                        == 0,
                forall|b: int| 20 <= b < buf@.len() ==> #[trigger] buf@[b] == old(buf)@[b],
            decreases 16 - motor,
        {
            let hi: u8 = if motor < levels.len() { levels[motor] } else { 0 };
            let lo: u8 = if motor + 1 < levels.len() { levels[motor + 1] } else { 0 };
            let nibble = X16_NIBBLE_INDICES[motor];
            let byte_idx = nibble / 2;
            let ghost p: int = motor as int / 2;
            assert(nibble == x16_nibble(2 * p));
            assert(X16_NIBBLE_INDICES[motor + 1] == nibble + 1);
            assert(byte_idx == x16_pair_byte(p));
            assert(buf@[byte_idx as int] == 0) by {
                assert forall|q: int| 0 <= q < p implies x16_pair_byte(q) != byte_idx by {
                    assert(x16_pair_byte(q) < x16_pair_byte(p));
                }
            }
            buf[byte_idx] = (hi << 4u8) | lo;
            assert((hi << 4u8) | lo == 16 * hi + lo) by (bit_vector)
                requires
                    hi <= 15,
                    lo <= 15,
            ;
            assert forall|q: int| 0 <= q < p implies x16_pair_byte(q) != x16_pair_byte(p) by {
                assert(x16_pair_byte(q) < x16_pair_byte(p));
            }
            motor += 2;
        }
        assert forall|b: int| 0 <= b < 20 implies #[trigger] buf@[b] == x16_byte(levels@, b) by {
            if exists|p: int| 0 <= p < 8 && x16_pair_byte(p) == b {
                let p = choose|p: int| 0 <= p < 8 && x16_pair_byte(p) == b;
                assert(buf@[x16_pair_byte(p)] == 16 * level_of(levels@, 2 * p) + level_of(levels@, 2 * p + 1));
            }
        }
    }
}

// ---------------------------------------------------------------------------
// Game positions
// ---------------------------------------------------------------------------

/// The body position of a pattern of the game protocol.
#[derive(Debug, Clone, Copy, PartialEq, Eq, Structural)]
pub enum PatternLocation {
    VestFront,
    VestBack,
    ForearmL,
    ForearmR,
    HandL,
    HandR,
    FootL,
    FootR,
    Head,
    Unknown,
}

/// The position that a protocol name stands for.
pub open spec fn spec_position_of(pos: Seq<char>) -> Option<PatternLocation> {
    if pos == "VestFront"@ || pos == "Vest"@ {
        Some(PatternLocation::VestFront)
    } else if pos == "VestBack"@ {
        Some(PatternLocation::VestBack)
    } else if pos == "ForearmL"@ {
        Some(PatternLocation::ForearmL)
    } else if pos == "ForearmR"@ {
        Some(PatternLocation::ForearmR)
    } else if pos == "HandL"@ || pos == "GloveLeft"@ {
        Some(PatternLocation::HandL)
    } else if pos == "HandR"@ || pos == "GloveRight"@ {
        Some(PatternLocation::HandR)
    } else if pos == "FootL"@ {
        Some(PatternLocation::FootL)
    } else if pos == "FootR"@ {
        Some(PatternLocation::FootR)
    } else if pos == "Head"@ {
        Some(PatternLocation::Head)
    } else {
        None
    }
}

/// The protocol name of a position.
pub open spec fn spec_position_name(loc: PatternLocation) -> Option<Seq<char>> {
    match loc {
        PatternLocation::VestFront => Some("VestFront"@),
        PatternLocation::VestBack => Some("VestBack"@),
        PatternLocation::ForearmL => Some("ForearmL"@),
        PatternLocation::ForearmR => Some("ForearmR"@),
        PatternLocation::HandL => Some("GloveLeft"@),
        PatternLocation::HandR => Some("GloveRight"@),
        PatternLocation::FootL => Some("FootL"@),
        PatternLocation::FootR => Some("FootR"@),
        PatternLocation::Head => Some("Head"@),
        PatternLocation::Unknown => None,
    }
}

pub fn position_str_to_pattern(pos: &str) -> (res: Option<PatternLocation>)
    ensures
        res == spec_position_of(pos@),
{
    if str_eq(pos, "VestFront") || str_eq(pos, "Vest") {
        Some(PatternLocation::VestFront)
    } else if str_eq(pos, "VestBack") {
        Some(PatternLocation::VestBack)
    } else if str_eq(pos, "ForearmL") {
        Some(PatternLocation::ForearmL)
    } else if str_eq(pos, "ForearmR") {
        Some(PatternLocation::ForearmR)
    } else if str_eq(pos, "HandL") || str_eq(pos, "GloveLeft") {
        Some(PatternLocation::HandL)
    } else if str_eq(pos, "HandR") || str_eq(pos, "GloveRight") {
        Some(PatternLocation::HandR)
    } else if str_eq(pos, "FootL") {
        Some(PatternLocation::FootL)
    } else if str_eq(pos, "FootR") {
        Some(PatternLocation::FootR)
    } else if str_eq(pos, "Head") {
        Some(PatternLocation::Head)
    } else {
        None
    }
}

pub fn pattern_to_position_str(loc: PatternLocation) -> (res: Option<String>)
    ensures
        match (res, spec_position_name(loc)) {
            (Some(s), Some(n)) => s@ == n,
            (None, None) => true,
            _ => false,
        },
{
    let s = match loc {
        PatternLocation::VestFront => "VestFront",
        PatternLocation::VestBack => "VestBack",
        PatternLocation::ForearmL => "ForearmL",
        PatternLocation::ForearmR => "ForearmR",
        PatternLocation::HandL => "GloveLeft",
        PatternLocation::HandR => "GloveRight",
        PatternLocation::FootL => "FootL",
        PatternLocation::FootR => "FootR",
        PatternLocation::Head => "Head",
        PatternLocation::Unknown => {
            return None;
        },
    };
    Some(String::from_str(s))
}

/// The name of a known position reads back as that position.
pub proof fn lemma_position_name_roundtrip(loc: PatternLocation)
    ensures
        spec_position_name(loc) matches Some(n) ==> spec_position_of(n) == Some(loc),
{
    reveal_strlit("VestFront");
    reveal_strlit("Vest");
    reveal_strlit("VestBack");
    reveal_strlit("ForearmL");
    reveal_strlit("ForearmR");
    reveal_strlit("HandL");
    reveal_strlit("GloveLeft");
    reveal_strlit("HandR");
    reveal_strlit("GloveRight");
    reveal_strlit("FootL");
    reveal_strlit("FootR");
    reveal_strlit("Head");
    assert("ForearmL"@[0] != "VestBack"@[0]);
    assert("ForearmR"@[7] != "ForearmL"@[7]);
    assert("GloveLeft"@[0] != "VestFront"@[0]);
    assert("FootL"@[0] != "HandL"@[0]);
    assert("FootL"@[0] != "HandR"@[0]);
    assert("FootR"@[0] != "HandL"@[0]);
    assert("FootR"@[0] != "HandR"@[0]);
    assert("FootR"@[4] != "FootL"@[4]);
    assert("Head"@[0] != "Vest"@[0]);
    match spec_position_name(loc) {
        Some(n) => {
            assert(n != "VestFront"@ ==> n.len() != 9 || n[0] != 'V');
            assert(n != "Vest"@ ==> n.len() != 4 || n[0] != 'V');
        },
        None => {},
    }
}

/// The side of the body that a position is on: -1 left, 1 right, 0 the
/// centre (vest and head).
pub open spec fn position_side(loc: PatternLocation) -> int {
    match loc {
        PatternLocation::ForearmL | PatternLocation::HandL | PatternLocation::FootL => -1,
        PatternLocation::ForearmR | PatternLocation::HandR | PatternLocation::FootR => 1,
        _ => 0,
    }
}

/// The part of the body that a position is on: 0 the vest, 1 a forearm,
/// 2 a hand, 3 a foot, 4 the head.
pub open spec fn position_part(loc: PatternLocation) -> int {
    match loc {
        PatternLocation::VestFront | PatternLocation::VestBack => 0,
        PatternLocation::ForearmL | PatternLocation::ForearmR => 1,
        PatternLocation::HandL | PatternLocation::HandR => 2,
        PatternLocation::FootL | PatternLocation::FootR => 3,
        PatternLocation::Head => 4,
        PatternLocation::Unknown => -1,
    }
}

/// The name's last four characters are `a`, `b`, `c`, `d`.
pub open spec fn ends_with4(name: Seq<char>, a: char, b: char, c: char, d: char) -> bool {
    let n = name.len() as int;
    n >= 4 && name[n - 4] == a && name[n - 3] == b && name[n - 2] == c && name[n - 1] == d
}

/// The name's first four characters are `a`, `b`, `c`, `d`.
pub open spec fn starts_with4(name: Seq<char>, a: char, b: char, c: char, d: char) -> bool {
    name.len() >= 4 && name[0] == a && name[1] == b && name[2] == c && name[3] == d
}

/// The name's last character is `c`.
pub open spec fn ends_with_char(name: Seq<char>, c: char) -> bool {
    name.len() >= 1 && name[name.len() - 1] == c
}

/// The side that a name spells: one ending in `L` or `Left` is on the left,
/// one ending in `R` or `Right` (`ight`) on the right, any other in the
/// centre.
pub open spec fn name_side(name: Seq<char>) -> int {
    if ends_with_char(name, 'L') || ends_with4(name, 'L', 'e', 'f', 't') {
        -1
    } else if ends_with_char(name, 'R') || ends_with4(name, 'i', 'g', 'h', 't') {
        1
    } else {
        0
    }
}

/// The body part that a name begins with, numbered as in `position_part`:
/// `Vest`, `Fore(arm)`, `Hand` or `Glov(e)`, `Foot`, `Head`.
pub open spec fn name_part(name: Seq<char>) -> int {
    if starts_with4(name, 'V', 'e', 's', 't') {
        0
    } else if starts_with4(name, 'F', 'o', 'r', 'e') {
        1
    } else if starts_with4(name, 'H', 'a', 'n', 'd') || starts_with4(name, 'G', 'l', 'o', 'v') {
        2
    } else if starts_with4(name, 'F', 'o', 'o', 't') {
        3
    } else if starts_with4(name, 'H', 'e', 'a', 'd') {
        4
    } else {
        -1
    }
}

/// Every name that reads as a position spells that position: the body part
/// it begins with, the side it ends with, and for the vest whether it ends
/// in `Back`. So an alias can never land on the other side or another part.
pub proof fn lemma_position_name_spells_position(name: Seq<char>)
    ensures
        spec_position_of(name) matches Some(loc) ==> {
            &&& name_part(name) == position_part(loc)
            &&& name_side(name) == position_side(loc)
            &&& (ends_with4(name, 'B', 'a', 'c', 'k') <==> loc == PatternLocation::VestBack)
        },
{
    reveal_strlit("VestFront");
    reveal_strlit("Vest");
    reveal_strlit("VestBack");
    reveal_strlit("ForearmL");
    reveal_strlit("ForearmR");
    reveal_strlit("HandL");
    reveal_strlit("GloveLeft");
    reveal_strlit("HandR");
    reveal_strlit("GloveRight");
    reveal_strlit("FootL");
    reveal_strlit("FootR");
    reveal_strlit("Head");
    if name == "VestFront"@ {
        assert(name =~= seq!['V', 'e', 's', 't', 'F', 'r', 'o', 'n', 't']);
    } else if name == "Vest"@ {
        assert(name =~= seq!['V', 'e', 's', 't']);
    } else if name == "VestBack"@ {
        assert(name =~= seq!['V', 'e', 's', 't', 'B', 'a', 'c', 'k']);
    } else if name == "ForearmL"@ {
        assert(name =~= seq!['F', 'o', 'r', 'e', 'a', 'r', 'm', 'L']);
    } else if name == "ForearmR"@ {
        assert(name =~= seq!['F', 'o', 'r', 'e', 'a', 'r', 'm', 'R']);
    } else if name == "HandL"@ {
        assert(name =~= seq!['H', 'a', 'n', 'd', 'L']);
    } else if name == "GloveLeft"@ {
        assert(name =~= seq!['G', 'l', 'o', 'v', 'e', 'L', 'e', 'f', 't']);
    } else if name == "HandR"@ {
        assert(name =~= seq!['H', 'a', 'n', 'd', 'R']);
    } else if name == "GloveRight"@ {
        assert(name =~= seq!['G', 'l', 'o', 'v', 'e', 'R', 'i', 'g', 'h', 't']);
    } else if name == "FootL"@ {
        assert(name =~= seq!['F', 'o', 'o', 't', 'L']);
    } else if name == "FootR"@ {
        assert(name =~= seq!['F', 'o', 'o', 't', 'R']);
    } else if name == "Head"@ {
        assert(name =~= seq!['H', 'e', 'a', 'd']);
    }
}

/// The motor grid of each position: `(columns, rows)`. Motors run left to
/// right, top to bottom.
pub open spec fn spec_grid_dimensions(location: PatternLocation) -> (usize, usize) {
    match location {
        PatternLocation::VestFront | PatternLocation::VestBack => (4, 5),
        PatternLocation::ForearmL | PatternLocation::ForearmR => (3, 2),
        PatternLocation::Head => (6, 1),
        PatternLocation::HandL | PatternLocation::HandR => (3, 2),
        PatternLocation::FootL | PatternLocation::FootR => (3, 1),
        PatternLocation::Unknown => (1, 1),
    }
}

/// Returns `(columns, rows)` of the motor grid of a position.
pub fn grid_dimensions(location: &PatternLocation) -> (res: (usize, usize))
    ensures
        res == spec_grid_dimensions(*location),
{
    match location {
        PatternLocation::VestFront | PatternLocation::VestBack => (4, 5),
        PatternLocation::ForearmL | PatternLocation::ForearmR => (3, 2),
        PatternLocation::Head => (6, 1),
        PatternLocation::HandL | PatternLocation::HandR => (3, 2),
        PatternLocation::FootL | PatternLocation::FootR => (3, 1),
        // Fallback: single point
        _ => (1, 1),
    }
}

/// The motor count of a path point that names none.
pub fn default_motor_count() -> (res: i32)
    ensures
        res == 3,
{
    3
}

/// The length of a pattern in map ticks: one tick per 10 ms, and at least
/// one tick, as an event needs.
pub fn pattern_ticks(event_time_ms: u32) -> (res: Result<u64, CreateEventError>)
    ensures
        event_time_ms >= 10 ==> res == Ok::<u64, CreateEventError>((event_time_ms / 10) as u64),
        event_time_ms < 10 ==> res == Err::<u64, CreateEventError>(CreateEventError::NotEnoughSteps),
{
    let ticks = (event_time_ms / 10) as u64;
    if ticks < 1 {
        Err(CreateEventError::NotEnoughSteps)
    } else {
        Ok(ticks)
    }
}

/// A motor line holds one level throughout. Levels are the bytes over 125;
/// two different bytes differ by at least 1/125 as levels, far above the
/// tolerance with which levels are compared, so the line is constant exactly
/// when all its bytes are equal. An empty line counts as constant.
pub fn motor_line_is_constant(line: &[u8]) -> (res: bool)
    ensures
        res == (forall|i: int| 0 <= i < line@.len() ==> #[trigger] line@[i] == line@[0]),
{
    if line.len() == 0 {
        return true;
    }
    let first = line[0];
    let mut i: usize = 1;
    while i < line.len()
        invariant
            1 <= i <= line@.len(),
            first == line@[0],
            forall|k: int| 0 <= k < i ==> #[trigger] line@[k] == line@[0],
        decreases line@.len() - i,
    {
        if line[i] != first {
            return false;
        }
        i += 1;
    }
    true
}

// ---------------------------------------------------------------------------
// Game API messages
// ---------------------------------------------------------------------------

/// What the authentication message of a game names.
#[derive(Debug, Clone)]
pub struct ParsedAuth {
    pub name: String,
    pub application_id: String,
    pub api_key: String,
    pub creator_id: String,
    pub workspace_id: String,
}

/// The text with each pair of backslashes removed, scanning from the left.
pub open spec fn spec_strip_backslash_pairs(s: Seq<char>) -> Seq<char>
    decreases s.len(),
{
    if s.len() >= 2 && s[0] == '\\' && s[1] == '\\' {
        spec_strip_backslash_pairs(s.subrange(2, s.len() as int))
    } else if s.len() == 0 {
        s
    } else {
        seq![s[0]] + spec_strip_backslash_pairs(s.drop_first())
    }
}

/// The raw authentication message has double-escaped backslashes from the
/// SDK: removes every pair of backslashes, as `str::replace` does.
pub fn strip_backslash_pairs(contents: &str) -> (res: String)
    ensures
        res@ == spec_strip_backslash_pairs(contents@),
{
    let chars = crate::text::chars_of(contents);
    let ghost s = chars@;
    let mut out: Vec<char> = Vec::new();
    let mut i: usize = 0;
    assert(s.subrange(0, s.len() as int) =~= s);
    while i < chars.len()
        invariant
            i <= s.len(),
            s == chars@,
            out@ + spec_strip_backslash_pairs(s.subrange(i as int, s.len() as int)) == spec_strip_backslash_pairs(s),
        decreases s.len() - i,
    {
        let ghost rest = s.subrange(i as int, s.len() as int);
        if i + 1 < chars.len() && chars[i] == '\\' && chars[i + 1] == '\\' {
            assert(rest.subrange(2, rest.len() as int) =~= s.subrange(i + 2, s.len() as int));
            i += 2;
        } else {
            assert(rest.drop_first() =~= s.subrange(i + 1, s.len() as int));
            assert(out@.push(chars[i as int]) + spec_strip_backslash_pairs(rest.drop_first()) =~= out@ + (seq![
                rest[0],
            ] + spec_strip_backslash_pairs(rest.drop_first())));
            out.push(chars[i]);
            i += 1;
        }
    }
    assert(s.subrange(i as int, s.len() as int) =~= Seq::<char>::empty());
    assert(out@ + Seq::<char>::empty() =~= out@);
    string_of(&out)
}

/// One event that the server offers a game.
#[derive(Debug, Clone)]
pub struct ServerEvent {
    pub event_name: String,
    pub event_time: u32,
}

/// A message from the server to a game.
#[derive(Debug, Clone)]
pub enum SendMessage {
    ServerReady,
    ServerEventNameList(Vec<String>),
    ServerEventList(Vec<ServerEvent>),
}

/// The answer to an authentication: the server is ready, one placeholder
/// event name, and no events.
pub fn create_init_response() -> (res: Vec<SendMessage>)
    ensures
        res@.len() == 3,
        res@[0] is ServerReady,
        res@[1] matches SendMessage::ServerEventNameList(names) && names@.len() == 1 && names@[0]@ == "event_names"@,
        res@[2] matches SendMessage::ServerEventList(events) && events@.len() == 0,
{
    let mut names: Vec<String> = Vec::new();
    names.push(String::from_str("event_names"));
    let mut out: Vec<SendMessage> = Vec::new();
    out.push(SendMessage::ServerReady);
    out.push(SendMessage::ServerEventNameList(names));
    out.push(SendMessage::ServerEventList(Vec::new()));
    out
}

} // verus!
