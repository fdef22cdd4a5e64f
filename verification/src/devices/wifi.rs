//! The per tick decisions of a wifi haptics device, and the OSC messages
//! that it sends.
//!
//! Times are milliseconds of a monotonic clock that the caller reads.
use vstd::prelude::*;

use crate::mapping::haptic_node::{spec_node_bytes, PackedNode};
use crate::text::{chars_of, str_eq, string_of};

verus! {

/// What the device state says about the link on a tick.
#[derive(Debug, Clone, Copy, PartialEq, Eq, Structural)]
pub struct WifiTickState {
    /// A config for the device is known, and the map must go to it.
    pub push_map: bool,
    /// The config was asked for.
    pub been_query: bool,
    /// When the last ping went out; `None` before the first one.
    pub pinged_at: Option<u64>,
    /// When the last heartbeat came in.
    pub last_heartbeat: u64,
    /// A config for the device is known.
    pub has_config: bool,
    /// The platform was asked for.
    pub been_platform_query: bool,
}

/// What a tick does.
#[derive(Debug, Clone, Copy, PartialEq, Eq, Structural)]
pub enum TickAction {
    /// Drop the device: it stopped answering, or it was cancelled.
    Kill,
    /// Send the first ping, and end the tick.
    Ping,
    /// Send the node map of the config.
    PushMap,
    /// Ask the device for its config.
    Query,
    /// Ask the device for its platform.
    QueryPlatform,
    /// Send the motor levels.
    Drive,
    /// Nothing to do.
    Idle,
}

/// `a - b`, or 0 when `b` is later.
pub open spec fn since(a: u64, b: u64) -> u64 {
    if a >= b {
        (a - b) as u64
    } else {
        0
    }
}

/// The first decision of a tick, on the link: kill a silent or cancelled
/// device, ping a new one.
pub open spec fn spec_link_action(s: WifiTickState, now: u64, ttl: u64, cancelled: bool) -> TickAction {
    match s.pinged_at {
        Some(p) => if (since(now, s.last_heartbeat) > ttl && since(now, p) > ttl) || cancelled {
            TickAction::Kill
        } else {
            TickAction::Idle
        },
        None => TickAction::Ping,
    }
}

/// The second decision of a tick, on the data: push the map, ask for the
/// config, ask for the platform, or drive the motors.
pub open spec fn spec_data_action(s: WifiTickState) -> TickAction {
    if s.push_map && s.has_config {
        TickAction::PushMap
    } else if !s.has_config && !s.been_query {
        TickAction::Query
    } else if !s.been_platform_query {
        TickAction::QueryPlatform
    } else if s.has_config {
        TickAction::Drive
    } else {
        TickAction::Idle
    }
}

/// The state after the data decision.
pub open spec fn spec_after_data(s: WifiTickState) -> WifiTickState {
    match spec_data_action(s) {
        TickAction::PushMap => WifiTickState { push_map: false, ..s },
        TickAction::Query => WifiTickState { been_query: true, ..s },
        TickAction::QueryPlatform => WifiTickState { been_platform_query: true, ..s },
        _ => s,
    }
}

/// Decides one device tick. The link decision comes first; a ping ends the
/// tick, any other outcome goes on to the data decision. Returns both
/// decisions; the second is `Idle` after a ping.
pub fn decide_tick(state: &mut WifiTickState, now: u64, ttl: u64, cancelled: bool) -> (res: (TickAction, TickAction))
    ensures
        res.0 == spec_link_action(*old(state), now, ttl, cancelled),
        res.0 == TickAction::Ping ==> res.1 == TickAction::Idle && *final(state) == (WifiTickState {
            pinged_at: Some(now),
            ..*old(state)
        }),
        res.0 != TickAction::Ping ==> res.1 == spec_data_action(*old(state)) && *final(state) == spec_after_data(
            *old(state),
        ),
{
    let link = match state.pinged_at {
        Some(p) => {
            let since_pinged = if now >= p { now - p } else { 0 };
            let diff = if now >= state.last_heartbeat { now - state.last_heartbeat } else { 0 };
            if (diff > ttl && since_pinged > ttl) || cancelled {
                TickAction::Kill
            } else {
                TickAction::Idle
            }
        },
        None => {
            state.pinged_at = Some(now);
            return (TickAction::Ping, TickAction::Idle);
        },
    };
    let data = if state.push_map && state.has_config {
        state.push_map = false;
        TickAction::PushMap
    } else if !state.has_config && !state.been_query {
        state.been_query = true;
        TickAction::Query
    } else if !state.been_platform_query {
        state.been_platform_query = true;
        TickAction::QueryPlatform
    } else if state.has_config {
        TickAction::Drive
    } else {
        TickAction::Idle
    };
    (link, data)
}

/// The lower case hex digit of a value below 16.
pub open spec fn hex_digit(v: int) -> char {
    if v < 10 {
        ((48 + v) as u32) as char
    } else {
        ((87 + v) as u32) as char
    }
}

/// Four lower case hex digits of a level, high digit first.
pub open spec fn hex4(v: u16) -> Seq<char> {
    seq![
        hex_digit((v as int / 4096) % 16),
        hex_digit((v as int / 256) % 16),
        hex_digit((v as int / 16) % 16),
        hex_digit(v as int % 16),
    ]
}

/// The drive text of the levels: four hex digits per motor.
pub open spec fn spec_drive_hex(levels: Seq<u16>) -> Seq<char>
    decreases levels.len(),
{
    if levels.len() == 0 {
        Seq::empty()
    } else {
        spec_drive_hex(levels.drop_last()) + hex4(levels.last())
    }
}

fn hex_char(v: u16) -> (res: char)
    requires
        v < 16,
    ensures
        res == hex_digit(v as int),
{
    if v < 10 {
        ((48 + v) as u8) as char
    } else {
        ((87 + v) as u8) as char
    }
}

/// The drive message text: each motor level as four lower case hex digits,
/// in motor order.
pub fn drive_hex(levels: &[u16]) -> (res: String)
    ensures
        res@ == spec_drive_hex(levels@),
{
    let mut chars: Vec<char> = Vec::new();
    let mut i: usize = 0;
    while i < levels.len()
        invariant
            i <= levels@.len(),
            chars@ == spec_drive_hex(levels@.subrange(0, i as int)),
        decreases levels@.len() - i,
    {
        let v = levels[i];
        assert(levels@.subrange(0, i + 1).drop_last() =~= levels@.subrange(0, i as int));
        chars.push(hex_char((v / 4096) % 16));
        chars.push(hex_char((v / 256) % 16));
        chars.push(hex_char((v / 16) % 16));
        chars.push(hex_char(v % 16));
        assert(chars@ =~= spec_drive_hex(levels@.subrange(0, i + 1)));
        i += 1;
    }
    assert(levels@.subrange(0, i as int) =~= levels@);
    string_of(&chars)
}

/// `pat` occurs in `s`.
pub open spec fn contains_sub(s: Seq<char>, pat: Seq<char>) -> bool {
    exists|i: int| 0 <= i <= s.len() - pat.len() && #[trigger] s.subrange(i, i + pat.len()) == pat
}

/// `pat` occurs in `s` at `i`.
fn matches_at(s: &Vec<char>, pat: &Vec<char>, i: usize) -> (res: bool)
    requires
        i + pat@.len() <= s@.len(),
    ensures
        res == (s@.subrange(i as int, i + pat@.len()) == pat@),
{
    let n = s.len();
    let mut k: usize = 0;
    while k < pat.len()
        invariant
            k <= pat@.len(),
            n == s@.len(),
            i + pat@.len() <= s@.len(),
            forall|j: int| 0 <= j < k ==> s@[i + j] == pat@[j],
        decreases pat@.len() - k,
    {
        if s[i + k] != pat[k] {
            assert(s@.subrange(i as int, i + pat@.len())[k as int] != pat@[k as int]);
            return false;
        }
        k += 1;
    }
    assert(s@.subrange(i as int, i + pat@.len()) =~= pat@);
    true
}

/// `str::contains` on a text pattern.
pub fn contains_str(s: &str, pat: &str) -> (res: bool)
    ensures
        res == contains_sub(s@, pat@),
{
    let sc = chars_of(s);
    let pc = chars_of(pat);
    if pc.len() == 0 {
        assert(s@.subrange(0, 0int + pat@.len()) =~= pat@);
        return true;
    }
    if pc.len() > sc.len() {
        return false;
    }
    let mut i: usize = 0;
    while i <= sc.len() - pc.len()
        invariant
            1 <= pc@.len() <= sc@.len(),
            sc@ == s@,
            pc@ == pat@,
            i <= sc@.len() - pc@.len() + 1,
            forall|j: int| 0 <= j < i ==> #[trigger] sc@.subrange(j, j + pc@.len()) != pc@,
        decreases sc@.len() - pc@.len() + 1 - i,
    {
        if matches_at(&sc, &pc, i) {
            return true;
        }
        i += 1;
    }
    false
}

/// A signal from a device connection, handled on the device's next tick.
#[derive(Debug, Clone, PartialEq, Eq)]
pub enum WifiTickSignal {
    /// A line of the device log.
    NewDeviceLog(String),
    /// The device config, as the JSON text that the device sent.
    NewConfig(String),
    /// The device confirmed a change, so the config it sent before is stale.
    ResetConfig,
    /// The platform string that the device reported.
    NewIdentifier(String),
    /// The device is alive.
    NewHeartBeat,
    /// A ping arrived.
    PingConfirmation,
}

/// The signal that one message from a device raises, by its address and its
/// first argument when that is a string; `None` for a message that raises
/// none (a `/command` without a string, a `/log` without a string, an
/// unknown address).
pub fn message(addr: &str, first: Option<&str>) -> (res: Option<WifiTickSignal>)
    ensures
        addr@ == "/hrtbt"@ ==> res == Some(WifiTickSignal::NewHeartBeat),
        addr@ != "/hrtbt"@ && addr@ == "/command"@ ==> match first {
            Some(c) => if contains_sub(c@, "set to"@) {
                res == Some(WifiTickSignal::ResetConfig)
            } else if contains_sub(c@, "PLATFORM"@) {
                res matches Some(WifiTickSignal::NewIdentifier(t)) && t@ == c@
            } else {
                res matches Some(WifiTickSignal::NewConfig(t)) && t@ == c@
            },
            None => res is None,
        },
        addr@ != "/hrtbt"@ && addr@ != "/command"@ && addr@ == "/ping"@ ==> res == Some(
            WifiTickSignal::PingConfirmation,
        ),
        addr@ != "/hrtbt"@ && addr@ != "/command"@ && addr@ != "/ping"@ && addr@ == "/log"@ ==> match first {
            Some(c) => res matches Some(WifiTickSignal::NewDeviceLog(t)) && t@ == c@,
            None => res is None,
        },
        addr@ != "/hrtbt"@ && addr@ != "/command"@ && addr@ != "/ping"@ && addr@ != "/log"@ ==> res is None,
{
    if str_eq(addr, "/hrtbt") {
        Some(WifiTickSignal::NewHeartBeat)
    } else if str_eq(addr, "/command") {
        match first {
            Some(cmd) => {
                // A confirmation that something was reset invalidates the config.
                if contains_str(cmd, "set to") {
                    Some(WifiTickSignal::ResetConfig)
                } else if contains_str(cmd, "PLATFORM") {
                    Some(WifiTickSignal::NewIdentifier(cmd.to_owned()))
                } else {
                    Some(WifiTickSignal::NewConfig(cmd.to_owned()))
                }
            },
            None => None,
        }
    } else if str_eq(addr, "/ping") {
        Some(WifiTickSignal::PingConfirmation)
    } else if str_eq(addr, "/log") {
        match first {
            Some(s) => Some(WifiTickSignal::NewDeviceLog(s.to_owned())),
            None => None,
        }
    } else {
        None
    }
}

/// What a signal does to the tick state: a config makes it known, a reset
/// forgets it, a heartbeat moves the last heartbeat to `now`. Returns whether
/// the device info changed (a config arrived or was reset).
pub fn apply_signal(state: &mut WifiTickState, signal: &WifiTickSignal, now: u64) -> (info_dirty: bool)
    ensures
        info_dirty == (signal is NewConfig || signal is ResetConfig),
        *final(state) == match signal {
            WifiTickSignal::NewConfig(_) => WifiTickState { has_config: true, ..*old(state) },
            WifiTickSignal::ResetConfig => WifiTickState { has_config: false, ..*old(state) },
            WifiTickSignal::NewHeartBeat => WifiTickState { last_heartbeat: now, ..*old(state) },
            _ => *old(state),
        },
{
    match signal {
        WifiTickSignal::NewConfig(_) => {
            state.has_config = true;
            true
        },
        WifiTickSignal::ResetConfig => {
            state.has_config = false;
            true
        },
        WifiTickSignal::NewHeartBeat => {
            state.last_heartbeat = now;
            false
        },
        _ => false,
    }
}

/// A device that keeps sending heartbeats is never dropped: right after a
/// heartbeat, a tick with a time-to-live of at least the time since then does
/// not kill an uncancelled device.
pub proof fn lemma_heartbeat_keeps_alive(s: WifiTickState, now: u64, later: u64, ttl: u64)
    requires
        now <= later,
        later - now <= ttl,
    ensures
        spec_link_action(WifiTickState { last_heartbeat: now, ..s }, later, ttl, false) != TickAction::Kill,
{
}

/// A device's multicast announcement: who it is and where it listens.
#[derive(Debug, Clone)]
pub struct DeviceAnnouncement {
    pub mac: String,
    pub ip: String,
    pub name: String,
    pub port: u16,
}

/// The text of an optional field, or its default.
fn text_or(field: Option<&str>, default: &str) -> (res: String)
    ensures
        res@ == match field {
            Some(t) => t@,
            None => default@,
        },
{
    match field {
        Some(t) => t.to_owned(),
        None => default.to_owned(),
    }
}

impl DeviceAnnouncement {
    /// Builds an announcement from the fields that the JSON held. A missing
    /// text field takes its placeholder; a missing port is 1027, and a port is
    /// cut to its low 16 bits.
    pub fn from_fields(mac: Option<&str>, ip: Option<&str>, name: Option<&str>, port: Option<u64>) -> (res: Self)
        ensures
            res.mac@ == match mac {
                Some(t) => t@,
                None => "UNKNOWN_MAC"@,
            },
            res.ip@ == match ip {
                Some(t) => t@,
                None => "UNKNOWN_IP"@,
            },
            res.name@ == match name {
                Some(t) => t@,
                None => "Unknown Device"@,
            },
            res.port == match port {
                Some(p) => (p % 65536) as u16,
                None => 1027u16,
            },
    {
        let port: u16 = match port {
            Some(p) => (p % 65536) as u16,
            None => 1027,
        };
        DeviceAnnouncement {
            mac: text_or(mac, "UNKNOWN_MAC"),
            ip: text_or(ip, "UNKNOWN_IP"),
            name: text_or(name, "Unknown Device"),
            port,
        }
    }
}

/// `n` rounded up to a multiple of four.
pub open spec fn pad4(n: int) -> int {
    if n % 4 == 0 {
        n
    } else {
        n + (4 - n % 4)
    }
}

/// The OSC form of a string: its bytes, then one to four zero bytes up to a
/// multiple of four.
pub open spec fn osc_padded(s: Seq<u8>) -> Seq<u8> {
    s + Seq::new((pad4(s.len() + 1int) - s.len()) as nat, |i: int| 0u8)
}

/// An OSC message to `addr` with one string argument.
pub open spec fn osc_string_message(addr: Seq<char>, arg: Seq<char>) -> Seq<u8> {
    osc_padded(vstd::utf8::encode_utf8(addr)) + seq![44u8, 115u8, 0u8, 0u8] + osc_padded(
        vstd::utf8::encode_utf8(arg),
    )
}

/// An OSC message to `addr` with one 32-bit integer argument, a port.
pub open spec fn osc_port_message(addr: Seq<char>, port: u16) -> Seq<u8> {
    osc_padded(vstd::utf8::encode_utf8(addr)) + seq![44u8, 105u8, 0u8, 0u8] + seq![
        0u8,
        0u8,
        (port / 256) as u8,
        (port % 256) as u8,
    ]
}

/// `rosc::encoder::encode` of a message to `addr` with one string argument:
/// the address and the argument each as UTF-8 bytes padded with one to four
/// zero bytes to a multiple of four, the type tags `,s` between them padded
/// the same way. The encoder writes into a `Vec` and never fails.
#[verifier::external_body]
fn encode_string_message(addr: &str, arg: &str) -> (res: Vec<u8>)
    ensures
        res@ == osc_string_message(addr@, arg@),
{
    let packet = rosc::OscPacket::Message(
        rosc::OscMessage { addr: addr.to_string(), args: vec![rosc::OscType::String(arg.to_string())] },
    );
    match rosc::encoder::encode(&packet) {
        Ok(bytes) => bytes,
        Err(_) => Vec::new(),
    }
}

/// `rosc::encoder::encode` of a message to `addr` with one `OscType::Int`
/// argument, the port: the padded address, the type tags `,i` padded, and the
/// port as four big-endian bytes. The encoder never fails.
#[verifier::external_body]
fn encode_port_message(addr: &str, port: u16) -> (res: Vec<u8>)
    ensures
        res@ == osc_port_message(addr@, port),
{
    let packet = rosc::OscPacket::Message(rosc::OscMessage { addr: addr.to_string(), args: vec![rosc::OscType::Int(port.into())] });
    match rosc::encoder::encode(&packet) {
        Ok(bytes) => bytes,
        Err(_) => Vec::new(),
    }
}

/// The first ping: `/ping` with the port that answers reach.
pub fn ping_message(port: u16) -> (res: Vec<u8>)
    ensures
        res@ == osc_port_message("/ping"@, port),
{
    encode_port_message("/ping", port)
}

/// The config request: `/command` with `get all`.
pub fn query_message() -> (res: Vec<u8>)
    ensures
        res@ == osc_string_message("/command"@, "get all"@),
{
    encode_string_message("/command", "get all")
}

/// The platform request: `/command` with `GET PLATFORM`.
pub fn platform_query_message() -> (res: Vec<u8>)
    ensures
        res@ == osc_string_message("/command"@, "GET PLATFORM"@),
{
    encode_string_message("/command", "GET PLATFORM")
}

/// The drive message: `/h` with the motor levels as four hex digits each.
pub fn drive_message(levels: &[u16]) -> (res: Vec<u8>)
    ensures
        res@ == osc_string_message("/h"@, spec_drive_hex(levels@)),
{
    let hex = drive_hex(levels);
    encode_string_message("/h", hex.as_str())
}

/// Two lower case hex digits per byte.
pub open spec fn bytes_hex(b: Seq<u8>) -> Seq<char>
    decreases b.len(),
{
    if b.len() == 0 {
        Seq::empty()
    } else {
        bytes_hex(b.drop_last()) + seq![hex_digit(b.last() as int / 16), hex_digit(b.last() as int % 16)]
    }
}

/// The hex text of the wire forms of the nodes, in order.
pub open spec fn nodes_hex(nodes: Seq<PackedNode>) -> Seq<char>
    decreases nodes.len(),
{
    if nodes.len() == 0 {
        Seq::empty()
    } else {
        nodes_hex(nodes.drop_last()) + bytes_hex(spec_node_bytes(nodes.last()))
    }
}

/// The node map message: `/command` with `SET NODE_MAP ` and the eight
/// wire bytes of each node as hex, in order.
pub fn set_map_message(nodes: &[PackedNode]) -> (res: Vec<u8>)
    ensures
        res@ == osc_string_message("/command"@, "SET NODE_MAP "@ + nodes_hex(nodes@)),
{
    let mut chars: Vec<char> = Vec::new();
    let head = "SET NODE_MAP ";
    proof {
        reveal_strlit("SET NODE_MAP ");
    }
    let mut k: usize = 0;
    while k < head.unicode_len()
        invariant
            head@ == "SET NODE_MAP "@,
            k <= head@.len(),
            chars@ == head@.subrange(0, k as int),
        decreases head@.len() - k,
    {
        chars.push(head.get_char(k));
        k += 1;
    }
    assert(chars@ == head@);
    let mut i: usize = 0;
    while i < nodes.len()
        invariant
            i <= nodes@.len(),
            chars@ == "SET NODE_MAP "@ + nodes_hex(nodes@.subrange(0, i as int)),
        decreases nodes@.len() - i,
    {
        let bytes = nodes[i].to_bytes();
        let ghost before = chars@;
        let mut j: usize = 0;
        while j < 8
            invariant
                j <= 8,
                bytes@ == spec_node_bytes(nodes@[i as int]),
                chars@ == before + bytes_hex(bytes@.subrange(0, j as int)),
            decreases 8 - j,
        {
            let b = bytes[j];
            assert(bytes@.subrange(0, j + 1).drop_last() =~= bytes@.subrange(0, j as int));
            chars.push(hex_char((b / 16) as u16));
            chars.push(hex_char((b % 16) as u16));
            assert(chars@ =~= before + bytes_hex(bytes@.subrange(0, j + 1)));
            j += 1;
        }
        assert(bytes@.subrange(0, 8) =~= bytes@);
        assert(nodes@.subrange(0, i + 1).drop_last() =~= nodes@.subrange(0, i as int));
        assert(chars@ =~= "SET NODE_MAP "@ + nodes_hex(nodes@.subrange(0, i + 1)));
        i += 1;
    }
    assert(nodes@.subrange(0, i as int) =~= nodes@);
    let text = string_of(&chars);
    encode_string_message("/command", text.as_str())
}

} // verus!
