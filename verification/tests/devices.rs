use haptic_core::devices::websocket::{check_hello, encode_feedback, ws_step, HelloError, WsAction, WsFrame};
use haptic_core::devices::wifi::{
    apply_signal, contains_str, decide_tick, drive_hex, drive_message, message, ping_message, platform_query_message,
    query_message, set_map_message, DeviceAnnouncement, TickAction, WifiTickSignal, WifiTickState,
};
use haptic_core::mapping::groups::{NodeGroup, TORSO_FRONT};
use haptic_core::mapping::haptic_node::PackedNode;

fn fresh() -> WifiTickState {
    WifiTickState {
        push_map: false,
        been_query: false,
        pinged_at: None,
        last_heartbeat: 0,
        has_config: false,
        been_platform_query: false,
    }
}

#[test]
fn first_tick_pings_and_ends() {
    let mut s = fresh();
    assert_eq!(decide_tick(&mut s, 100, 5000, false), (TickAction::Ping, TickAction::Idle));
    assert_eq!(s.pinged_at, Some(100));
}

#[test]
fn ticks_query_config_then_platform_then_drive() {
    let mut s = fresh();
    decide_tick(&mut s, 0, 5000, false);
    assert_eq!(decide_tick(&mut s, 20, 5000, false), (TickAction::Idle, TickAction::Query));
    assert!(s.been_query);
    assert_eq!(decide_tick(&mut s, 40, 5000, false), (TickAction::Idle, TickAction::QueryPlatform));
    assert!(s.been_platform_query);
    assert_eq!(decide_tick(&mut s, 60, 5000, false), (TickAction::Idle, TickAction::Idle));
    s.has_config = true;
    s.push_map = true;
    assert_eq!(decide_tick(&mut s, 80, 5000, false), (TickAction::Idle, TickAction::PushMap));
    assert!(!s.push_map);
    assert_eq!(decide_tick(&mut s, 100, 5000, false), (TickAction::Idle, TickAction::Drive));
}

#[test]
fn silent_or_cancelled_device_is_killed() {
    let mut s = fresh();
    decide_tick(&mut s, 0, 1000, false);
    assert_eq!(decide_tick(&mut s, 1000, 1000, false).0, TickAction::Idle);
    assert_eq!(decide_tick(&mut s, 1001, 1000, false).0, TickAction::Kill);
    let mut t = fresh();
    decide_tick(&mut t, 0, 1000, false);
    assert_eq!(decide_tick(&mut t, 5, 1000, true).0, TickAction::Kill);
}

#[test]
fn heartbeat_keeps_the_device() {
    let mut s = fresh();
    decide_tick(&mut s, 0, 1000, false);
    assert!(!apply_signal(&mut s, &WifiTickSignal::NewHeartBeat, 1500));
    assert_eq!(s.last_heartbeat, 1500);
    assert_eq!(decide_tick(&mut s, 2000, 1000, false).0, TickAction::Idle);
}

#[test]
fn config_signals_mark_the_info_dirty() {
    let mut s = fresh();
    assert!(apply_signal(&mut s, &WifiTickSignal::NewConfig("{}".to_string()), 0));
    assert!(s.has_config);
    assert!(apply_signal(&mut s, &WifiTickSignal::ResetConfig, 0));
    assert!(!s.has_config);
    let before = s;
    assert!(!apply_signal(&mut s, &WifiTickSignal::PingConfirmation, 9));
    assert!(!apply_signal(&mut s, &WifiTickSignal::NewDeviceLog("x".to_string()), 9));
    assert_eq!(s, before);
}

#[test]
fn device_messages_raise_signals() {
    assert_eq!(message("/hrtbt", None), Some(WifiTickSignal::NewHeartBeat));
    assert_eq!(message("/command", Some("motor 3 set to 4")), Some(WifiTickSignal::ResetConfig));
    assert_eq!(
        message("/command", Some("PLATFORM: ESP32S3")),
        Some(WifiTickSignal::NewIdentifier("PLATFORM: ESP32S3".to_string()))
    );
    assert_eq!(
        message("/command", Some("{\"a\":1}")),
        Some(WifiTickSignal::NewConfig("{\"a\":1}".to_string()))
    );
    assert_eq!(message("/command", None), None);
    assert_eq!(message("/ping", None), Some(WifiTickSignal::PingConfirmation));
    assert_eq!(message("/log", Some("boot")), Some(WifiTickSignal::NewDeviceLog("boot".to_string())));
    assert_eq!(message("/log", None), None);
    assert_eq!(message("/other", Some("x")), None);
}

#[test]
fn drive_text_is_four_hex_digits_per_motor() {
    assert_eq!(drive_hex(&[0, 0xffff, 0x1a2b]), "0000ffff1a2b");
    assert_eq!(drive_hex(&[]), "");
}

#[test]
fn substring_search() {
    assert!(contains_str("abc set to 1", "set to"));
    assert!(contains_str("abc", ""));
    assert!(!contains_str("ab", "abc"));
    assert!(!contains_str("set_to", "set to"));
}

#[test]
fn only_a_hello_opens_a_device() {
    assert_eq!(check_hello(Some(Some(WsFrame::Hello { node_count: 4 }))), Ok(4));
    assert_eq!(check_hello(None), Err(HelloError::Timeout));
    assert_eq!(check_hello(Some(None)), Err(HelloError::ClosedBeforeHello));
    assert_eq!(check_hello(Some(Some(WsFrame::UpdateInfo { node_count: 1 }))), Err(HelloError::NotHello));
    assert_eq!(check_hello(Some(Some(WsFrame::Other))), Err(HelloError::NotText));
    assert_eq!(check_hello(Some(Some(WsFrame::Close))), Err(HelloError::NotText));
    assert_eq!(check_hello(Some(Some(WsFrame::BadText))), Err(HelloError::BadMessage));
    assert_eq!(check_hello(Some(Some(WsFrame::ReadError))), Err(HelloError::Read));
}

#[test]
fn open_connection_frames() {
    assert_eq!(ws_step(Some(WsFrame::UpdateInfo { node_count: 6 }), 4), WsAction::UpdateNodes { resize_to: Some(6) });
    assert_eq!(ws_step(Some(WsFrame::UpdateInfo { node_count: 4 }), 4), WsAction::UpdateNodes { resize_to: None });
    assert_eq!(ws_step(Some(WsFrame::Hello { node_count: 2 }), 4), WsAction::Ignore);
    assert_eq!(ws_step(Some(WsFrame::BadText), 4), WsAction::Ignore);
    assert_eq!(ws_step(Some(WsFrame::Other), 4), WsAction::Ignore);
    assert_eq!(ws_step(Some(WsFrame::Close), 4), WsAction::Stop);
    assert_eq!(ws_step(Some(WsFrame::ReadError), 4), WsAction::Stop);
    assert_eq!(ws_step(None, 4), WsAction::Stop);
}

#[test]
fn feedback_frame_is_little_endian_f32() {
    let levels = [0.5f32.to_bits(), 1.0f32.to_bits()];
    let bytes = encode_feedback(&levels);
    let mut expected = Vec::new();
    expected.extend_from_slice(&0.5f32.to_le_bytes());
    expected.extend_from_slice(&1.0f32.to_le_bytes());
    assert_eq!(bytes, expected);
    assert!(encode_feedback(&[]).is_empty());
}

#[test]
fn announcements_fill_in_defaults() {
    let a = DeviceAnnouncement::from_fields(Some("aa:bb"), Some("10.0.0.2"), Some("Vest"), Some(1234));
    assert_eq!((a.mac.as_str(), a.ip.as_str(), a.name.as_str(), a.port), ("aa:bb", "10.0.0.2", "Vest", 1234));
    let b = DeviceAnnouncement::from_fields(None, None, None, None);
    assert_eq!((b.mac.as_str(), b.ip.as_str(), b.name.as_str(), b.port), ("UNKNOWN_MAC", "UNKNOWN_IP", "Unknown Device", 1027));
    let c = DeviceAnnouncement::from_fields(None, None, None, Some(65536 + 7));
    assert_eq!(c.port, 7);
}

#[test]
fn device_messages_are_osc_encoded() {
    let mut ping = b"/ping\0\0\0,i\0\0".to_vec();
    ping.extend_from_slice(&[0, 0, 0x23, 0x29]);
    assert_eq!(ping_message(9001), ping);
    assert_eq!(query_message(), b"/command\0\0\0\0,s\0\0get all\0".to_vec());
    assert_eq!(platform_query_message(), b"/command\0\0\0\0,s\0\0GET PLATFORM\0\0\0\0".to_vec());
    assert_eq!(drive_message(&[0xffff, 0]), b"/h\0\0,s\0\0ffff0000\0\0\0\0".to_vec());
    let node = PackedNode { x_mm: -151, y_mm: 1290, z_mm: 76, groups: NodeGroup::from_bits_retain(TORSO_FRONT) };
    assert_eq!(
        set_map_message(&[node]),
        b"/command\0\0\0\0,s\0\0SET NODE_MAP 69ff0a054c008000\0\0\0".to_vec()
    );
    assert_eq!(set_map_message(&[]), b"/command\0\0\0\0,s\0\0SET NODE_MAP \0\0\0".to_vec());
}
