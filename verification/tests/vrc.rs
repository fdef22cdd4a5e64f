use haptic_core::api::cam_schema::{CamConfig, CamField, CamType, SchemaError};
use haptic_core::vrc::camera_id_from_path;
use haptic_core::mapping::{NodeFieldKind, NodeKey, SlotFieldKind, SlotKey};
use haptic_core::vrc::cam::center::DecodedValue;
use haptic_core::vrc::datref::{
    clamp_unit_bits, encode_utf16, route_frame, scale_divisor, CameraSession, FieldSpec, RouteUpdate, SessionError,
};
use haptic_core::vrc::AddrInfo;
use haptic_core::vrc::ps::{OGBContacts, ParseOGBContactsError};
use haptic_core::vrc::session::{
    camera_alive, drop_check, session_step, DropCheck, SessionAction, SessionEvent, SessionState,
};

fn idle() -> SessionState {
    SessionState { camera_id: None, has_avatar: false, dirty: false }
}

#[test]
fn camera_id_is_the_last_path_part() {
    assert_eq!(camera_id_from_path("/avatar/parameters/haptic/cam_id/abc-123"), Some("abc-123"));
    assert_eq!(camera_id_from_path("/avatar/parameters/haptic/cam_id/"), None);
    assert_eq!(camera_id_from_path("/avatar/parameters/haptic/cam_id/a/b"), None);
    assert_eq!(camera_id_from_path("/avatar/parameters/other"), None);
}

#[test]
fn reported_camera_id_requests_its_schema_once() {
    let (s, a) = session_step(idle(), SessionEvent::CameraId("cam-1".to_string()));
    assert!(matches!(a, SessionAction::RequestSchema(ref id) if id == "cam-1"));
    assert_eq!(s.camera_id.as_deref(), Some("cam-1"));
    let (s, a) = session_step(s, SessionEvent::CameraId("cam-1".to_string()));
    assert!(matches!(a, SessionAction::Nothing));
    assert_eq!(s.camera_id.as_deref(), Some("cam-1"));
}

#[test]
fn camera_path_on_the_socket_reports_an_id() {
    let ev = SessionEvent::Address("/avatar/parameters/haptic/cam_id/xyz".to_string());
    let (s, a) = session_step(idle(), ev);
    assert!(matches!(a, SessionAction::RequestSchema(ref id) if id == "xyz"));
    assert_eq!(s.camera_id.as_deref(), Some("xyz"));
    let (s2, a2) = session_step(s, SessionEvent::Address("/avatar/parameters/Other".to_string()));
    assert!(matches!(a2, SessionAction::Nothing));
    assert_eq!(s2.camera_id.as_deref(), Some("xyz"));
}

#[test]
fn stale_schema_reply_is_dropped() {
    let (s, _) = session_step(idle(), SessionEvent::CameraId("new".to_string()));
    let (s, a) = session_step(s, SessionEvent::CameraSchema { id: "old".to_string(), loaded: true });
    assert!(matches!(a, SessionAction::DropStale));
    assert!(!s.dirty);
    let (s, a) = session_step(s, SessionEvent::CameraSchema { id: "new".to_string(), loaded: true });
    assert!(matches!(a, SessionAction::BindCamera));
    assert!(s.dirty);
    let (_, a) = session_step(s, SessionEvent::CameraSchema { id: "new".to_string(), loaded: false });
    assert!(matches!(a, SessionAction::ClearCamera));
}

#[test]
fn new_avatar_rebuilds_and_keeps_an_unreported_id() {
    let (s, _) = session_step(idle(), SessionEvent::CameraId("keep".to_string()));
    let (s, a) = session_step(s, SessionEvent::NewAvatar(None));
    assert!(matches!(a, SessionAction::Rebuild(None)));
    assert_eq!(s.camera_id.as_deref(), Some("keep"));
    assert!(s.has_avatar && s.dirty);
    let (s, a) = session_step(s, SessionEvent::NewAvatar(Some("next".to_string())));
    assert!(matches!(a, SessionAction::Rebuild(Some(ref id)) if id == "next"));
    assert_eq!(s.camera_id.as_deref(), Some("next"));
    let (_, a) = session_step(s, SessionEvent::RebuildAvatar);
    assert!(matches!(a, SessionAction::ResendAvatar));
    let (_, a) = session_step(idle(), SessionEvent::RebuildAvatar);
    assert!(matches!(a, SessionAction::Nothing));
}

#[test]
fn disconnect_forgets_the_camera() {
    let (s, _) = session_step(idle(), SessionEvent::NewAvatar(Some("c".to_string())));
    let (s, a) = session_step(s, SessionEvent::Disconnected);
    assert!(matches!(a, SessionAction::Disconnect));
    assert_eq!(s.camera_id, None);
    assert!(!s.has_avatar);
    let (_, a) = session_step(s, SessionEvent::CameraSchema { id: "c".to_string(), loaded: true });
    assert!(matches!(a, SessionAction::DropStale));
}

#[test]
fn info_is_published_only_when_dirty() {
    let dirty = SessionState { camera_id: None, has_avatar: true, dirty: true };
    let (s, a) = session_step(dirty, SessionEvent::InfoRequest);
    assert!(matches!(a, SessionAction::Publish));
    assert!(!s.dirty);
    let (_, a) = session_step(s, SessionEvent::InfoRequest);
    assert!(matches!(a, SessionAction::Nothing));
}

#[test]
fn ogb_tags_parse() {
    assert_eq!(OGBContacts::parse_tag("TouchSelf").ok(), Some(OGBContacts::TouchSelf));
    assert_eq!(OGBContacts::parse_tag("FrotOthers").ok(), Some(OGBContacts::FrotOthers));
    assert_eq!(OGBContacts::parse_tag("PenOthersNewTip").ok(), Some(OGBContacts::PenOthersNewTip));
    let err: ParseOGBContactsError = OGBContacts::parse_tag("Nope").err().unwrap();
    assert_eq!(err.0, "Nope");
    assert_eq!(err.message(), "unknown OGB contact tag: Nope");
    let parsed: Result<OGBContacts, _> = "PenSelf".parse();
    assert_eq!(parsed.ok(), Some(OGBContacts::PenSelf));
}

fn schema(fields: Vec<CamField>, total_bits: u32) -> CamConfig {
    CamConfig { id: "cam".to_string(), version: 3, shader: "s".to_string(), total_bits, fields }
}

fn cam_field(osc: &str, kind: CamType, bits: u32) -> CamField {
    CamField { osc: osc.to_string(), kind, bits }
}

fn slot(idx: u32, kind: SlotFieldKind) -> AddrInfo {
    AddrInfo::Slot(SlotKey::new(NodeKey { idx, version: 1 }, 0), kind)
}

fn routes_of(name: &String) -> Vec<AddrInfo> {
    if name == "a" {
        vec![slot(1, SlotFieldKind::Value), slot(2, SlotFieldKind::Weight)]
    } else {
        Vec::new()
    }
}

#[test]
fn session_builds_the_field_table() {
    let s = schema(vec![cam_field("a", CamType::Uint, 8), cam_field("b", CamType::Bool, 1)], 0);
    let session = CameraSession::build(&s, 0.25f32.to_bits(), true, Some("sender"), routes_of).ok().unwrap();
    assert_eq!(session.id, "cam");
    assert_eq!(session.version, 3);
    assert_eq!(session.total_bits, 9);
    assert_eq!(session.mapped_fields, 1);
    assert!(session.only_on_change);
    assert_eq!(session.field_count(), 2);
    assert_eq!((session.fields[0].bits, session.fields[0].kind), (8, 2));
    assert_eq!((session.fields[1].bits, session.fields[1].kind), (1, 3));
    assert_eq!(session.specs[0], FieldSpec { kind: 2, divisor: 255 });
    assert_eq!(session.specs[1], FieldSpec { kind: 3, divisor: 1 });
    assert_eq!(session.routes[0], routes_of(&"a".to_string()));
    assert!(session.routes[1].is_empty());
    assert_eq!(f32::from_bits(session.min_confidence_bits), 0.25);
    assert_eq!(session.sender_name, Some("sender".encode_utf16().collect::<Vec<u16>>()));
    assert_eq!(encode_utf16("a\u{e9}\u{1F600}z"), "a\u{e9}\u{1F600}z".encode_utf16().collect::<Vec<u16>>());
    assert_eq!(encode_utf16("\u{1F600}"), vec![0xD83D, 0xDE00]);
}

#[test]
fn session_refuses_bad_schemas_and_no_routes() {
    let s = schema(vec![cam_field("b", CamType::Uint, 8)], 0);
    assert!(matches!(CameraSession::build(&s, 0, false, None, routes_of), Err(SessionError::NoRoutes)));
    assert_eq!(
        SessionError::NoRoutes.message(),
        "no field of the schema drives a watched parameter"
    );
    let bad = schema(vec![cam_field("a", CamType::Uint, 8)], 12);
    match CameraSession::build(&bad, 0, false, None, routes_of) {
        Err(SessionError::Schema(SchemaError::BitTotal { stated, sum })) => {
            assert_eq!((stated, sum), (12, 8));
        }
        _ => panic!("expected a bit total error"),
    }
}

#[test]
fn session_clamps_the_confidence() {
    assert_eq!(f32::from_bits(clamp_unit_bits(1.5f32.to_bits())), 1.0);
    assert_eq!(f32::from_bits(clamp_unit_bits(f32::INFINITY.to_bits())), 1.0);
    assert_eq!(f32::from_bits(clamp_unit_bits((-0.5f32).to_bits())), 0.0);
    assert_eq!(clamp_unit_bits((-0.0f32).to_bits()), (-0.0f32).to_bits());
    assert!(f32::from_bits(clamp_unit_bits(f32::NAN.to_bits())).is_nan());
    assert_eq!(f32::from_bits(clamp_unit_bits(0.75f32.to_bits())), 0.75);
    for v in [-2.0f32, -0.0, 0.0, 0.3, 1.0, 7.0, f32::NEG_INFINITY] {
        assert_eq!(f32::from_bits(clamp_unit_bits(v.to_bits())).to_bits(), v.clamp(0.0, 1.0).to_bits());
    }
}

#[test]
fn frames_route_to_slots_and_nodes() {
    let node = NodeKey { idx: 4, version: 2 };
    let routes = vec![
        vec![slot(1, SlotFieldKind::Value), AddrInfo::Node(node, NodeFieldKind::Location)],
        Vec::new(),
        vec![AddrInfo::Node(node, NodeFieldKind::Radius), slot(2, SlotFieldKind::Muted)],
    ];
    let values = [DecodedValue::Uint(7), DecodedValue::Int(-1), DecodedValue::Bool(true)];
    let updates = route_frame(&values, &routes);
    assert_eq!(
        updates,
        vec![
            RouteUpdate::Slot {
                key: SlotKey::new(NodeKey { idx: 1, version: 1 }, 0),
                kind: SlotFieldKind::Value,
                value: DecodedValue::Uint(7)
            },
            RouteUpdate::Node { key: node, kind: NodeFieldKind::Radius, value: DecodedValue::Bool(true) },
            RouteUpdate::Slot {
                key: SlotKey::new(NodeKey { idx: 2, version: 1 }, 0),
                kind: SlotFieldKind::Muted,
                value: DecodedValue::Bool(true)
            },
        ]
    );
    // A frame with fewer values routes only the fields it has.
    assert_eq!(route_frame(&values[..1], &routes).len(), 1);
    assert!(route_frame(&[], &routes).is_empty());
}

#[test]
fn scale_divisors_of_kinds() {
    assert_eq!(scale_divisor(CamType::Uint, 8), 255);
    assert_eq!(scale_divisor(CamType::Int, 8), 127);
    assert_eq!(scale_divisor(CamType::Int, 1), 1);
    assert_eq!(scale_divisor(CamType::Float, 8), 1);
    assert_eq!(scale_divisor(CamType::Uint, 40), 0xffff_ffff);
    assert_eq!(scale_divisor(CamType::Uint, 0), 1);
}

#[test]
fn watched_addresses_are_reset_after_a_second() {
    assert!(camera_alive(5, 4));
    assert!(!camera_alive(4, 4));
    assert_eq!(drop_check(true, true, 5000), DropCheck::Refresh);
    assert_eq!(drop_check(true, false, 5000), DropCheck::Reset);
    assert_eq!(drop_check(false, true, 1001), DropCheck::Reset);
    assert_eq!(drop_check(false, false, 1000), DropCheck::Keep);
}
