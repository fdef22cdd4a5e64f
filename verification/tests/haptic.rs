use haptic_core::haptic::project::{project_effects, Effect, EffectPlan, ModeKind, ModeSpec, TactProject, Track};
use haptic_core::haptic::bhaptics::{
    create_init_response, default_motor_count, grid_dimensions, motor_line_is_constant, pattern_ticks,
    pattern_to_position_str, position_str_to_pattern, strip_backslash_pairs, BhapticsModel, PatternLocation,
    SendMessage,
};
use haptic_core::haptic::game::{handle_message, GameAction, GameMapping, GameMessage};
use haptic_core::haptic::mapping::{NodeGroup, NodeId};
use haptic_core::haptic::query::parse_query_params;
use haptic_core::mapping::event::CreateEventError;
use haptic_core::mapping::EventKey;

#[test]
fn query_params_are_read_and_decoded() {
    let (id, name) = parse_query_params("/v2/feedbacks?app_id=com.game&app_name=My%20Game");
    assert_eq!(id, "com.game");
    assert_eq!(name, "My Game");
}

#[test]
fn query_params_missing_or_undecodable_are_empty() {
    assert_eq!(parse_query_params("/v2/feedbacks"), (String::new(), String::new()));
    assert_eq!(parse_query_params("/x?other=1&app_id"), (String::new(), String::new()));
    let (id, name) = parse_query_params("/x?app_id=%FF&app_name=n");
    assert_eq!(id, "");
    assert_eq!(name, "n");
}

#[test]
fn query_params_last_pair_wins_and_stops_at_second_mark() {
    let (id, _) = parse_query_params("/x?app_id=a&app_id=b");
    assert_eq!(id, "b");
    let (id, name) = parse_query_params("/x?app_id=a?app_name=b");
    assert_eq!(id, "a");
    assert_eq!(name, "");
    let (id, _) = parse_query_params("/x?app_id=a=b");
    assert_eq!(id, "a=b");
}

#[test]
fn x16_model_by_name() {
    assert_eq!(BhapticsModel::from_name("TactSuitX16"), Some(BhapticsModel::TacsuitX16));
    assert_eq!(BhapticsModel::from_name("TactSuitX40"), None);
    assert_eq!(BhapticsModel::TacsuitX16.motor_num(), 16);
    assert_eq!(BhapticsModel::TacsuitX16.buffer_size(), 20);
}

#[test]
fn x16_feedback_packs_two_motors_per_byte() {
    let mut levels = [0u8; 16];
    levels[0] = 15;
    levels[1] = 1;
    levels[2] = 7;
    levels[15] = 9;
    let mut buf = [0xAAu8; 22];
    BhapticsModel::TacsuitX16.encode_feedback(&mut buf, &levels);
    // Motors 0 and 1 share nibbles 0 and 1: byte 0.
    assert_eq!(buf[0], 0xF1);
    // Motors 2 and 3 sit at nibbles 4 and 5: byte 2.
    assert_eq!(buf[2], 0x70);
    // Motors 14 and 15 sit at nibbles 34 and 35: byte 17.
    assert_eq!(buf[17], 0x09);
    assert_eq!(buf[1], 0);
    assert_eq!(buf[20], 0xAA);
    assert_eq!(buf[21], 0xAA);
}

#[test]
fn x16_feedback_leaves_a_short_buffer() {
    let mut buf = [3u8; 10];
    BhapticsModel::TacsuitX16.encode_feedback(&mut buf, &[1u8; 16]);
    assert_eq!(buf, [3u8; 10]);
}

#[test]
fn positions_roundtrip_through_names() {
    assert_eq!(position_str_to_pattern("VestFront"), Some(PatternLocation::VestFront));
    assert_eq!(position_str_to_pattern("Head"), Some(PatternLocation::Head));
    assert_eq!(position_str_to_pattern("Nowhere"), None);
    for loc in [
        PatternLocation::VestFront,
        PatternLocation::VestBack,
        PatternLocation::ForearmL,
        PatternLocation::ForearmR,
        PatternLocation::HandL,
        PatternLocation::HandR,
        PatternLocation::FootL,
        PatternLocation::FootR,
        PatternLocation::Head,
    ] {
        let name = pattern_to_position_str(loc).unwrap();
        assert_eq!(position_str_to_pattern(&name), Some(loc));
    }
    assert_eq!(pattern_to_position_str(PatternLocation::Unknown), None);
}

#[test]
fn motor_grids() {
    assert_eq!(grid_dimensions(&PatternLocation::VestBack), (4, 5));
    assert_eq!(grid_dimensions(&PatternLocation::Head), (6, 1));
    assert_eq!(grid_dimensions(&PatternLocation::FootL), (3, 1));
    assert_eq!(grid_dimensions(&PatternLocation::Unknown), (1, 1));
    assert_eq!(default_motor_count(), 3);
}

#[test]
fn pattern_length_in_ticks() {
    assert_eq!(pattern_ticks(1000).ok(), Some(100));
    assert_eq!(pattern_ticks(19).ok(), Some(1));
    assert!(matches!(pattern_ticks(9), Err(CreateEventError::NotEnoughSteps)));
}

#[test]
fn constant_motor_lines() {
    assert!(motor_line_is_constant(&[]));
    assert!(motor_line_is_constant(&[4, 4, 4]));
    assert!(!motor_line_is_constant(&[4, 4, 5]));
}

#[test]
fn auth_backslash_pairs_are_removed() {
    assert_eq!(strip_backslash_pairs(r#"{\\"a\\":1}"#), r#"{"a":1}"#);
    assert_eq!(strip_backslash_pairs(r"a\\\b"), r"a\b");
    assert_eq!(strip_backslash_pairs("plain"), "plain");
}

#[test]
fn init_response_shape() {
    let msgs = create_init_response();
    assert_eq!(msgs.len(), 3);
    assert!(matches!(msgs[0], SendMessage::ServerReady));
    match &msgs[1] {
        SendMessage::ServerEventNameList(names) => assert_eq!(names, &vec!["event_names".to_string()]),
        _ => panic!("expected the event names"),
    }
    assert!(matches!(&msgs[2], SendMessage::ServerEventList(e) if e.is_empty()));
}

#[test]
fn bitflag_roundtrip_of_groups() {
    let groups = vec![NodeGroup::Head, NodeGroup::TorsoFront, NodeGroup::FootLeft];
    let flag = NodeGroup::to_bitflag(&groups);
    assert_eq!(NodeGroup::from_bitflag(flag), groups);
    assert_eq!(NodeGroup::to_bitflag(&[NodeGroup::All]), 0);
    assert_eq!(NodeGroup::from_bitflag(0), Vec::<NodeGroup>::new());
}

#[test]
fn groups_from_the_first_two_bytes() {
    let flag = NodeGroup::to_bitflag(&[NodeGroup::Head, NodeGroup::UpperArmRight]);
    assert_eq!(flag & 0xff00, 0);
    let text = String::from_utf8(vec![flag as u8, 0]).unwrap();
    assert_eq!(NodeGroup::parse_from_str(&text), vec![NodeGroup::Head, NodeGroup::UpperArmRight]);
    assert!(NodeGroup::parse_from_str("a").is_empty());
}

#[test]
fn left_groups_mirror_right_groups() {
    let (ra, rb) = NodeGroup::UpperArmRight.to_points();
    let (la, lb) = NodeGroup::UpperArmLeft.to_points();
    assert_eq!(f32::from_bits(la.x), -f32::from_bits(ra.x));
    assert_eq!(la.y, ra.y);
    assert_eq!(lb.z, rb.z);
    assert_eq!(f32::from_bits(lb.x), -f32::from_bits(rb.x));
}

#[test]
fn node_ids_are_uuids() {
    let mut bytes = [0u8; 16];
    for (i, b) in bytes.iter_mut().enumerate() {
        *b = i as u8;
    }
    let a = NodeId::new(bytes);
    let b = NodeId::new([0xff; 16]);
    assert_eq!(a.0, "00010203-0405-4607-8809-0a0b0c0d0e0f");
    assert_eq!(b.0, "ffffffff-ffff-4fff-bfff-ffffffffffff");
    assert_eq!(a.0.len(), 36);
    assert_eq!(a.0.matches('-').count(), 4);
    assert!(a.0.chars().all(|c| c == '-' || c.is_ascii_digit() || ('a'..='f').contains(&c)));
    assert_eq!(a.0.as_bytes()[14], b'4');
    assert!(matches!(a.0.as_bytes()[19], b'8' | b'9' | b'a' | b'b'));
    assert_ne!(a, b);
    assert!(a.eq_str(&a.0.clone()));
    let text = a.clone().into_string();
    assert_eq!(NodeId::from(text), a);
}

#[test]
fn game_mapping_plays_registered_events() {
    let mut m = GameMapping::new();
    assert_eq!(m.get("hit"), None);
    m.insert("hit".to_string(), EventKey(3));
    m.insert("shot".to_string(), EventKey(4));
    assert_eq!(m.get("hit"), Some(EventKey(3)));
    m.insert("hit".to_string(), EventKey(9));
    assert_eq!(m.get("hit"), Some(EventKey(9)));
    assert_eq!(m.get("shot"), Some(EventKey(4)));
    let play = GameMessage::Play { event_name: "hit".to_string() };
    assert!(matches!(handle_message(&m, &play), GameAction::Start(EventKey(9))));
    let unknown = GameMessage::Play { event_name: "miss".to_string() };
    assert!(matches!(handle_message(&m, &unknown), GameAction::UnknownEvent));
    assert!(matches!(handle_message(&m, &GameMessage::StopAll), GameAction::CancelEvents));
    match handle_message(&m, &GameMessage::AuthInit(r#"{\\"a\\":1}"#.to_string())) {
        GameAction::Authenticate(text) => assert_eq!(text, r#"{"a":1}"#),
        _ => panic!("expected the cleaned authentication"),
    }
}

#[test]
fn mapping_fetch_address_and_cache() {
    assert_eq!(
        haptic_core::haptic::game::mappings_url(-1, "KEY", "app1"),
        "http://sdk-apis.bhaptics.com/api/v1/haptic-definitions/workspace-v3/latest?latest-version=-1&api-key=KEY&app-id=app1"
    );
    assert_eq!(haptic_core::haptic::game::mapping_cache_file("app1"), "bhaptics_cache_app1.json");
    assert!(haptic_core::haptic::game::mapping_cache_fresh(Some(86_400_000_000_000)));
    assert!(!haptic_core::haptic::game::mapping_cache_fresh(Some(86_400_000_000_001)));
    assert!(!haptic_core::haptic::game::mapping_cache_fresh(None));
}

#[test]
fn query_percent_escapes_follow_the_byte_rules() {
    let (id, name) = parse_query_params("/x?app_id=%41%4a%6B+b&app_name=100%25%zz%4");
    assert_eq!(id, "AJk+b");
    assert_eq!(name, "100%%zz%4");
    let (id, _) = parse_query_params("/x?app_id=%C3%A9%2");
    assert_eq!(id, "é%2");
    let (id, _) = parse_query_params("/x?app_id=%4g");
    assert_eq!(id, "%4g");
}

fn mode(kind: Option<&str>, dot: bool, path: bool) -> ModeSpec {
    ModeSpec { mode: kind.map(|s| s.to_string()), has_dot: dot, has_path: path }
}

#[test]
fn projects_plan_each_known_position_of_enabled_tracks() {
    let effect = Effect {
        start_time: 100,
        offset_time: 20,
        modes: Some(vec![
            ("VestFront".to_string(), mode(None, true, false)),
            ("Nowhere".to_string(), mode(Some("dotMode"), true, false)),
            ("GloveLeft".to_string(), mode(Some("PATH_MODE"), false, true)),
            ("Head".to_string(), mode(Some("pathMode"), true, false)),
            ("FootR".to_string(), mode(Some("other"), true, true)),
        ]),
    };
    let project = TactProject {
        tracks: Some(vec![
            Track { enable: false, effects: Some(vec![effect.clone()]) },
            Track { enable: true, effects: None },
            Track {
                enable: true,
                effects: Some(vec![Effect { start_time: 0, offset_time: 0, modes: None }, effect.clone()]),
            },
        ]),
    };
    let plans = project_effects(&project);
    let plan = |mode_entry: usize, location: PatternLocation, kind: ModeKind| EffectPlan {
        track: 2,
        effect: 1,
        mode_entry,
        location,
        kind,
        start_time: 100,
        offset_time: 20,
    };
    assert_eq!(
        plans,
        vec![plan(0, PatternLocation::VestFront, ModeKind::Dot), plan(2, PatternLocation::HandL, ModeKind::Path)]
    );
    assert!(project_effects(&TactProject { tracks: None }).is_empty());
}
