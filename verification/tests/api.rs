use std::path::PathBuf;

use haptic_core::api::{
    cache_file_name, cached_map_entry, choose_map_source, pick_schema, find_local_map, find_remote_map, remote_map_url, schema_candidates,
    ApiRetrievalError, LocalAvailableMap, LocalAvailableSchema, MapSource, NetworkAvailableMap, SCHEMA_FOLDER,
};

fn local(author: &str, name: &str, version: u32) -> LocalAvailableMap {
    LocalAvailableMap {
        author: author.to_string(),
        name: name.to_string(),
        version,
        path: PathBuf::from(format!("/maps/{author}_{name}_{version}.json")),
    }
}

fn remote(author: &str, name: &str, version: u32) -> NetworkAvailableMap {
    NetworkAvailableMap {
        author: author.to_string(),
        name: name.to_string(),
        version,
        url: format!("maps/{name}.json"),
    }
}

fn schema(id: &str, version: u32) -> LocalAvailableSchema {
    LocalAvailableSchema { id: id.to_string(), version, path: PathBuf::from(format!("/cams/{id}-{version}.md")) }
}

#[test]
fn local_copy_of_the_exact_version_comes_first() {
    let locals = vec![local("a", "m", 1), local("a", "m", 2)];
    let remotes = Some(vec![remote("a", "m", 3)]);
    assert_eq!(choose_map_source(&locals, &remotes, "a", "m", 2), MapSource::Local(1));
    assert_eq!(choose_map_source(&locals, &remotes, "a", "m", 3), MapSource::Remote(0));
    assert_eq!(choose_map_source(&locals, &None, "a", "m", 3), MapSource::NotFound);
    assert_eq!(choose_map_source(&locals, &remotes, "b", "m", 1), MapSource::NotFound);
}

#[test]
fn map_lookups_take_the_first_match() {
    let locals = vec![local("a", "m", 1), local("a", "m", 1)];
    assert_eq!(find_local_map(&locals, "a", "m", 1), Some(0));
    assert_eq!(find_local_map(&locals, "a", "m", 9), None);
    let remotes = vec![remote("x", "y", 1), remote("a", "m", 5), remote("a", "m", 6)];
    assert_eq!(find_remote_map(&remotes, "a", "m"), Some(1));
    assert_eq!(find_remote_map(&remotes, "a", "q"), None);
}

#[test]
fn schema_candidates_highest_version_first() {
    let entries = vec![schema("cam", 1), schema("other", 9), schema("cam", 3), schema("cam", 2), schema("cam", 3)];
    assert_eq!(schema_candidates(&entries, "cam"), vec![2, 4, 3, 0]);
    assert!(schema_candidates(&entries, "none").is_empty());
    assert!(entries[2].same_schema(&entries[4]));
    assert!(!entries[0].same_schema(&entries[2]));
}

#[test]
fn cache_file_names_and_urls() {
    assert_eq!(cache_file_name("auth", "map", 12), "auth_map_12.json");
    assert_eq!(cache_file_name("a", "b", 0), "a_b_0.json");
    assert_eq!(remote_map_url("http://host/", &remote("a", "m", 1)), "http://host/maps/m.json");
    assert_eq!(SCHEMA_FOLDER, "cameras");
}

#[test]
fn retrieval_error_messages() {
    match ApiRetrievalError::map_not_found("au", "na", 7) {
        ApiRetrievalError::MapNotFound(m) => assert_eq!(m, "No Map found for:  Author:au, name:na, version:7"),
        _ => panic!("wrong variant"),
    }
    match ApiRetrievalError::bad_remote_map(&remote("au", "na", 4294967295)) {
        ApiRetrievalError::BadResponseFromServer(m) => {
            assert_eq!(m, "Bad map received from server. Author:au, name:na, version:4294967295")
        }
        _ => panic!("wrong variant"),
    }
    match ApiRetrievalError::unreachable("http://x/y") {
        ApiRetrievalError::UnableToRetrieve(m) => assert_eq!(m, "Error Retrieving: http://x/y"),
        _ => panic!("wrong variant"),
    }
    match ApiRetrievalError::no_schema("c1") {
        ApiRetrievalError::MapNotFound(m) => assert_eq!(m, "No camera schema found for id: c1"),
        _ => panic!("wrong variant"),
    }
    match ApiRetrievalError::no_usable_schema("c1", "bad") {
        ApiRetrievalError::BadResponseFromServer(m) => {
            assert_eq!(m, "No usable camera schema for id c1. Last error: bad")
        }
        _ => panic!("wrong variant"),
    }
}

#[test]
fn fetched_maps_are_cached_under_author_name_and_version() {
    assert_eq!(cache_file_name("bob", "game", 12), "bob_game_12.json");
    let remote = NetworkAvailableMap {
        author: "bob".to_string(),
        name: "game".to_string(),
        version: 13,
        url: "/maps/game".to_string(),
    };
    let entry = cached_map_entry(&remote, std::path::PathBuf::from("/tmp/bob_game_12.json"));
    assert_eq!((entry.author.as_str(), entry.name.as_str(), entry.version), ("bob", "game", 13));
    assert_eq!(entry.path, std::path::PathBuf::from("/tmp/bob_game_12.json"));
}

fn schema_of(id: &str, bits: u32) -> haptic_core::api::cam_schema::CamConfig {
    haptic_core::api::cam_schema::CamConfig {
        id: id.to_string(),
        version: 1,
        shader: "s".to_string(),
        total_bits: 0,
        fields: vec![haptic_core::api::cam_schema::CamField {
            osc: "a".to_string(),
            kind: haptic_core::api::cam_schema::CamType::Uint,
            bits,
        }],
    }
}

fn read_candidate(i: usize) -> (String, Result<haptic_core::api::cam_schema::CamConfig, String>) {
    match i {
        0 => ("\"a.json\"".to_string(), Err("unreadable".to_string())),
        1 => ("\"b.json\"".to_string(), Ok(schema_of("cam", 40))),
        _ => ("\"c.json\"".to_string(), Ok(schema_of("cam", 8))),
    }
}

#[test]
fn schema_requests_take_the_first_usable_candidate() {
    let picked = pick_schema("cam", &[0, 1, 2, 1], read_candidate).ok().unwrap();
    assert_eq!(picked.fields[0].bits, 8);
    match pick_schema("cam", &[0, 1], read_candidate) {
        Err(ApiRetrievalError::BadResponseFromServer(m)) => assert_eq!(
            m,
            "No usable camera schema for id cam. Last error: \"b.json\": field a has an illegal width of 40 bits"
        ),
        other => panic!("unexpected {other:?}"),
    }
    match pick_schema("cam", &[1, 0], read_candidate) {
        Err(ApiRetrievalError::BadResponseFromServer(m)) => {
            assert_eq!(m, "No usable camera schema for id cam. Last error: \"a.json\": unreadable")
        }
        other => panic!("unexpected {other:?}"),
    }
    match pick_schema("cam", &[], read_candidate) {
        Err(ApiRetrievalError::MapNotFound(m)) => assert_eq!(m, "No camera schema found for id: cam"),
        other => panic!("unexpected {other:?}"),
    }
}
