//! The photos service: its endpoints, and the libraries that are found beside the primary one.
use kei::cloudkit::{QueryResponse, Record};
use kei::json::{Json, JsonNumber};
use kei::library::PhotoLibrary;
use kei::queries::{build_changes_database_request, ParamValue};
use kei::service::{
    build_service_endpoint, library_zones, service_params, LibraryDiscovery, LibraryKind,
    LibraryLookup, PhotosService, Zone,
};
use kei::session::ApiError;

/// A parsed JSON text as the library's value.
fn json_of(value: &serde_json::Value) -> Json {
    match value {
        serde_json::Value::Null => Json::Null,
        serde_json::Value::Bool(b) => Json::Bool(*b),
        serde_json::Value::Number(n) => Json::Number(if let Some(n) = n.as_u64() {
            JsonNumber::Unsigned(n)
        } else if let Some(n) = n.as_i64() {
            JsonNumber::Negative(n)
        } else {
            JsonNumber::Float(n.as_f64().unwrap().to_bits())
        }),
        serde_json::Value::String(s) => Json::Text(s.clone()),
        serde_json::Value::Array(items) => Json::List(items.iter().map(json_of).collect()),
        serde_json::Value::Object(members) => {
            Json::Object(members.iter().map(|(name, value)| (name.clone(), json_of(value))).collect())
        }
    }
}

/// The JSON value that a text denotes.
fn js(text: &str) -> Json {
    json_of(&serde_json::from_str(text).unwrap())
}

/// The library's value as a parsed JSON text.
fn value_of(json: &Json) -> serde_json::Value {
    match json {
        Json::Null => serde_json::Value::Null,
        Json::Bool(b) => serde_json::Value::from(*b),
        Json::Number(JsonNumber::Unsigned(n)) => serde_json::Value::from(*n),
        Json::Number(JsonNumber::Negative(n)) => serde_json::Value::from(*n),
        Json::Number(JsonNumber::Float(bits)) => serde_json::Value::from(f64::from_bits(*bits)),
        Json::Text(s) => serde_json::Value::from(s.as_str()),
        Json::List(items) => serde_json::Value::Array(items.iter().map(value_of).collect()),
        Json::Object(members) => serde_json::Value::Object(
            members.iter().map(|(name, value)| (name.clone(), value_of(value))).collect(),
        ),
    }
}

fn state(state: &str) -> Result<QueryResponse, ApiError> {
    Ok(QueryResponse {
        records: vec![Record {
            record_name: "state".to_string(),
            record_type: String::new(),
            fields: js(&format!(r#"{{"state": {{"value": "{state}"}}}}"#)),
            deleted: None,
        }],
        sync_token: None,
        continuation_marker: None,
    })
}

fn zone(name: &str, deleted: Option<bool>) -> Zone {
    Zone {
        zone_name: name.to_string(),
        zone_id: js(&format!(r#"{{"zoneName": "{name}"}}"#)),
        deleted,
    }
}

fn make_library(zone_name: &str) -> PhotoLibrary {
    PhotoLibrary::new(
        "https://stub.example.com".to_string(),
        Vec::new(),
        js(&format!(r#"{{"zoneName": "{zone_name}"}}"#)),
        "private".to_string(),
        &state("FINISHED"),
    )
    .ok()
    .unwrap()
}

fn make_service(params: Vec<(String, ParamValue)>) -> PhotosService {
    PhotosService::with_libraries(
        "https://p00-ckdatabasews.icloud.com".to_string(),
        params,
        make_library("PrimarySync"),
        None,
        None,
    )
}

/// Look for the libraries of zones that all have finished indexing.
fn discover(service: &PhotosService, kind: LibraryKind, zones: Vec<Zone>) -> Vec<(String, PhotoLibrary)> {
    let mut discovery = LibraryDiscovery::new(kind, zones);
    while discovery.next_zone().is_some() {
        discovery.on_answer(service, &state("FINISHED")).unwrap();
    }
    discovery.finish()
}

fn names(libraries: &[(String, PhotoLibrary)]) -> Vec<&str> {
    libraries.iter().map(|(name, _)| name.as_str()).collect()
}

#[test]
fn test_changes_database_url_construction() {
    let service_root = "https://p00-ckdatabasews.icloud.com";
    let endpoint = build_service_endpoint(service_root, "private");
    assert_eq!(
        endpoint,
        "https://p00-ckdatabasews.icloud.com/database/1/com.apple.photos.cloud/production/private"
    );
}

#[test]
fn test_build_service_endpoint_shared_library_type() {
    assert_eq!(
        build_service_endpoint("https://example.test", "shared"),
        "https://example.test/database/1/com.apple.photos.cloud/production/shared"
    );
}

#[test]
fn test_get_service_endpoint_uses_service_root_and_type() {
    let svc = make_service(Vec::new());
    assert_eq!(
        svc.get_service_endpoint("private"),
        "https://p00-ckdatabasews.icloud.com/database/1/com.apple.photos.cloud/production/private"
    );
    assert_eq!(
        svc.get_service_endpoint("shared"),
        "https://p00-ckdatabasews.icloud.com/database/1/com.apple.photos.cloud/production/shared"
    );
}

#[test]
fn test_changes_database_none_token() {
    let svc = make_service(Vec::new());
    let url = svc.changes_url();
    assert!(url.contains("/changes/database"));
    assert!(url.contains("production/private"));
    assert_eq!(value_of(&build_changes_database_request(None)), value_of(&js("{}")));
}

#[test]
fn test_changes_database_with_token() {
    assert_eq!(
        value_of(&build_changes_database_request(Some("db-token-old"))),
        value_of(&js(r#"{"syncToken": "db-token-old"}"#))
    );
}

#[test]
fn test_changes_database_with_params_in_url() {
    let svc = make_service(service_params(Vec::new()));
    let url = svc.changes_url();
    assert!(url.contains("getCurrentSyncToken=true"));
    assert!(url.contains("remapEnums=true"));
    assert!(url.ends_with("/changes/database?getCurrentSyncToken=true&remapEnums=true"));
}

#[test]
fn service_params_take_the_place_of_others() {
    let params = service_params(vec![
        ("remapEnums".to_string(), ParamValue::Flag(false)),
        ("dsid".to_string(), ParamValue::Unsigned(7)),
    ]);
    let svc = make_service(params);
    assert!(svc.changes_url().ends_with("?dsid=7&getCurrentSyncToken=true&remapEnums=true"));
}

#[test]
fn a_new_service_opens_the_primary_library() {
    let svc = PhotosService::new("https://root".to_string(), Vec::new(), &state("FINISHED"))
        .ok()
        .unwrap();
    match svc.get_library("PrimarySync") {
        LibraryLookup::Found(lib) => {
            assert_eq!(lib.zone_name(), "PrimarySync");
            assert_eq!(
                lib.query_url(),
                "https://root/database/1/com.apple.photos.cloud/production/private/records/query?getCurrentSyncToken=true&remapEnums=true"
            );
        }
        _ => panic!("the primary library is always there"),
    }
    let running = PhotosService::new("https://root".to_string(), Vec::new(), &state("RUNNING"));
    assert!(running.err().unwrap().message().contains("RUNNING"));
}

#[test]
fn test_get_library_primary_sync_short_circuits() {
    let svc = make_service(Vec::new());
    match svc.get_library("PrimarySync") {
        LibraryLookup::Found(lib) => assert_eq!(lib.zone_name(), "PrimarySync"),
        _ => panic!("the primary library needs no search"),
    }
}

#[test]
fn test_fetch_private_libraries_parses_zone_list() {
    let svc = make_service(Vec::new());
    let libs = discover(
        &svc,
        LibraryKind::Private,
        vec![zone("PrimarySync", None), zone("CMMLibrary-ABC", None)],
    );
    assert_eq!(libs.len(), 2);
    assert!(names(&libs).contains(&"PrimarySync"));
    assert!(names(&libs).contains(&"CMMLibrary-ABC"));
}

#[test]
fn test_fetch_libraries_skips_deleted_zones() {
    let svc = make_service(Vec::new());
    let libs = discover(
        &svc,
        LibraryKind::Private,
        vec![zone("LiveZone", None), zone("GoneZone", Some(true))],
    );
    assert_eq!(libs.len(), 1);
    assert!(names(&libs).contains(&"LiveZone"));
    assert!(!names(&libs).contains(&"GoneZone"));
}

#[test]
fn test_fetch_libraries_skips_cmm_share_link_zones() {
    let svc = make_service(Vec::new());
    let libs = discover(
        &svc,
        LibraryKind::Private,
        vec![
            zone("PrimarySync", None),
            zone("CMM-657AE284-D1E0-4C7F-9B4D-987888651AC6", None),
            zone("SharedSync-ABCD", None),
        ],
    );
    assert!(names(&libs).contains(&"PrimarySync"));
    assert!(names(&libs).contains(&"SharedSync-ABCD"));
    assert!(!names(&libs).contains(&"CMM-657AE284-D1E0-4C7F-9B4D-987888651AC6"));
}

#[test]
fn test_fetch_libraries_fails_on_non_deleted_zone_initialization_failure() {
    let svc = make_service(Vec::new());
    let mut discovery = LibraryDiscovery::new(
        LibraryKind::Private,
        vec![
            zone("LiveZone", None),
            zone("CMM-657AE284-D1E0-4C7F-9B4D-987888651AC6", None),
            zone("GoneZone", Some(true)),
        ],
    );
    assert_eq!(discovery.next_zone().unwrap().zone_name, "LiveZone");
    let msg = discovery.on_answer(&svc, &state("RUNNING")).unwrap_err();
    assert!(
        msg.contains("LiveZone") && msg.contains("RUNNING"),
        "regular non-deleted zone failure must fail discovery: {msg}"
    );
    assert!(msg.starts_with("Failed to load library zone LiveZone: "));
    assert!(!svc.knows(LibraryKind::Private));
}

#[test]
fn test_fetch_private_libraries_is_lazy_and_cached() {
    let mut svc = make_service(Vec::new());
    assert!(!svc.knows(LibraryKind::Private));
    let libs = discover(&svc, LibraryKind::Private, vec![zone("PrimarySync", None)]);
    svc.keep(LibraryKind::Private, libs);
    assert!(svc.knows(LibraryKind::Private));
    assert!(!svc.knows(LibraryKind::Shared));
}

#[test]
fn test_get_library_unknown_returns_error() {
    let mut svc = make_service(Vec::new());
    assert!(matches!(
        svc.get_library("DoesNotExist"),
        LibraryLookup::Fetch(LibraryKind::Private)
    ));
    svc.keep(LibraryKind::Private, Vec::new());
    assert!(matches!(
        svc.get_library("DoesNotExist"),
        LibraryLookup::Fetch(LibraryKind::Shared)
    ));
    svc.keep(LibraryKind::Shared, Vec::new());
    match svc.get_library("DoesNotExist") {
        LibraryLookup::Unknown(msg) => assert!(
            msg.contains("Unknown library") && msg.contains("DoesNotExist"),
            "error should name the unknown library: {msg}"
        ),
        _ => panic!("no library has the name"),
    }
}

#[test]
fn test_all_libraries_combines_primary_private_and_shared() {
    let mut svc = make_service(Vec::new());
    assert_eq!(svc.all_libraries().err(), Some(LibraryKind::Private));
    let private = discover(
        &svc,
        LibraryKind::Private,
        vec![zone("PrimarySync", None), zone("ExtraPrivate", None)],
    );
    svc.keep(LibraryKind::Private, private);
    assert_eq!(svc.all_libraries().err(), Some(LibraryKind::Shared));
    let shared = discover(&svc, LibraryKind::Shared, vec![zone("SharedOne", None)]);
    svc.keep(LibraryKind::Shared, shared);
    let all = svc.all_libraries().ok().unwrap();
    let names: Vec<&str> = all.iter().map(|lib| lib.zone_name()).collect();
    assert_eq!(names, vec!["PrimarySync", "ExtraPrivate", "SharedOne"]);
    assert_eq!(all[2].library_type(), "shared");
}

#[test]
fn a_private_library_comes_before_a_shared_one() {
    let svc = PhotosService::with_libraries(
        "https://root".to_string(),
        Vec::new(),
        make_library("PrimarySync"),
        Some(vec![("Twice".to_string(), make_library("private copy"))]),
        Some(vec![("Twice".to_string(), make_library("shared copy"))]),
    );
    match svc.get_library("Twice") {
        LibraryLookup::Found(lib) => assert_eq!(lib.zone_name(), "private copy"),
        _ => panic!("the library is known"),
    }
}

#[test]
fn zones_of_libraries_keep_their_order() {
    let zones = library_zones(vec![zone("b", None), zone("x", Some(true)), zone("a", Some(false))]);
    let names: Vec<&str> = zones.iter().map(|zone| zone.zone_name.as_str()).collect();
    assert_eq!(names, vec!["b", "a"]);
    assert_eq!(
        make_service(Vec::new()).zones_url(LibraryKind::Shared),
        "https://p00-ckdatabasews.icloud.com/database/1/com.apple.photos.cloud/production/shared/zones/list"
    );
}
