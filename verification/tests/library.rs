//! Libraries: opening them, their zones and their albums.
use base64::Engine;
use kei::album::PhotoAlbumConfig;
use kei::cloudkit::{QueryResponse, Record};
use kei::error::ICloudError;
use kei::json::{Json, JsonNumber};
use kei::library::{
    folder_name, indexing_query, is_shared_zone, library_error, security_key_hint, FolderListing,
    FolderStep, PhotoLibrary, FOLDER_PAGE_CAP, PRIMARY_ZONE_NAME,
};
use kei::session::{check_cloudkit_errors, ApiError, HttpStatusError};

/// A parsed JSON text as the library's value.
fn json_of(value: &serde_json::Value) -> Json {
    match value {
        serde_json::Value::Null => Json::Null,
        serde_json::Value::Bool(b) => Json::Bool(*b),
        serde_json::Value::Number(n) => Json::Number(if let Some(n) = n.as_u64() {
            JsonNumber::Unsigned(n)
        } else if let Some(n) = n.as_i64() {
            JsonNumber::Negative(n)
        } else {
            JsonNumber::Float(n.as_f64().unwrap().to_bits())
        }),
        serde_json::Value::String(s) => Json::Text(s.clone()),
        serde_json::Value::Array(items) => Json::List(items.iter().map(json_of).collect()),
        serde_json::Value::Object(members) => {
            Json::Object(members.iter().map(|(name, value)| (name.clone(), json_of(value))).collect())
        }
    }
}

/// The JSON value that a text denotes.
fn js(text: &str) -> Json {
    json_of(&serde_json::from_str(text).unwrap())
}

/// The library's value as a parsed JSON text.
fn value_of(json: &Json) -> serde_json::Value {
    match json {
        Json::Null => serde_json::Value::Null,
        Json::Bool(b) => serde_json::Value::from(*b),
        Json::Number(JsonNumber::Unsigned(n)) => serde_json::Value::from(*n),
        Json::Number(JsonNumber::Negative(n)) => serde_json::Value::from(*n),
        Json::Number(JsonNumber::Float(bits)) => serde_json::Value::from(f64::from_bits(*bits)),
        Json::Text(s) => serde_json::Value::from(s.as_str()),
        Json::List(items) => serde_json::Value::Array(items.iter().map(value_of).collect()),
        Json::Object(members) => serde_json::Value::Object(
            members.iter().map(|(name, value)| (name.clone(), value_of(value))).collect(),
        ),
    }
}

fn record(name: &str, fields: &str) -> Record {
    Record {
        record_name: name.to_string(),
        record_type: "CPLAlbum".to_string(),
        fields: js(fields),
        deleted: None,
    }
}

fn answer(records: Vec<Record>) -> Result<QueryResponse, ApiError> {
    Ok(QueryResponse { records, sync_token: None, continuation_marker: None })
}

fn open(zone_id: Json, answer: &Result<QueryResponse, ApiError>) -> Result<PhotoLibrary, ICloudError> {
    PhotoLibrary::new(
        "https://example.com".to_string(),
        Vec::new(),
        zone_id,
        "private".to_string(),
        answer,
    )
}

fn finished() -> Result<QueryResponse, ApiError> {
    answer(vec![record("state", r#"{"state": {"value": "FINISHED"}}"#)])
}

fn make_library(zone_id: Json) -> PhotoLibrary {
    open(zone_id, &finished()).unwrap()
}

fn http(status: u16, body: Option<&str>) -> ApiError {
    ApiError::Http(HttpStatusError {
        status,
        url: "https://p60-ckdatabasews.icloud.com/database/1/com.apple.photos.cloud/production/private/records/query".to_string(),
        retry_after: None,
        body: body.map(str::to_string),
    })
}

fn open_error(error: ApiError) -> ICloudError {
    open(js(r#"{"zoneName": "PrimarySync"}"#), &Err(error)).err().unwrap()
}

#[test]
fn indexing_state_finished_initializes_library() {
    let lib = open(js(r#"{"zoneName": "PrimarySync"}"#), &finished()).ok().unwrap();
    assert_eq!(lib.zone_name(), "PrimarySync");
}

#[test]
fn indexing_state_running_fails_library_initialization() {
    let running = answer(vec![record("state", r#"{"state": {"value": "RUNNING"}}"#)]);
    let err = open(js(r#"{"zoneName": "PrimarySync"}"#), &running).err().unwrap().message();
    assert!(
        err.contains("RUNNING") && err.contains("indexing is finished"),
        "error should name observed and expected indexing states: {err}"
    );
}

#[test]
fn indexing_state_missing_fails_library_initialization() {
    let err = open(js(r#"{"zoneName": "PrimarySync"}"#), &answer(Vec::new()))
        .err()
        .unwrap()
        .message();
    assert!(
        err.contains("did not report whether the photo library is fully indexed"),
        "missing indexing state must fail closed: {err}"
    );
}

#[test]
fn test_zone_name_primary() {
    let lib = make_library(js(r#"{"zoneName": "PrimarySync", "zoneType": "DEFAULT_ZONE"}"#));
    assert_eq!(lib.zone_name(), "PrimarySync");
}

#[test]
fn test_zone_name_shared() {
    let lib = make_library(js(r#"{"zoneName": "SharedSync-ABCD-1234"}"#));
    assert_eq!(lib.zone_name(), "SharedSync-ABCD-1234");
}

#[test]
fn test_zone_name_missing_defaults_to_primary() {
    let lib = make_library(js(r#"{"zoneType": "DEFAULT_ZONE"}"#));
    assert_eq!(lib.zone_name(), "PrimarySync");
}

#[test]
fn test_zone_name_null_defaults_to_primary() {
    let lib = make_library(js(r#"{"zoneName": null}"#));
    assert_eq!(lib.zone_name(), "PrimarySync");
}

#[test]
fn test_clone_preserves_zone_name() {
    let lib = make_library(js(r#"{"zoneName": "SharedSync-ABCD-1234"}"#));
    let cloned = lib.clone();
    assert_eq!(cloned.zone_name(), lib.zone_name());
}

#[test]
fn test_clone_preserves_service_endpoint() {
    let lib = make_library(js(r#"{"zoneName": "PrimarySync"}"#));
    let cloned = lib.clone();
    assert!(cloned.query_url().contains("https://example.com"));
    assert_eq!(cloned.query_url(), "https://example.com/records/query?");
}

#[test]
fn test_clone_independence() {
    let lib = make_library(js(r#"{"zoneName": "PrimarySync"}"#));
    let cloned = lib.clone();
    drop(lib);
    assert_eq!(cloned.zone_name(), "PrimarySync");
}

#[test]
fn http_403_maps_to_session_expired() {
    let err = open_error(http(403, None));
    assert!(
        matches!(err, ICloudError::SessionExpired { status: 403 }),
        "expected SessionExpired {{ 403 }} so the message tracks the actual status, got: {err:?}"
    );
    assert!(err.message().contains("HTTP 403"), "display must mention HTTP 403");
}

#[test]
fn cloudkit_access_denied_still_maps_to_service_not_activated() {
    let response = js(
        r#"{"serverErrorCode": "ACCESS_DENIED", "reason": "private db access disabled for this account"}"#,
    );
    let err = open_error(ApiError::CloudKit(check_cloudkit_errors(response).unwrap_err()));
    assert!(
        matches!(err, ICloudError::ServiceNotActivated { .. }),
        "ADP body signal must still surface ServiceNotActivated, got: {err:?}"
    );
    let display = err.message();
    assert!(
        display.contains("Advanced Data Protection"),
        "expected ADP guidance, got: {display}"
    );
}

#[test]
fn http_401_maps_to_session_expired() {
    let err = open_error(http(401, None));
    assert!(matches!(err, ICloudError::SessionExpired { status: 401 }), "got: {err:?}");
}

const NO_AUTH_METHOD: &str =
    r#"{"serverErrorCode":"AUTHENTICATION_FAILED","reason":"no auth method found"}"#;

#[test]
fn http_401_no_auth_method_found_still_maps_to_session_expired() {
    let err = open_error(http(401, Some(NO_AUTH_METHOD)));
    assert!(matches!(err, ICloudError::SessionExpired { status: 401 }), "got: {err:?}");
}

#[test]
fn http_401_no_auth_method_found_logs_security_key_hint() {
    let hint = security_key_hint(&http(401, Some(NO_AUTH_METHOD))).unwrap();
    assert!(hint.contains("no auth method found"));
    assert!(hint.contains("FIDO/WebAuthn security keys"));
    assert!(hint.contains("#221"));
    assert!(hint.contains("Sign-In & Security"));
}

#[test]
fn http_401_without_fido_body_does_not_log_security_key_hint() {
    assert_eq!(security_key_hint(&http(401, None)), None);
    assert_eq!(security_key_hint(&http(403, Some(NO_AUTH_METHOD))), None);
    assert_eq!(security_key_hint(&ApiError::Other(NO_AUTH_METHOD.to_string())), None);
}

#[test]
fn http_421_maps_to_misdirected_request() {
    let err = open_error(http(421, None));
    assert!(matches!(err, ICloudError::MisdirectedRequest), "got: {err:?}");
}

#[test]
fn other_failures_are_connection_errors() {
    match library_error(&http(500, None)) {
        ICloudError::Connection(message) => assert!(message.contains("HTTP 500"), "{message}"),
        other => panic!("expected Connection, got {other:?}"),
    }
    match library_error(&ApiError::Other("no route".to_string())) {
        ICloudError::Connection(message) => assert_eq!(message, "no route"),
        other => panic!("expected Connection, got {other:?}"),
    }
}

#[test]
fn the_indexing_query_names_the_zone() {
    let body = value_of(&indexing_query(&js(r#"{"zoneName": "PrimarySync"}"#)));
    assert_eq!(body["query"]["recordType"], "CheckIndexingState");
    assert_eq!(body["zoneID"]["zoneName"], "PrimarySync");
}

fn make_folder_records(count: usize, prefix: &str) -> Vec<Record> {
    (0..count)
        .map(|i| {
            let name = format!("Album-{prefix}-{i}");
            let encoded = base64::engine::general_purpose::STANDARD.encode(name.as_bytes());
            record(
                &format!("{prefix}-{i}"),
                &format!(r#"{{"albumNameEnc": {{"value": "{encoded}"}}}}"#),
            )
        })
        .collect()
}

fn folder_page(records: Vec<Record>, marker: Option<&str>) -> QueryResponse {
    QueryResponse { records, sync_token: None, continuation_marker: marker.map(str::to_string) }
}

#[test]
fn fetch_folders_follows_continuation_marker_until_exhausted() {
    let zone = js(r#"{"zoneName": "PrimarySync"}"#);
    let mut listing = FolderListing::new();
    let first = value_of(&listing.query(&zone));
    assert!(
        first.get("continuationMarker").is_none(),
        "first POST must not include a continuationMarker"
    );
    assert_eq!(first["query"]["recordType"], "CPLAlbumByPositionLive");
    let step = listing.on_page(folder_page(make_folder_records(200, "p1"), Some("ck-p1")));
    assert_eq!(step, FolderStep::Next);
    let second = value_of(&listing.query(&zone));
    assert_eq!(second["continuationMarker"], "ck-p1");
    let step = listing.on_page(folder_page(make_folder_records(100, "p2"), None));
    assert_eq!(step, FolderStep::Complete);
    assert_eq!(listing.finish().len(), 300);
}

#[test]
fn fetch_folders_single_page_response_does_not_paginate() {
    let mut listing = FolderListing::new();
    let step = listing.on_page(folder_page(make_folder_records(50, "only"), None));
    assert_eq!(step, FolderStep::Complete);
    assert_eq!(listing.finish().len(), 50);
}

#[test]
fn fetch_folders_caps_iteration_when_continuation_never_clears() {
    let mut listing = FolderListing::new();
    let mut posts = 0;
    loop {
        let page = folder_page(make_folder_records(1, "page"), Some("marker"));
        posts += 1;
        match listing.on_page(page) {
            FolderStep::Next => continue,
            FolderStep::Truncated => break,
            FolderStep::Complete => panic!("the marker never clears"),
        }
    }
    assert!(posts <= 64, "fetch_folders must stop within the documented cap; made {posts} POSTs");
    assert_eq!(posts, FOLDER_PAGE_CAP);
    assert_eq!(listing.finish().len(), 64);
}

#[test]
fn an_empty_marker_ends_the_listing() {
    let mut listing = FolderListing::new();
    assert_eq!(listing.on_page(folder_page(Vec::new(), Some(""))), FolderStep::Complete);
}

fn album<'a>(albums: &'a [(String, PhotoAlbumConfig)], name: &str) -> &'a PhotoAlbumConfig {
    &albums.iter().find(|(key, _)| key == name).unwrap().1
}

#[test]
fn albums_are_the_smart_folders_and_the_folders() {
    let lib = make_library(js(r#"{"zoneName": "PrimarySync"}"#));
    let mut folders = make_folder_records(2, "f");
    folders.push(record("----Root-Folder----", "{}"));
    folders.push(record("----Project-Root-Folder----", "{}"));
    folders.push(record("gone", r#"{"isDeleted": {"value": true}}"#));
    folders.push(record("unnamed", r#"{"isDeleted": {"value": false}}"#));
    let names = lib.folder_titles(&folders);
    let albums = lib.albums(&folders, &names);
    assert_eq!(albums.len(), 13);
    let folder = album(&albums, "Album-f-1");
    assert_eq!(folder.name, "Album-f-1");
    assert_eq!(folder.obj_type, "CPLContainerRelationNotDeletedByAssetDate:f-1");
    assert_eq!(folder.list_type, "CPLContainerRelationLiveByAssetDate");
    assert_eq!(folder.container_id(), Some("f-1"));
    assert_eq!(folder.page_size, 100);
    let filter = value_of(folder.query_filter.as_ref().unwrap());
    assert_eq!(filter[0]["fieldName"], "parentId");
    assert_eq!(filter[0]["fieldValue"]["value"], "f-1");
    assert_eq!(album(&albums, "unnamed").container_id(), Some("unnamed"));
    let favorites = album(&albums, "Favorites");
    assert_eq!(favorites.obj_type, "CPLAssetInSmartAlbumByAssetDate:Favorite");
    assert_eq!(favorites.container_id(), None);
}

#[test]
fn a_shared_library_has_the_smart_folders_alone() {
    let lib = make_library(js(r#"{"zoneName": "SharedSync-ABCD"}"#));
    assert!(!lib.lists_folders());
    let folders = make_folder_records(2, "f");
    let names = lib.folder_titles(&folders);
    assert_eq!(names, vec!["Album-f-0", "Album-f-1"]);
    assert_eq!(lib.albums(&folders, &names).len(), 10);
}

#[test]
fn a_later_folder_takes_the_place_of_one_of_the_same_name() {
    let lib = make_library(js(r#"{"zoneName": "PrimarySync"}"#));
    let named = |name: &str, title: &str| {
        let encoded = base64::engine::general_purpose::STANDARD.encode(title.as_bytes());
        record(name, &format!(r#"{{"albumNameEnc": {{"value": "{encoded}"}}}}"#))
    };
    let folders =
        vec![named("a", "Trip"), named("b", "Trip"), named("c", "Favorites")];
    let names = lib.folder_titles(&folders);
    let albums = lib.albums(&folders, &names);
    assert_eq!(albums.len(), 11);
    assert_eq!(album(&albums, "Trip").container_id(), Some("b"));
    assert_eq!(album(&albums, "Favorites").container_id(), Some("c"));
}

#[test]
fn albums_go_by_the_names_that_their_titles_are_given() {
    let lib = make_library(js(r#"{"zoneName": "PrimarySync"}"#));
    let encoded = base64::engine::general_purpose::STANDARD.encode("Rome/Paris".as_bytes());
    let folders = vec![
        record("a", &format!(r#"{{"albumNameEnc": {{"value": "{encoded}"}}}}"#)),
        record("no/title", "{}"),
    ];
    assert_eq!(lib.folder_titles(&folders), vec!["Rome/Paris", "no/title"]);
    let names: Vec<String> =
        lib.folder_titles(&folders).iter().map(|title| title.replace('/', "_")).collect();
    let albums = lib.albums(&folders, &names);
    assert_eq!(album(&albums, "Rome_Paris").name, "Rome_Paris");
    assert_eq!(album(&albums, "Rome_Paris").container_id(), Some("a"));
    assert!(albums.iter().all(|(name, _)| name != "Rome/Paris"));
    assert_eq!(album(&albums, "no/title").container_id(), Some("no/title"));
}

#[test]
fn folder_names_fall_back_to_the_record() {
    assert_eq!(folder_name("rec", Some(b"Trip".to_vec())), "Trip");
    assert_eq!(folder_name("rec", Some(vec![0xff])), "rec");
    assert_eq!(folder_name("rec", None), "");
}

#[test]
fn the_whole_library_is_an_album_without_a_name() {
    let all = make_library(js(r#"{"zoneName": "PrimarySync"}"#)).all();
    assert_eq!(all.name, "");
    assert_eq!(all.list_type, "CPLAssetAndMasterByAssetDateWithoutHiddenOrDeleted");
    assert_eq!(all.obj_type, "CPLAssetByAssetDateWithoutHiddenOrDeleted");
    assert!(all.query_filter.is_none());
}

#[test]
fn shared_zones_are_told_by_their_prefix() {
    assert!(is_shared_zone("SharedSync-ABCD"));
    assert!(!is_shared_zone("SharedSyncABCD"));
    assert!(!is_shared_zone(PRIMARY_ZONE_NAME));
}
