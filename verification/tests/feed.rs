//! The change feed of a zone, and the members of albums that live in other zones.
use kei::album::{
    note_relation_items, AssetMatcher, ChangesFeed, CrossZoneHydration, FeedError, HydrationStep,
};
use kei::asset::PhotoAsset;
use kei::cloudkit::{ChangesZoneResult, Record};
use kei::json::{Json, JsonNumber};
use kei::session::SyncTokenError;
use kei::types::ChangeReason;
use rustc_hash::FxHashMap;

/// A parsed JSON text as the library's value.
fn json_of(value: &serde_json::Value) -> Json {
    match value {
        serde_json::Value::Null => Json::Null,
        serde_json::Value::Bool(b) => Json::Bool(*b),
        serde_json::Value::Number(n) => Json::Number(if let Some(n) = n.as_u64() {
            JsonNumber::Unsigned(n)
        } else if let Some(n) = n.as_i64() {
            JsonNumber::Negative(n)
        } else {
            JsonNumber::Float(n.as_f64().unwrap().to_bits())
        }),
        serde_json::Value::String(s) => Json::Text(s.clone()),
        serde_json::Value::Array(items) => Json::List(items.iter().map(json_of).collect()),
        serde_json::Value::Object(members) => {
            Json::Object(members.iter().map(|(name, value)| (name.clone(), json_of(value))).collect())
        }
    }
}

/// The JSON value that a text denotes.
fn js(text: &str) -> Json {
    json_of(&serde_json::from_str(text).unwrap())
}

fn record(name: &str, record_type: &str, fields: &str, deleted: Option<bool>) -> Record {
    Record {
        record_name: name.to_string(),
        record_type: record_type.to_string(),
        fields: js(fields),
        deleted,
    }
}

fn changes_master(name: &str) -> Record {
    record(
        name,
        "CPLMaster",
        r#"{
            "filenameEnc": {"value": "dGVzdC5qcGc=", "type": "STRING"},
            "resOriginalRes": {
                "value": {
                    "downloadURL": "https://p01.icloud-content.com/photo.jpg",
                    "size": 1024,
                    "fileChecksum": "AAAAAAAAAAAAAAAAAAAAAAAAAAAAAAAAAAAAAAAAAAA="
                }
            },
            "resOriginalFileType": {"value": "public.jpeg"},
            "itemType": {"value": "public.jpeg"}
        }"#,
        None,
    )
}

fn changes_asset(name: &str, master: &str) -> Record {
    record(
        name,
        "CPLAsset",
        &format!(
            r#"{{
                "masterRef": {{
                    "value": {{"recordName": "{master}", "zoneID": {{"zoneName": "PrimarySync"}}}},
                    "type": "REFERENCE"
                }},
                "assetDate": {{"value": 1700000000000, "type": "TIMESTAMP"}},
                "addedDate": {{"value": 1700000000000, "type": "TIMESTAMP"}}
            }}"#
        ),
        None,
    )
}

fn relation(container_id: &str, item_id: &str) -> Record {
    record(
        &format!("relation-{item_id}"),
        "CPLContainerRelation",
        &format!(
            r#"{{
                "containerId": {{"value": "{container_id}", "type": "STRING"}},
                "itemId": {{"value": "{item_id}", "type": "STRING"}}
            }}"#
        ),
        None,
    )
}

fn zone(records: Vec<Record>, sync_token: &str, more_coming: bool) -> Option<ChangesZoneResult> {
    Some(ChangesZoneResult {
        zone_name: "PrimarySync".to_string(),
        sync_token: sync_token.to_string(),
        more_coming,
        records,
        server_error_code: None,
        reason: None,
    })
}

fn zone_error(code: &str, reason: &str) -> Option<ChangesZoneResult> {
    Some(ChangesZoneResult {
        zone_name: "PrimarySync".to_string(),
        sync_token: String::new(),
        more_coming: false,
        records: Vec::new(),
        server_error_code: Some(code.to_string()),
        reason: Some(reason.to_string()),
    })
}

#[test]
fn test_changes_stream_single_page() {
    let mut feed = ChangesFeed::new("token-initial");
    let records = vec![changes_master("master-1"), changes_asset("asset-1", "master-1")];
    let page = feed.on_page(zone(records, "token-final", false)).unwrap();
    assert!(!page.more_coming);
    assert_eq!(page.events.len(), 1);
    assert_eq!(&*page.events[0].record_name, "master-1");
    assert!(page.events[0].asset.is_some());
    assert_eq!(page.events[0].record_type.as_deref(), Some("CPLMaster"));
    assert!(feed.finish().is_empty());
    assert_eq!(feed.token, "token-final");
}

#[test]
fn test_changes_stream_multiple_pages() {
    let mut feed = ChangesFeed::new("token-initial");
    let first = vec![changes_master("master-1"), changes_asset("asset-1", "master-1")];
    let second = vec![changes_master("master-2"), changes_asset("asset-2", "master-2")];
    let mut events = Vec::new();
    let page = feed.on_page(zone(first, "token-page1", true)).unwrap();
    assert!(page.more_coming);
    events.extend(page.events);
    let page = feed.on_page(zone(second, "token-page2", false)).unwrap();
    assert!(!page.more_coming);
    events.extend(page.events);
    assert_eq!(events.len(), 2);
    assert_eq!(&*events[0].record_name, "master-1");
    assert_eq!(&*events[1].record_name, "master-2");
    assert_eq!(feed.token, "token-page2");
}

#[test]
fn test_changes_stream_empty_page_continues() {
    let mut feed = ChangesFeed::new("token-initial");
    let page = feed.on_page(zone(Vec::new(), "token-empty", true)).unwrap();
    assert!(page.events.is_empty());
    assert!(page.more_coming);
    let records = vec![changes_master("master-1"), changes_asset("asset-1", "master-1")];
    let page = feed.on_page(zone(records, "token-final", false)).unwrap();
    assert_eq!(page.events.len(), 1, "should yield the event from page 2");
    assert_eq!(&*page.events[0].record_name, "master-1");
    assert_eq!(feed.token, "token-final");
}

#[test]
fn test_changes_stream_zone_error() {
    let mut feed = ChangesFeed::new("bad-token");
    let error = feed
        .on_page(zone_error("BAD_REQUEST", "Unknown sync continuation type"))
        .err()
        .expect("should be an error");
    let message = error.message();
    assert!(
        message.contains("sync token is no longer valid"),
        "error should mention invalid sync token, got: {message}"
    );
    assert_eq!(feed.token, "bad-token", "an error keeps the last good token");
}

#[test]
fn test_changes_stream_transient_zone_error_preserves_initial_token() {
    let mut feed = ChangesFeed::new("token-T0");
    assert!(feed.on_page(zone_error("RETRY_LATER", "temporary backend issue")).is_err());
    assert_eq!(feed.token, "token-T0");
}

#[test]
fn test_changes_stream_mid_stream_error_preserves_last_good_token() {
    let mut feed = ChangesFeed::new("token-initial");
    let first = vec![changes_master("master-1"), changes_asset("asset-1", "master-1")];
    let second = vec![changes_master("master-2"), changes_asset("asset-2", "master-2")];
    let mut events = feed.on_page(zone(first, "token-page1", true)).unwrap().events;
    events.extend(feed.on_page(zone(second, "token-page2", true)).unwrap().events);
    assert!(feed.on_page(zone_error("BAD_REQUEST", "Unknown sync continuation type")).is_err());
    assert_eq!(events.len(), 2, "should have events from pages 1 and 2");
    assert_eq!(&*events[0].record_name, "master-1");
    assert_eq!(&*events[1].record_name, "master-2");
    assert_eq!(feed.token, "token-page2");
}

#[test]
fn test_changes_stream_hard_deleted_record() {
    let mut feed = ChangesFeed::new("token-before");
    let records = vec![record("deleted-record-1", "", "null", Some(true))];
    let page = feed.on_page(zone(records, "token-after-delete", false)).unwrap();
    assert_eq!(page.events.len(), 1);
    assert_eq!(&*page.events[0].record_name, "deleted-record-1");
    assert_eq!(page.events[0].reason, ChangeReason::HardDeleted);
    assert!(page.events[0].asset.is_none(), "hard-deleted has no asset");
    assert!(page.events[0].record_type.is_none(), "hard-deleted has no record type");
    assert_eq!(feed.token, "token-after-delete");
}

#[test]
fn test_changes_stream_invalid_token_yields_typed_error() {
    let mut feed = ChangesFeed::new("old-token");
    let error = feed
        .on_page(zone_error("BAD_REQUEST", "Unknown sync continuation type"))
        .err()
        .expect("should be an error");
    match error {
        FeedError::Zone(SyncTokenError::InvalidToken { reason }) => {
            assert_eq!(&*reason, "Unknown sync continuation type");
        }
        other => panic!("expected InvalidToken variant, got: {other:?}"),
    }
}

#[test]
fn a_response_without_zones_is_an_error() {
    let mut feed = ChangesFeed::new("old-token");
    let error = feed.on_page(None).err().expect("should be an error");
    assert_eq!(error.message(), "Apple changes/zone returned no zones.");
    assert_eq!(feed.token, "old-token");
}

fn set(names: &[&str]) -> FxHashMap<String, ()> {
    names.iter().map(|name| (name.to_string(), ())).collect()
}

#[test]
fn hydrate_matching_assets_from_changes_stops_after_all_targets_match() {
    let mut matcher = AssetMatcher::new(set(&["asset-1"]), "SharedSync-abc");
    let more = matcher.on_page(vec![
        changes_master("master-1"),
        changes_asset("asset-1", "master-1"),
        changes_master("master-2"),
        changes_asset("asset-2", "master-2"),
    ]);
    assert!(!more, "no further page is asked for");
    assert!(matcher.is_done());
    assert!(matcher.missing.is_empty());
    assert_eq!(matcher.matched.len(), 1);
    assert_eq!(matcher.matched[0].asset_record_name(), "asset-1");
    assert_eq!(matcher.matched[0].source_zone(), Some("SharedSync-abc"));
}

fn seen_asset(master: &str) -> PhotoAsset {
    PhotoAsset::from_records(
        &changes_master(master),
        &changes_asset(&format!("asset-{master}"), master),
    )
}

#[test]
fn photo_stream_hydrates_named_album_members_from_other_zones() {
    let mut hydration = CrossZoneHydration::new(None, Some(2));
    hydration.on_asset(&seen_asset("master-owner"));
    let token = Some("owner-token".to_string());
    assert_eq!(hydration.after_base(token.clone()), HydrationStep::ScanRelations);

    let mut ids = FxHashMap::default();
    let relations = vec![
        relation("album", "asset-master-owner"),
        relation("album", "asset-master-shared"),
        relation("another album", "asset-elsewhere"),
    ];
    note_relation_items(&mut ids, &relations, "album");
    let members: Vec<String> = ids.into_keys().collect();
    assert_eq!(members.len(), 2);
    let missing = hydration.missing_members(&members);
    assert_eq!(missing, set(&["asset-master-shared"]));

    let mut matcher = AssetMatcher::new(missing, "SharedSync-abc");
    matcher.on_page(vec![
        changes_master("master-shared"),
        changes_asset("asset-master-shared", "master-shared"),
    ]);
    assert_eq!(matcher.matched[0].id(), "master-shared");
    assert_eq!(matcher.matched[0].source_zone(), Some("SharedSync-abc"));
    assert_eq!(
        CrossZoneHydration::final_token(&matcher.missing, token).as_deref(),
        Some("owner-token"),
        "fully resolved cross-zone hydration can keep the owner-zone token"
    );
}

#[test]
fn photo_stream_warns_but_continues_for_unresolved_relation_members() {
    let mut hydration = CrossZoneHydration::new(None, Some(2));
    hydration.on_asset(&seen_asset("master-owner"));
    let missing = hydration.missing_members(&vec!["asset-master-shared".to_string()]);
    let mut matcher = AssetMatcher::new(missing, "SharedSync-abc");
    assert!(matcher.on_page(Vec::new()));
    assert_eq!(matcher.missing.len(), 1);
    assert_eq!(
        CrossZoneHydration::final_token(&matcher.missing, Some("owner-token".to_string())),
        None,
        "unresolved relation records suppress owner-zone token advancement"
    );
}

#[test]
fn photo_stream_recent_limit_does_not_cross_zone_over_hydrate() {
    let mut hydration = CrossZoneHydration::new(Some(1), Some(2));
    hydration.on_asset(&seen_asset("master-owner"));
    assert_eq!(hydration.after_base(None), HydrationStep::Done(None));
}

#[test]
fn an_error_of_the_own_zone_keeps_no_token() {
    let mut hydration = CrossZoneHydration::new(None, Some(2));
    hydration.on_error();
    assert_eq!(hydration.after_base(Some("token".to_string())), HydrationStep::Done(None));
}

#[test]
fn offline_replay_incremental_changes_fixture() {
    let mut feed = ChangesFeed::new("token-before");
    let records = vec![
        changes_master("master-replay-change"),
        changes_asset("asset-master-replay-change", "master-replay-change"),
    ];
    let page = feed.on_page(zone(records, "token-incremental", false)).unwrap();
    let mut events = page.events;
    events.extend(feed.finish());
    assert_eq!(events.len(), 1);
    assert_eq!(&*events[0].record_name, "master-replay-change");
    assert!(events[0].asset.is_some());
    assert_eq!(feed.token, "token-incremental");
}

#[test]
fn offline_replay_retryable_error_page_fixture() {
    let mut feed = ChangesFeed::new("token-before");
    let error = match feed.on_page(zone_error("RETRY_LATER", "temporary backend issue")) {
        Ok(_) => panic!("a zone error must stop the feed"),
        Err(error) => error,
    };
    assert!(error.message().contains("RETRY_LATER"));
    assert!(feed.finish().is_empty());
    assert_eq!(feed.token, "token-before", "retryable error must preserve the last-good token");
}
