//! Albums: their queries and counts, and the ranges that they are enumerated in.
use kei::album::{
    batch_body, count_from_query, count_plan, count_query, counts_from_batch, CountPlan,
    PhotoAlbumConfig,
};
use kei::cloudkit::{QueryResponse, Record};
use kei::json::{Json, JsonNumber};
use kei::lookup::{
    classify_provider_lookup_error, lookup_batches, lookup_body, resolve_records, BatchReply,
    LookupReply, ProviderLookupError, RecordLookupRequest, RecordResolution,
};
use kei::plan::{
    build_enumeration_plan, determine_fetcher_count, download_stream_page_size, FetcherRange,
    FetcherRangeRole, PhotoStreamProfile,
};
use kei::session::{ApiError, HttpStatusError};

/// A parsed JSON text as the library's value.
fn json_of(value: &serde_json::Value) -> Json {
    match value {
        serde_json::Value::Null => Json::Null,
        serde_json::Value::Bool(b) => Json::Bool(*b),
        serde_json::Value::Number(n) => Json::Number(if let Some(n) = n.as_u64() {
            JsonNumber::Unsigned(n)
        } else if let Some(n) = n.as_i64() {
            JsonNumber::Negative(n)
        } else {
            JsonNumber::Float(n.as_f64().unwrap().to_bits())
        }),
        serde_json::Value::String(s) => Json::Text(s.clone()),
        serde_json::Value::Array(items) => Json::List(items.iter().map(json_of).collect()),
        serde_json::Value::Object(members) => {
            Json::Object(members.iter().map(|(name, value)| (name.clone(), json_of(value))).collect())
        }
    }
}

/// The JSON value that a text denotes.
fn js(text: &str) -> Json {
    json_of(&serde_json::from_str(text).unwrap())
}

/// The library's value as a parsed JSON text.
fn value_of(json: &Json) -> serde_json::Value {
    match json {
        Json::Null => serde_json::Value::Null,
        Json::Bool(b) => serde_json::Value::from(*b),
        Json::Number(JsonNumber::Unsigned(n)) => serde_json::Value::from(*n),
        Json::Number(JsonNumber::Negative(n)) => serde_json::Value::from(*n),
        Json::Number(JsonNumber::Float(bits)) => serde_json::Value::from(f64::from_bits(*bits)),
        Json::Text(s) => serde_json::Value::from(s.as_str()),
        Json::List(items) => serde_json::Value::Array(items.iter().map(value_of).collect()),
        Json::Object(members) => serde_json::Value::Object(
            members.iter().map(|(name, value)| (name.clone(), value_of(value))).collect(),
        ),
    }
}

fn make_album(page_size: usize, query_filter: Option<Json>, zone_id: Json) -> PhotoAlbumConfig {
    PhotoAlbumConfig {
        params: Vec::new(),
        service_endpoint: "https://example.com".to_string(),
        name: "TestAlbum".to_string(),
        list_type: "CPLAssetAndMasterByAssetDateWithoutHiddenOrDeleted".to_string(),
        obj_type: "CPLAssetByAssetDateWithoutHiddenOrDeleted".to_string(),
        query_filter,
        page_size,
        zone_id,
        container_id: None,
    }
}

fn default_zone() -> Json {
    js(r#"{"zoneName": "PrimarySync", "ownerRecordName": "_defaultOwner", "zoneType": "REGULAR_CUSTOM_ZONE"}"#)
}

fn count_query_from_fields(fields: Json) -> QueryResponse {
    QueryResponse {
        records: vec![Record {
            record_name: String::new(),
            record_type: String::new(),
            fields,
            deleted: None,
        }],
        sync_token: None,
        continuation_marker: None,
    }
}

#[test]
fn targeted_record_lookup_preserves_typed_http_failures() {
    let error = ApiError::Http(HttpStatusError {
        status: 429,
        url: "https://example.com/records/lookup".to_string(),
        retry_after: None,
        body: None,
    });
    assert!(matches!(
        classify_provider_lookup_error(&error),
        ProviderLookupError::RateLimited { status: 429, .. }
    ));

    let error = ApiError::Http(HttpStatusError {
        status: 421,
        url: "https://example.com/records/lookup".to_string(),
        retry_after: None,
        body: None,
    });
    assert!(matches!(
        classify_provider_lookup_error(&error),
        ProviderLookupError::Authentication { status: 421, .. }
    ));
}

#[test]
fn len_many_batches_same_library_count_queries() {
    assert_eq!(count_plan(3, true), CountPlan::Together);
    let queries: Vec<Json> = (0..3)
        .map(|_| count_query("CPLAssetByAssetDateWithoutHiddenOrDeleted", &default_zone()))
        .collect();
    let body = value_of(&batch_body(queries));
    assert_eq!(body["batch"].as_array().unwrap().len(), 3);
    let batch: Vec<QueryResponse> = [10, 20, 30]
        .iter()
        .map(|n| count_query_from_fields(js(&format!(r#"{{"itemCount": {{"value": {n}}}}}"#))))
        .collect();
    let counts: Vec<u64> =
        counts_from_batch(&batch, 3).into_iter().map(|count| count.unwrap()).collect();
    assert_eq!(counts, vec![10, 20, 30]);
}

#[test]
fn counts_are_asked_for_apart_where_libraries_differ() {
    assert_eq!(count_plan(0, true), CountPlan::Nothing);
    assert_eq!(count_plan(1, true), CountPlan::Apart);
    assert_eq!(count_plan(3, false), CountPlan::Apart);
}

fn lookup_request(state_id: &str, master: &str, asset: &str) -> RecordLookupRequest {
    RecordLookupRequest {
        state_id: state_id.to_string(),
        master_record_name: master.to_string(),
        asset_record_name: asset.to_string(),
    }
}

/// The reply to a lookup of one record.
fn reply(text: &str) -> LookupReply {
    let value: serde_json::Value = serde_json::from_str(text).unwrap();
    let record = value["recordName"].as_str().map(|name| Record {
        record_name: name.to_string(),
        record_type: value["recordType"].as_str().unwrap_or("").to_string(),
        fields: json_of(value.get("fields").unwrap_or(&serde_json::Value::Null)),
        deleted: value["deleted"].as_bool(),
    });
    LookupReply { json: json_of(&value), record }
}

fn master_reply(name: &str) -> LookupReply {
    reply(&format!(
        r#"{{"recordName": "{name}", "recordType": "CPLMaster", "fields": {{
            "filenameEnc": {{"value": "photo.jpg", "type": "STRING"}},
            "itemType": {{"value": "public.jpeg"}}}}}}"#
    ))
}

fn asset_reply(name: &str, master: &str) -> LookupReply {
    reply(&format!(
        r#"{{"recordName": "{name}", "recordType": "CPLAsset", "fields": {{
            "masterRef": {{"value": {{"recordName": "{master}"}}, "type": "REFERENCE"}},
            "assetDate": {{"value": 1700000000000, "type": "TIMESTAMP"}}}}}}"#
    ))
}

fn gone_reply(name: &str) -> LookupReply {
    reply(&format!(
        r#"{{"recordName": "{name}", "serverErrorCode": "UNKNOWN_ITEM", "reason": "record not found"}}"#
    ))
}

#[test]
fn targeted_record_lookup_scopes_zone_at_request_level() {
    let requests = vec![lookup_request("master", "master", "asset")];
    assert_eq!(lookup_batches(&requests), 1);
    let body = value_of(&lookup_body(&requests, 0, &default_zone()));
    assert_eq!(body["zoneID"], value_of(&default_zone()));
    let records = body["records"].as_array().expect("records array");
    assert_eq!(records.len(), 2);
    assert!(records.iter().all(|record| record.get("zoneID").is_none()));
}

#[test]
fn targeted_record_lookup_distinguishes_present_deleted_and_omitted() {
    let requests = vec![
        lookup_request("master-present", "master-present", "asset-present"),
        lookup_request("master-deleted", "master-deleted", "asset-deleted"),
        lookup_request("master-unknown", "master-unknown", "asset-unknown"),
    ];
    let replies = vec![BatchReply::Response(Some(vec![
        master_reply("master-present"),
        asset_reply("asset-present", "master-present"),
        master_reply("master-deleted"),
        gone_reply("asset-deleted"),
    ]))];
    let batch = resolve_records(&requests, &replies);
    assert!(!batch.complete, "an omitted batch member is inconclusive");
    assert!(matches!(batch.results[0].1, RecordResolution::Present(_)));
    assert!(matches!(batch.results[1].1, RecordResolution::Deleted { .. }));
    assert!(matches!(batch.results[2].1, RecordResolution::Unknown));
}

#[test]
fn targeted_record_lookup_present_sibling_keeps_shared_master_state() {
    let requests = vec![
        lookup_request("master-shared", "master-shared", "asset-a-deleted"),
        lookup_request("master-shared", "master-shared", "asset-b-present"),
    ];
    let replies = vec![BatchReply::Response(Some(vec![
        master_reply("master-shared"),
        gone_reply("asset-a-deleted"),
        asset_reply("asset-b-present", "master-shared"),
    ]))];
    let batch = resolve_records(&requests, &replies);
    assert!(batch.complete);
    assert_eq!(batch.results.len(), 1);
    assert!(matches!(batch.results[0].1, RecordResolution::Present(_)));
}

#[test]
fn targeted_record_lookup_omitted_sibling_keeps_shared_master_state_unknown() {
    let requests = vec![
        lookup_request("master-shared", "master-shared", "asset-a-deleted"),
        lookup_request("master-shared", "master-shared", "asset-b-omitted"),
    ];
    let replies = vec![BatchReply::Response(Some(vec![
        master_reply("master-shared"),
        gone_reply("asset-a-deleted"),
    ]))];
    let batch = resolve_records(&requests, &replies);
    assert!(!batch.complete);
    assert_eq!(batch.results.len(), 1);
    assert!(matches!(batch.results[0].1, RecordResolution::Unknown));
}

#[test]
fn targeted_record_lookup_retains_transient_failure() {
    let requests = vec![lookup_request("master", "master", "asset")];
    let error = classify_provider_lookup_error(&ApiError::Other(
        "temporary lookup failure".to_string(),
    ));
    let batch = resolve_records(&requests, &vec![BatchReply::Failure(error)]);
    assert!(!batch.complete);
    assert!(matches!(
        batch.results[0].1,
        RecordResolution::TransientFailure(ProviderLookupError::Request(_))
    ));
}

#[test]
fn a_reply_without_records_is_malformed() {
    let requests = vec![lookup_request("master", "master", "asset")];
    let batch = resolve_records(&requests, &vec![BatchReply::Response(None)]);
    assert!(!batch.complete);
    assert!(matches!(
        batch.results[0].1,
        RecordResolution::TransientFailure(ProviderLookupError::Malformed(_))
    ));
}

#[test]
fn count_from_query_accepts_well_formed_zero() {
    let query = count_query_from_fields(js(r#"{"itemCount": {"value": 0}}"#));

    let count = count_from_query(Some(&query)).expect("zero is a valid count");

    assert_eq!(count, 0);
}

#[test]
fn count_from_query_rejects_missing_item_count() {
    let query = count_query_from_fields(js(r#"{}"#));

    let err = count_from_query(Some(&query)).expect_err("missing count fails");

    assert!(
        err.message("").contains("did not include itemCount"),
        "unexpected error: {err:?}"
    );
}

#[test]
fn count_from_query_rejects_malformed_item_count() {
    let query = count_query_from_fields(js(r#"{"itemCount": {"value": "0"}}"#));

    let err = count_from_query(Some(&query)).expect_err("malformed count fails");

    assert!(
        err.message("\"0\"").contains("was not a non-negative integer"),
        "unexpected error: {err:?}"
    );
}

#[test]
fn a_count_that_is_none_is_told_with_its_value() {
    let query = count_query_from_fields(js(r#"{"itemCount": {"value": -3}}"#));
    let err = count_from_query(Some(&query)).unwrap_err();
    assert!(matches!(err.value(), Some(Json::Number(_))));
    assert_eq!(
        err.message("-3"),
        "Apple's album count itemCount was not a non-negative integer: -3"
    );
    assert!(err.has_cause());
    assert_eq!(err.pass_message(2), "Could not read Apple's album count result for pass 2");

    let counts = counts_from_batch(&vec![query], 2);
    let err = counts.into_iter().nth(1).unwrap().unwrap_err();
    assert!(err.value().is_none());
    assert!(!err.has_cause());
    assert_eq!(err.message("-3"), "Apple did not return an album count query result");
    assert_eq!(err.pass_message(1), "Apple did not return an album count for pass 1.");
}

#[test]
fn test_list_query_ascending_offset_zero() {
    let album = make_album(200, None, default_zone());
    let q = value_of(&album.list_query(0, "ASCENDING"));
    let filters = q["query"]["filterBy"].as_array().unwrap();
    assert_eq!(filters.len(), 2);
    assert_eq!(filters[0]["fieldValue"]["value"], 0);
    assert_eq!(filters[1]["fieldValue"]["value"], "ASCENDING");
}

#[test]
fn test_list_query_with_offset() {
    let album = make_album(200, None, default_zone());
    let q = value_of(&album.list_query(42, "ASCENDING"));
    assert_eq!(q["query"]["filterBy"][0]["fieldValue"]["value"], 42);
}

#[test]
fn test_list_query_results_limit_double_page_size() {
    let album = make_album(100, None, default_zone());
    let q = value_of(&album.list_query(0, "ASCENDING"));
    assert_eq!(q["resultsLimit"], 200);
}

#[test]
fn test_list_query_with_extra_filter() {
    let extra = js(r#"[{"fieldName": "albumName", "comparator": "EQUALS", "fieldValue": {"type": "STRING", "value": "Favorites"}}]"#);
    let album = make_album(200, Some(extra), default_zone());
    let q = value_of(&album.list_query(0, "ASCENDING"));
    let filters = q["query"]["filterBy"].as_array().unwrap();
    assert_eq!(filters.len(), 3);
    assert_eq!(filters[2]["fieldName"], "albumName");
}

#[test]
fn test_list_query_zone_id_passed_through() {
    let zone = js(r#"{"zoneName": "CustomZone"}"#);
    let album = make_album(200, None, zone.duplicate());
    let q = value_of(&album.list_query(0, "ASCENDING"));
    assert_eq!(q["zoneID"], value_of(&zone));
}

#[test]
fn test_fetcher_count_single_page() {
    assert_eq!(determine_fetcher_count(50, 100, 10), 1);
}

#[test]
fn test_fetcher_count_exact_pages() {
    assert_eq!(determine_fetcher_count(500, 100, 10), 5);
}

#[test]
fn test_fetcher_count_capped_by_concurrency() {
    assert_eq!(determine_fetcher_count(5000, 100, 10), 10);
}

#[test]
fn test_fetcher_count_more_pages_than_concurrency() {
    assert_eq!(determine_fetcher_count(50000, 100, 10), 10);
}

#[test]
fn test_fetcher_count_zero_items() {
    assert_eq!(determine_fetcher_count(0, 100, 10), 1);
}

#[test]
fn test_fetcher_count_concurrency_one() {
    assert_eq!(determine_fetcher_count(50000, 100, 1), 1);
}

#[test]
fn download_stream_page_size_stays_near_worker_pool() {
    assert_eq!(download_stream_page_size(100, 1), 2);
    assert_eq!(download_stream_page_size(100, 4), 8);
    assert_eq!(download_stream_page_size(100, 50), 100);
    assert_eq!(download_stream_page_size(0, 4), 1);
}

#[test]
fn download_profile_plan_covers_entire_recent_window_with_reduced_pages() {
    let plan = build_enumeration_plan(
        Some(1000),
        Some(5000),
        100,
        PhotoStreamProfile::BackpressuredDownload {
            download_concurrency: 10,
        },
    );

    assert_eq!(plan.page_size, 20);
    assert_eq!(
        plan.ranges,
        vec![FetcherRange {
            start: 0,
            end: u64::MAX,
            limit: Some(1000),
            role: FetcherRangeRole::LimitProbe,
        }]
    );
    assert!(
        plan.covers_prefix(1000),
        "download profile must keep complete recent-window coverage"
    );
}

#[test]
fn fast_profile_uses_ordered_limit_probe_for_recent_window() {
    let plan = build_enumeration_plan(
        Some(1000),
        Some(5000),
        100,
        PhotoStreamProfile::FastEnumeration { concurrency: 10 },
    );

    assert_eq!(plan.page_size, 100);
    assert_eq!(plan.ranges.len(), 1);
    assert_eq!(plan.ranges[0].role, FetcherRangeRole::LimitProbe);
    assert!(
        plan.covers_prefix(1000),
        "parallel fast profile must cover the same recent window"
    );
}

#[test]
fn limit_probe_does_not_trust_equal_count_as_eof() {
    let plan = build_enumeration_plan(
        Some(100),
        Some(100),
        100,
        PhotoStreamProfile::FastEnumeration { concurrency: 1 },
    );

    assert_eq!(
        plan.ranges,
        vec![FetcherRange {
            start: 0,
            end: u64::MAX,
            limit: Some(100),
            role: FetcherRangeRole::LimitProbe,
        }]
    );
}

#[test]
fn parallel_recent_plan_still_uses_one_ordered_limit_probe() {
    let plan = build_enumeration_plan(
        Some(100),
        Some(100),
        100,
        PhotoStreamProfile::FastEnumeration { concurrency: 10 },
    );

    assert_eq!(plan.ranges.len(), 1);
    assert_eq!(plan.ranges[0].start, 0);
    assert_eq!(plan.ranges[0].end, u64::MAX);
    assert_eq!(plan.ranges[0].role, FetcherRangeRole::LimitProbe);
    assert!(plan.covers_prefix(100));
}

#[test]
fn unbounded_parallel_plan_partitions_data_and_appends_tail_owner() {
    let plan = build_enumeration_plan(
        None,
        Some(5000),
        100,
        PhotoStreamProfile::FastEnumeration { concurrency: 10 },
    );

    assert!(
        plan.ranges
            .iter()
            .any(|range| range.start == 0 && range.role == FetcherRangeRole::Data),
        "the count prefix must keep count-partitioned data work"
    );
    assert_eq!(
        plan.ranges.last(),
        Some(&FetcherRange {
            start: 5000,
            end: u64::MAX,
            limit: None,
            role: FetcherRangeRole::TailProof,
        })
    );
    assert!(plan.covers_prefix(5000));
}

#[test]
fn test_fetcher_count_partial_page() {
    assert_eq!(determine_fetcher_count(150, 100, 10), 2);
}
