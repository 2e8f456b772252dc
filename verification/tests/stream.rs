//! Whole enumerations: a plan, its fetchers and the token that may be kept, driven page by page.
use kei::cloudkit::Record;
use kei::fetch::{open_stream, should_emit_asset_record, FetchItem, Fetcher};
use kei::json::{Json, JsonNumber};
use kei::plan::{FetcherRangeRole, PhotoStreamProfile};
use kei::tokens::{EnumerationCompletion, EnumerationFailure};
use rustc_hash::FxHashMap;

/// A parsed JSON text as the library's value.
fn json_of(value: &serde_json::Value) -> Json {
    match value {
        serde_json::Value::Null => Json::Null,
        serde_json::Value::Bool(b) => Json::Bool(*b),
        serde_json::Value::Number(n) => Json::Number(if let Some(n) = n.as_u64() {
            JsonNumber::Unsigned(n)
        } else if let Some(n) = n.as_i64() {
            JsonNumber::Negative(n)
        } else {
            JsonNumber::Float(n.as_f64().unwrap().to_bits())
        }),
        serde_json::Value::String(s) => Json::Text(s.clone()),
        serde_json::Value::Array(items) => Json::List(items.iter().map(json_of).collect()),
        serde_json::Value::Object(members) => {
            Json::Object(members.iter().map(|(name, value)| (name.clone(), json_of(value))).collect())
        }
    }
}
/// A value as it stands in a JSON text.
fn lit(value: &str) -> String {
    serde_json::to_string(value).unwrap()
}

/// A record, as the server sends it.
fn record(text: &str) -> Record {
    let value: serde_json::Value = serde_json::from_str(text).unwrap();
    Record {
        record_name: value["recordName"].as_str().unwrap().to_string(),
        record_type: value["recordType"].as_str().unwrap_or("").to_string(),
        fields: json_of(&value["fields"]),
        deleted: value["deleted"].as_bool(),
    }
}

fn test_master_record(record_name: &str) -> Record {
    record(&format!(
        r#"{{
            "recordName": {},
            "recordType": "CPLMaster",
            "fields": {{
                "filenameEnc": {{"value": "photo.jpg", "type": "STRING"}},
                "resOriginalRes": {{
                    "value": {{
                        "downloadURL": "https://p01.icloud-content.com/photo.jpg",
                        "size": 1024,
                        "fileChecksum": "AAAAAAAAAAAAAAAAAAAAAAAAAAAAAAAAAAAAAAAAAAA="
                    }}
                }},
                "resOriginalFileType": {{"value": "public.jpeg"}},
                "itemType": {{"value": "public.jpeg"}}
            }}
        }}"#,
        lit(record_name)
    ))
}

fn test_asset_record(record_name: &str) -> Record {
    test_asset_record_for(&format!("asset-{record_name}"), record_name)
}

fn test_asset_record_for(asset_record_name: &str, master_record_name: &str) -> Record {
    record(&format!(
        r#"{{
            "recordName": {},
            "recordType": "CPLAsset",
            "fields": {{
                "masterRef": {{
                    "value": {{
                        "recordName": {},
                        "zoneID": {{"zoneName": "PrimarySync"}}
                    }},
                    "type": "REFERENCE"
                }},
                "assetDate": {{"value": 1700000000000, "type": "TIMESTAMP"}}
            }}
        }}"#,
        lit(asset_record_name),
        lit(master_record_name)
    ))
}

fn photo_page(record_name: &str) -> Vec<Record> {
    vec![test_master_record(record_name), test_asset_record(record_name)]
}

/// What a server answers: a page of records and a token, or an error.
type Answer = Result<(Vec<Record>, Option<String>), String>;

fn page(records: Vec<Record>, token: Option<&str>) -> Answer {
    Ok((records, token.map(str::to_string)))
}

/// A server that answers from a list, and with empty pages when the list is used up.
fn canned(answers: Vec<Answer>) -> impl FnMut(u64, usize) -> Answer {
    let mut answers = answers.into_iter();
    move |_, _| answers.next().unwrap_or_else(|| page(Vec::new(), None))
}

/// A server that holds so many photos, in order, and fails at one rank.
fn inventory(total: u64, fails_at: Option<u64>) -> impl FnMut(u64, usize) -> Answer {
    move |offset, page_size| {
        if fails_at == Some(offset) {
            return Err("the request failed".to_string());
        }
        let mut records = Vec::new();
        for rank in offset..total.min(offset + page_size as u64) {
            records.extend(photo_page(&format!("master-{rank:04}")));
        }
        page(records, Some("zone-token"))
    }
}

/// What came of an enumeration.
struct Run {
    /// The master, asset and state record of each asset.
    seen: Vec<(String, String, String)>,
    errors: Vec<String>,
    token: Option<String>,
    offsets: Vec<u64>,
}

impl Run {
    fn ids(&self) -> Vec<&str> {
        self.seen.iter().map(|(id, _, _)| id.as_str()).collect()
    }
}

/// Run an enumeration, one fetcher after the other.
fn run(
    limit: Option<u32>,
    total_count: Option<u64>,
    page_size: usize,
    profile: PhotoStreamProfile,
    treat_empty_tail_as_error: bool,
    mut server: impl FnMut(u64, usize) -> Answer,
) -> Run {
    let preserve_blank = matches!(profile, PhotoStreamProfile::BackpressuredDownload { .. });
    let setup = open_stream(
        limit,
        total_count,
        page_size,
        profile,
        preserve_blank,
        treat_empty_tail_as_error,
    );
    let mut capture = setup.capture;
    let mut owners: FxHashMap<String, u64> = FxHashMap::default();
    let mut seen = Vec::new();
    let mut errors = Vec::new();
    let mut offsets = Vec::new();
    for range in setup.plan.ranges {
        let mut fetcher = Fetcher::new(range, setup.behavior, true);
        let mut failed = false;
        while fetcher.wants_page() {
            offsets.push(fetcher.offset);
            let (records, token) = match server(fetcher.offset, setup.behavior.page_size) {
                Ok(answer) => answer,
                Err(error) => {
                    errors.push(error);
                    failed = true;
                    break;
                }
            };
            assert!(fetcher.has_room_for(records.len()));
            let outcome = fetcher.on_page(&mut owners, records, token);
            for item in outcome.items {
                match item {
                    FetchItem::Asset(asset) => seen.push((
                        asset.id().to_string(),
                        asset.asset_record_name().to_string(),
                        asset.state_id().to_string(),
                    )),
                    FetchItem::Failure(text) => errors.push(text),
                }
            }
            if outcome.finished {
                break;
            }
        }
        if failed {
            capture.complete(
                None,
                EnumerationCompletion::Incomplete(EnumerationFailure::FetcherError),
            );
            continue;
        }
        let report = fetcher.finish();
        errors.extend(report.failure);
        if report.suppress {
            capture.suppress();
        }
        capture.complete(report.token, report.completion);
    }
    Run { seen, errors, token: capture.final_token(false), offsets }
}

fn fast(concurrency: usize) -> PhotoStreamProfile {
    PhotoStreamProfile::FastEnumeration { concurrency }
}

fn download(download_concurrency: usize) -> PhotoStreamProfile {
    PhotoStreamProfile::BackpressuredDownload { download_concurrency }
}

#[test]
fn test_photo_stream_with_token_returns_sync_token() {
    let server = canned(vec![
        page(photo_page("master-1"), Some("st-zone-abc")),
        page(Vec::new(), Some("st-zone-abc")),
    ]);
    let run = run(None, Some(1), 100, fast(1), false, server);
    assert!(run.errors.is_empty());
    assert_eq!(run.seen.len(), 1, "should yield exactly one photo asset");
    assert_eq!(run.token.as_deref(), Some("st-zone-abc"));
}

#[test]
fn test_photo_stream_with_token_no_sync_token_in_response() {
    let server = canned(vec![page(photo_page("master-1"), None), page(Vec::new(), None)]);
    let run = run(None, Some(1), 100, fast(1), false, server);
    assert!(run.errors.is_empty());
    assert_eq!(run.token, None, "no syncToken in responses means None");
}

#[test]
fn test_photo_stream_with_token_blank_sync_token_treated_as_none() {
    let server = canned(vec![page(photo_page("master-1"), Some("")), page(Vec::new(), Some(""))]);
    let run = run(None, Some(1), 100, fast(1), false, server);
    assert_eq!(run.token, None, "blank syncToken must be treated as unavailable");
}

#[test]
fn test_photo_stream_with_token_last_token_wins() {
    let server = canned(vec![
        page(photo_page("master-1"), Some("st-first")),
        page(photo_page("master-2"), Some("st-second")),
        page(Vec::new(), None),
    ]);
    let run = run(None, Some(2), 1, fast(1), false, server);
    assert_eq!(run.seen.len(), 2);
    assert_eq!(run.token.as_deref(), Some("st-second"));
}

#[test]
fn underreported_count_tail_proof_emits_every_asset() {
    let run = run(None, Some(1), 100, download(1), true, inventory(2, None));
    assert_eq!(run.ids(), vec!["master-0000", "master-0001"]);
    assert_eq!(run.token.as_deref(), Some("zone-token"));
}

#[test]
fn recent_limit_probe_suppresses_token_only_when_extra_asset_exists() {
    let run = run(Some(1), Some(1), 100, download(1), true, inventory(2, None));
    assert_eq!(run.ids(), vec!["master-0000"]);
    assert_eq!(run.token, None, "one asset more proves that the limit cut the inventory short");
}

#[test]
fn recent_limit_probe_keeps_token_when_natural_eof_is_proved() {
    let run = run(Some(1), Some(1), 100, download(1), true, inventory(1, None));
    assert_eq!(run.ids(), vec!["master-0000"]);
    assert_eq!(run.token.as_deref(), Some("zone-token"));
}

#[test]
fn overreported_count_still_finishes_at_proved_eof() {
    let run = run(None, Some(10_000), 100, download(1), true, inventory(1, None));
    assert_eq!(run.ids(), vec!["master-0000"]);
    assert_eq!(run.token.as_deref(), Some("zone-token"));
}

#[test]
fn tail_request_failure_blocks_token_after_prefix_was_observed() {
    let run = run(None, Some(1), 100, download(1), true, inventory(2, Some(2)));
    assert_eq!(run.ids(), vec!["master-0000", "master-0001"]);
    assert_eq!(run.errors.len(), 1);
    assert_eq!(run.token, None);
}

#[test]
fn full_query_asset_before_master_cross_page_emits_asset_once() {
    let server = canned(vec![
        page(vec![test_asset_record("master-cross-page")], Some("token-full")),
        page(vec![test_master_record("master-cross-page")], Some("token-full")),
    ]);
    let run = run(None, Some(2), 1, fast(1), false, server);
    assert_eq!(run.ids(), vec!["master-cross-page"]);
    assert!(run.errors.is_empty(), "unexpected stream errors: {:?}", run.errors);
    assert_eq!(run.token.as_deref(), Some("token-full"));
}

fn triple(id: &str, asset: &str, state: &str) -> (String, String, String) {
    (id.to_string(), asset.to_string(), state.to_string())
}

#[test]
fn full_query_sibling_assets_share_master_without_clobbering() {
    let server = canned(vec![page(
        vec![
            test_asset_record_for("asset-sibling-b", "master-sibling"),
            test_master_record("master-sibling"),
            test_asset_record_for("asset-sibling-a", "master-sibling"),
        ],
        Some("token-full"),
    )]);
    let run = run(None, Some(2), 1, fast(1), false, server);
    assert_eq!(
        run.seen,
        vec![
            triple("master-sibling", "asset-sibling-b", "master-sibling"),
            triple("master-sibling", "asset-sibling-a", "asset-sibling-a"),
        ]
    );
    assert_eq!(run.token.as_deref(), Some("token-full"));
}

#[test]
fn full_query_late_earlier_sibling_keeps_first_seen_master_state_id() {
    let server = canned(vec![
        page(
            vec![
                test_asset_record_for("asset-late-b", "master-late-earlier"),
                test_master_record("master-late-earlier"),
            ],
            Some("token-full"),
        ),
        page(
            vec![test_asset_record_for("asset-late-a", "master-late-earlier")],
            Some("token-full"),
        ),
    ]);
    let run = run(None, Some(2), 1, fast(1), false, server);
    assert_eq!(
        run.seen,
        vec![
            triple("master-late-earlier", "asset-late-b", "master-late-earlier"),
            triple("master-late-earlier", "asset-late-a", "asset-late-a"),
        ]
    );
    assert_eq!(run.token.as_deref(), Some("token-full"));
}

#[test]
fn full_query_late_sibling_asset_pairs_with_recent_master() {
    let server = canned(vec![
        page(
            vec![
                test_master_record("master-late-sibling"),
                test_asset_record_for("asset-late-a", "master-late-sibling"),
            ],
            Some("token-full"),
        ),
        page(
            vec![test_asset_record_for("asset-late-b", "master-late-sibling")],
            Some("token-full"),
        ),
    ]);
    let run = run(None, Some(2), 1, fast(1), false, server);
    assert_eq!(
        run.seen,
        vec![
            triple("master-late-sibling", "asset-late-a", "master-late-sibling"),
            triple("master-late-sibling", "asset-late-b", "asset-late-b"),
        ]
    );
    assert_eq!(run.token.as_deref(), Some("token-full"));
}

#[test]
fn full_query_unpaired_records_block_token() {
    let server =
        canned(vec![page(vec![test_asset_record("master-unpaired")], Some("token-full"))]);
    let run = run(None, Some(1), 1, fast(1), false, server);
    assert!(run.seen.is_empty());
    assert_eq!(run.errors.len(), 1);
    assert!(
        run.errors[0].contains("unpaired CPLMaster records and 1 unpaired CPLAsset records"),
        "unexpected error: {}",
        run.errors[0]
    );
    assert_eq!(run.token, None, "unpaired records must suppress the sync token");
}

#[test]
fn full_query_consecutive_empty_pages_prove_eof() {
    let server = canned(vec![page(photo_page("master-before-empty-tail"), Some("token-full"))]);
    let run = run(None, None, 1, fast(1), false, server);
    assert_eq!(run.ids(), vec!["master-before-empty-tail"]);
    assert!(run.errors.is_empty(), "unexpected errors: {:?}", run.errors);
    assert_eq!(run.token.as_deref(), Some("token-full"));
}

#[test]
fn photo_stream_with_known_single_page_total_proves_empty_tail() {
    let server = canned(vec![page(photo_page("master-1"), Some("st-known"))]);
    let run = run(None, Some(1), 100, fast(1), false, server);
    assert_eq!(run.seen.len(), 1);
    assert_eq!(run.token.as_deref(), Some("st-known"));
    assert_eq!(run.offsets.len(), 6, "the count is only a hint, so the empty tail is proved");
}

#[test]
fn download_stream_recent_limit_boundary_table() {
    for recent in [19_u32, 20, 21, 99, 100, 101] {
        let server = inventory(u64::from(recent), None);
        let run =
            run(Some(recent), Some(u64::from(recent)), 100, download(10), true, server);
        assert_eq!(run.seen.len(), recent as usize, "recent={recent}");
        for (expected, id) in run.ids().iter().enumerate() {
            assert_eq!(*id, format!("master-{expected:04}"), "recent={recent}");
        }
        assert_eq!(run.token.as_deref(), Some("zone-token"), "recent={recent}");
        assert_eq!(run.offsets.first().copied(), Some(0), "recent={recent}");
        assert!(
            run.offsets.windows(2).all(|pair| pair[0] < pair[1]),
            "recent={recent}: offsets must advance monotonically, got {:?}",
            run.offsets
        );
    }
}

/// A server with one photo at each rank that has a token.
fn token_by_offset(tokens: &'static [(u64, &'static str)]) -> impl FnMut(u64, usize) -> Answer {
    move |offset, _| match tokens.iter().find(|(at, _)| *at == offset) {
        Some((_, token)) => page(photo_page(&format!("master-{offset}")), Some(token)),
        None => page(Vec::new(), None),
    }
}

#[test]
fn test_photo_stream_with_token_parallel_fetchers_agree() {
    let server = token_by_offset(&[(0, "st-same"), (1, "st-same")]);
    let run = run(None, Some(2), 1, fast(2), false, server);
    assert_eq!(run.seen.len(), 2);
    assert_eq!(run.token.as_deref(), Some("st-same"));
}

#[test]
fn test_photo_stream_with_token_parallel_fetchers_disagree_suppresses_token() {
    let server = token_by_offset(&[(0, "st-first"), (1, "st-second")]);
    let run = run(None, Some(2), 1, fast(2), false, server);
    assert_eq!(run.seen.len(), 2);
    assert_eq!(run.token, None, "mismatched parallel fetcher tokens must block advancement");
}

#[test]
fn test_photo_stream_with_token_empty_album() {
    let run = run(None, Some(0), 100, fast(1), false, canned(Vec::new()));
    assert!(run.seen.is_empty());
    assert!(run.errors.is_empty());
    assert_eq!(run.token, None);
}

#[test]
fn test_photo_stream_limit_zero_yields_nothing() {
    let server = canned(vec![page(photo_page("master-1"), None), page(Vec::new(), None)]);
    let run = run(Some(0), Some(10), 100, fast(1), false, server);
    assert_eq!(run.seen.len(), 0, "--recent 0 should yield 0 items");
}

#[test]
fn test_photo_stream_limit_one_yields_exactly_one() {
    let server = canned(vec![
        page(photo_page("master-1"), None),
        page(photo_page("master-2"), None),
        page(Vec::new(), None),
    ]);
    let run = run(Some(1), Some(10), 1, fast(1), false, server);
    assert_eq!(run.seen.len(), 1, "--recent 1 should yield exactly 1 item");
    assert!(run.errors.is_empty());
}

#[test]
fn test_photo_stream_continues_past_master_less_page() {
    let server = canned(vec![
        page(vec![test_asset_record_for("asset-orphan-1", "orphan-master")], None),
        page(vec![test_master_record("orphan-master")], None),
        page(photo_page("master-ok"), None),
        page(Vec::new(), None),
    ]);
    let run = run(None, None, 1, fast(1), false, server);
    assert!(run.errors.is_empty());
    assert_eq!(run.seen.len(), 2, "later pages should be yielded despite page 1 having no masters");
}

#[test]
fn test_photo_stream_probes_past_single_empty_page() {
    let server = canned(vec![
        page(photo_page("master-1"), None),
        page(Vec::new(), None),
        page(photo_page("master-2"), None),
    ]);
    let run = run(None, None, 1, fast(1), false, server);
    assert_eq!(run.seen.len(), 2, "a single empty page must not terminate enumeration");
}

#[test]
fn test_photo_stream_tolerates_four_consecutive_empty_pages() {
    let server = canned(vec![
        page(photo_page("master-1"), None),
        page(Vec::new(), None),
        page(Vec::new(), None),
        page(Vec::new(), None),
        page(Vec::new(), None),
        page(photo_page("master-2"), None),
    ]);
    let run = run(None, None, 1, fast(1), false, server);
    assert_eq!(run.seen.len(), 2, "master-2 must be yielded after 4 consecutive empty probes");
}

#[test]
fn test_photo_stream_terminates_after_max_empty_probes() {
    let server = canned(vec![
        page(photo_page("master-1"), None),
        page(Vec::new(), None),
        page(Vec::new(), None),
        page(Vec::new(), None),
        page(Vec::new(), None),
        page(Vec::new(), None),
        page(photo_page("master-unreachable"), None),
    ]);
    let run = run(None, None, 1, fast(1), false, server);
    assert_eq!(run.seen.len(), 1, "enumeration must terminate after so many empty pages");
}

#[test]
fn photos_returns_err_when_fetcher_panics() {
    let mut setup = open_stream(None, Some(1), 100, fast(1), false, false);
    setup.capture.complete(Some("token".to_string()), EnumerationCompletion::ProvenEof);
    assert_eq!(setup.capture.final_token(false).as_deref(), Some("token"));
    assert_eq!(setup.capture.final_token(true), None);
}

#[test]
fn a_missing_report_keeps_no_token() {
    let mut setup = open_stream(None, Some(200), 100, fast(2), false, false);
    let fetchers = setup.plan.ranges.len();
    assert_eq!(fetchers, 3);
    for _ in 1..fetchers {
        setup.capture.complete(Some("token".to_string()), EnumerationCompletion::ProvenEof);
    }
    assert_eq!(setup.capture.final_token(false), None);
    setup.capture.complete(Some("token".to_string()), EnumerationCompletion::ProvenEof);
    assert_eq!(setup.capture.final_token(false).as_deref(), Some("token"));
}

#[test]
fn a_count_above_the_limit_suppresses_the_token_beforehand() {
    let cut = open_stream(Some(1), Some(2), 100, fast(1), false, false);
    assert!(cut.capture.suppressed);
    let whole = open_stream(Some(2), Some(2), 100, fast(1), false, false);
    assert!(!whole.capture.suppressed);
}

#[test]
fn the_channel_holds_a_page_for_each_fetcher_up_to_a_cap() {
    assert_eq!(open_stream(None, None, 100, fast(1), false, false).channel_capacity, 100);
    let wide = open_stream(None, Some(5000), 100, fast(10), false, false);
    assert_eq!(wide.channel_capacity, 500);
}

#[test]
fn records_that_two_ranges_meet_are_handed_on_once() {
    let server = |offset: u64, _: usize| match offset {
        0 | 1 => page(photo_page("master-shared"), Some("token")),
        _ => page(Vec::new(), Some("token")),
    };
    let run = run(None, Some(2), 1, fast(2), false, server);
    assert_eq!(run.ids(), vec!["master-shared"]);
}

#[test]
fn a_live_unbounded_tail_can_be_an_error() {
    let mut owners: FxHashMap<String, u64> = FxHashMap::default();
    let setup = open_stream(None, None, 1, fast(1), false, true);
    let mut range = setup.plan.ranges[0];
    range.role = FetcherRangeRole::Data;
    let mut fetcher = Fetcher::new(range, setup.behavior, true);
    let mut last = None;
    for _ in 0..5 {
        last = Some(fetcher.on_page(&mut owners, Vec::new(), None));
    }
    let last = last.unwrap();
    assert!(last.finished);
    match &last.items[0] {
        FetchItem::Failure(text) => assert_eq!(text, kei::fetch::EMPTY_TAIL_FAILURE),
        FetchItem::Asset(_) => panic!("an empty page gave an asset"),
    }
}

#[test]
fn offline_replay_full_pass_fixture() {
    let server = canned(vec![
        page(photo_page("master-replay-full"), Some("token-full")),
        page(Vec::new(), Some("token-full")),
    ]);
    let run = run(None, Some(1), 100, fast(1), true, server);
    assert_eq!(run.seen.len(), 1);
    assert_eq!(run.token.as_deref(), Some("token-full"));
}

#[test]
fn offline_replay_paginated_full_pass_fixture() {
    let server = canned(vec![
        page(photo_page("master-replay-page-1"), Some("token-page-1")),
        page(photo_page("master-replay-page-2"), Some("token-page-2")),
        page(Vec::new(), Some("token-page-2")),
    ]);
    let run = run(None, Some(2), 1, fast(1), true, server);
    assert_eq!(run.seen.len(), 2);
    assert_eq!(run.token.as_deref(), Some("token-page-2"));
}

#[test]
fn offline_replay_empty_page_probe_fixture() {
    let server = canned(vec![
        page(photo_page("master-before-gap"), None),
        page(Vec::new(), None),
        page(photo_page("master-after-gap"), None),
    ]);
    let run = run(None, None, 1, fast(1), false, server);
    assert_eq!(
        run.seen.len(),
        2,
        "single empty records/query page must be treated as a gap, not EOF"
    );
}

#[test]
fn photo_stream_limit_probe_is_ordered_and_proves_eof() {
    let run = run(Some(100), Some(100), 100, fast(10), true, |offset, _| {
        let mut records = Vec::new();
        if offset == 0 {
            for i in 0..99 {
                records.extend(photo_page(&format!("master-{i}")));
            }
            records.push(test_asset_record("master-99"));
        } else if offset == 99 {
            records.extend(photo_page("master-99"));
        }
        page(records, Some("st-boundary"))
    });
    assert_eq!(run.seen.len(), 100);
    assert_eq!(run.token.as_deref(), Some("st-boundary"));
    assert_eq!(run.offsets, vec![0, 99, 100, 200, 300, 400, 500]);
}

/// An inventory with a token, which notes how large the pages are that it is asked for.
fn sized<'a>(
    total: u64,
    token: &'a str,
    page_sizes: &'a mut Vec<usize>,
) -> impl FnMut(u64, usize) -> Answer + 'a {
    let mut server = inventory(total, None);
    move |offset, page_size| {
        page_sizes.push(page_size);
        let (records, _) = server(offset, page_size)?;
        page(records, Some(token))
    }
}

#[test]
fn download_stream_recent_limit_drains_beyond_first_small_page() {
    let mut page_sizes = Vec::new();
    let run = run(
        Some(100),
        Some(100),
        100,
        download(10),
        true,
        sized(100, "st-dynamic", &mut page_sizes),
    );
    assert_eq!(
        run.seen.len(),
        100,
        "download-mode --recent must not stop after the first reduced page"
    );
    assert_eq!(run.token.as_deref(), Some("st-dynamic"));
    assert_eq!(run.offsets, vec![0, 20, 40, 60, 80, 100, 120, 140, 160, 180]);
    assert!(page_sizes.iter().all(|size| *size == 20));
}

#[test]
fn download_stream_recent_limit_without_total_count_drains_until_limit() {
    let mut page_sizes = Vec::new();
    let run = run(
        Some(100),
        None,
        100,
        download(10),
        true,
        sized(100, "zone-token", &mut page_sizes),
    );
    let ids = run.ids();
    assert_eq!(ids.len(), 100);
    assert_eq!(ids.first().copied(), Some("master-0000"));
    assert_eq!(ids.last().copied(), Some("master-0099"));
    assert_eq!(run.token.as_deref(), Some("zone-token"));
    assert_eq!(run.offsets, vec![0, 20, 40, 60, 80, 100, 120, 140, 160, 180]);
    assert!(page_sizes.iter().all(|size| *size == 20));
}

#[test]
fn dropping_stream_during_tail_proof_blocks_token() {
    let setup = open_stream(None, Some(1), 100, download(1), true, true);
    let mut capture = setup.capture;
    capture.complete(
        None,
        EnumerationCompletion::Incomplete(EnumerationFailure::ConsumerDropped),
    );
    for _ in 1..setup.plan.ranges.len() {
        capture.complete(Some("zone-token".to_string()), EnumerationCompletion::ProvenEof);
    }
    assert_eq!(capture.final_token(false), None);
}

#[test]
fn test_photo_stream_no_total_count_uses_single_fetcher() {
    let setup = open_stream(None, None, 100, fast(10), false, false);
    assert_eq!(setup.plan.ranges.len(), 1);
}

#[test]
fn test_photo_stream_small_recent_uses_single_fetcher() {
    let setup = open_stream(Some(50), Some(1000), 100, fast(10), false, false);
    assert_eq!(setup.plan.ranges.len(), 1);
}

#[test]
fn an_asset_waits_for_its_master_until_it_is_handed_on() {
    let setup = open_stream(None, None, 100, fast(1), false, false);
    let mut owners: FxHashMap<String, u64> = FxHashMap::default();
    let mut fetcher = Fetcher::new(setup.plan.ranges[0], setup.behavior, true);
    let outcome = fetcher.on_page(&mut owners, vec![test_asset_record("m")], None);
    assert!(outcome.items.is_empty());
    assert_eq!(fetcher.pending_assets.len(), 1);
    let outcome = fetcher.on_page(&mut owners, vec![test_master_record("m")], None);
    assert_eq!(outcome.items.len(), 1);
    assert!(fetcher.pending_assets.is_empty());
}

#[test]
fn a_master_without_an_asset_waits() {
    let setup = open_stream(None, None, 100, fast(1), false, false);
    let mut owners: FxHashMap<String, u64> = FxHashMap::default();
    let mut fetcher = Fetcher::new(setup.plan.ranges[0], setup.behavior, true);
    let records = vec![test_master_record("alone"), test_master_record("m"), test_asset_record("m")];
    let outcome = fetcher.on_page(&mut owners, records, None);
    assert_eq!(outcome.items.len(), 1);
    assert_eq!(fetcher.pending_masters.len(), 1);
    assert!(fetcher.pending_masters.contains_key("alone"));
    assert_eq!(
        fetcher.finish().completion,
        EnumerationCompletion::Incomplete(EnumerationFailure::UnpairedRecords)
    );
}

#[test]
fn a_proven_end_means_that_every_asset_was_handed_on_once() {
    let setup = open_stream(None, None, 100, fast(1), false, false);
    let range = setup.plan.ranges[0];
    assert!(range.limit.is_none());
    let mut owners: FxHashMap<String, u64> = FxHashMap::default();
    let mut fetcher = Fetcher::new(range, setup.behavior, true);
    let pages = vec![
        vec![test_asset_record_for("a1", "m"), test_master_record("n")],
        vec![test_master_record("m"), test_asset_record_for("a2", "m")],
        vec![test_asset_record_for("b1", "n"), test_asset_record_for("a1", "m")],
    ];
    let mut names = Vec::new();
    for records in pages {
        assert!(fetcher.has_room_for(records.len()));
        for item in fetcher.on_page(&mut owners, records, None).items {
            match item {
                FetchItem::Asset(asset) => names.push(asset.asset_record_name().to_string()),
                FetchItem::Failure(text) => panic!("unexpected failure: {text}"),
            }
        }
    }
    assert_eq!(fetcher.finish().completion, EnumerationCompletion::ProvenEof);
    names.sort();
    let expected: Vec<&str> = if range.role == FetcherRangeRole::Data {
        vec!["a1", "a1", "a2", "b1"]
    } else {
        vec!["a1", "a2", "b1"]
    };
    assert_eq!(names, expected);
}

#[test]
fn the_range_that_looks_at_a_record_first_owns_it() {
    let setup = open_stream(None, None, 100, fast(1), false, false);
    let mut first = setup.plan.ranges[0];
    let mut owners: FxHashMap<String, u64> = FxHashMap::default();
    for (role, again) in [
        (FetcherRangeRole::Data, 1),
        (FetcherRangeRole::TailProof, 0),
    ] {
        owners.clear();
        first.role = role;
        let mut other = first;
        other.start = first.start + 7;
        let records = || vec![test_master_record("m"), test_asset_record("m")];
        let mut owner = Fetcher::new(first, setup.behavior, true);
        assert_eq!(owner.on_page(&mut owners, records(), None).items.len(), 1);
        let mut late = Fetcher::new(other, setup.behavior, true);
        assert!(late.on_page(&mut owners, records(), None).items.is_empty());
        assert_eq!(owner.on_page(&mut owners, records(), None).items.len(), again);
        assert!(owners.values().all(|start| *start == first.start));
    }
}

#[test]
fn paired_masters_are_not_let_grow() {
    let setup = open_stream(None, None, 1, fast(1), false, false);
    let mut owners: FxHashMap<String, u64> = FxHashMap::default();
    let mut fetcher = Fetcher::new(setup.plan.ranges[0], setup.behavior, true);
    for i in 0..7 {
        let name = format!("m{i}");
        let records = vec![test_master_record(&name), test_asset_record(&name)];
        assert_eq!(fetcher.on_page(&mut owners, records, None).items.len(), 1);
        assert_eq!(fetcher.paired_masters.len(), (i + 1).min(4));
    }
    assert!(fetcher.paired_masters.keys().all(|name| name.starts_with('m')));
}

#[test]
fn records_that_stay_unpaired_are_counted() {
    let setup = open_stream(None, None, 100, fast(1), false, false);
    let mut owners: FxHashMap<String, u64> = FxHashMap::default();
    let mut fetcher = Fetcher::new(setup.plan.ranges[0], setup.behavior, true);
    let records = vec![
        test_master_record("alone"),
        test_asset_record_for("a1", "absent"),
        test_asset_record_for("a2", "absent"),
        test_asset_record_for("b1", "missing"),
    ];
    assert!(fetcher.on_page(&mut owners, records, None).items.is_empty());
    assert!(fetcher.has_room_for(10));
    assert_eq!(
        fetcher.finish().failure.as_deref(),
        Some(
            "Photo enumeration is incomplete: 1 unpaired CPLMaster records and 3 unpaired \
             CPLAsset records remained at the end of the stream."
        )
    );
}

#[test]
fn a_later_look_at_a_record_does_not_change_its_owner() {
    let roles = [FetcherRangeRole::Data, FetcherRangeRole::TailProof, FetcherRangeRole::LimitProbe];
    for role in roles {
        let mut owners: FxHashMap<String, u64> = FxHashMap::default();
        let mut emitted: FxHashMap<String, ()> = FxHashMap::default();
        assert!(should_emit_asset_record("a", 3, role, &mut emitted, &mut owners));
        assert_eq!(owners["a"], 3);
        for other in roles {
            let mut theirs: FxHashMap<String, ()> = FxHashMap::default();
            assert!(!should_emit_asset_record("a", 9, other, &mut theirs, &mut owners));
            assert!(!should_emit_asset_record("a", 9, other, &mut theirs, &mut owners));
            assert_eq!(owners["a"], 3);
        }
        let again = should_emit_asset_record("a", 3, role, &mut emitted, &mut owners);
        assert_eq!(again, role == FetcherRangeRole::Data);
        assert_eq!(owners["a"], 3);
        assert!(should_emit_asset_record("b", 9, role, &mut emitted, &mut owners));
        assert_eq!(owners["b"], 9);
    }
}
