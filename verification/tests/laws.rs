//! The library's laws on concrete values, and its helpers at their edges.
use kei::album::{AssetMatcher, PhotoAlbumConfig};
use kei::asset::{extract_versions, PhotoAsset};
use kei::cloudkit::Record;
use kei::dates::{calendar_instant, float_millis, number_millis, FIRST_MILLIS, LAST_MILLIS};
use kei::delta::DeltaRecordBuffer;
use kei::json::{Json, JsonNumber};
use kei::lookup::{merge_record_resolution, RecordResolution};
use kei::notifications::{script_env, Event, SyncNotificationData};
use kei::password::{check_password_file_mode, CommandWait, FileWarnings, WaitStep, POLL_CAP};
use kei::paths::{extension, path_file_name};
use kei::pid_file::recorded_pid;
use kei::plan::{
    build_enumeration_plan, effective_total, range_limit, FetcherRangeRole, PhotoStreamProfile,
};
use kei::queries::{encode_params, ParamValue};
use kei::redact::redact;
use kei::secret::Secret;
use kei::session::check_cloudkit_errors;
use kei::smart_folders::smart_folder_names;
use kei::text::{
    contains, decimal, decimal_wide, eq_ignore_ascii_case, rsplit_once, signed_decimal, trim,
    truncate_str,
};
use kei::tokens::{EnumerationCompletion, EnumerationFailure, FetcherSyncTokenCapture};
use kei::types::{AssetItemType, AssetVersionSize};
use rustc_hash::FxHashMap;

/// A parsed JSON text as the library's value.
fn json_of(value: &serde_json::Value) -> Json {
    match value {
        serde_json::Value::Null => Json::Null,
        serde_json::Value::Bool(b) => Json::Bool(*b),
        serde_json::Value::Number(n) => Json::Number(if let Some(n) = n.as_u64() {
            JsonNumber::Unsigned(n)
        } else if let Some(n) = n.as_i64() {
            JsonNumber::Negative(n)
        } else {
            JsonNumber::Float(n.as_f64().unwrap().to_bits())
        }),
        serde_json::Value::String(s) => Json::Text(s.clone()),
        serde_json::Value::Array(items) => Json::List(items.iter().map(json_of).collect()),
        serde_json::Value::Object(members) => {
            Json::Object(members.iter().map(|(name, value)| (name.clone(), json_of(value))).collect())
        }
    }
}

/// The JSON value that a text denotes.
fn js(text: &str) -> Json {
    json_of(&serde_json::from_str(text).unwrap())
}

fn record(name: &str, record_type: &str, fields: &str) -> Record {
    Record {
        record_name: name.to_string(),
        record_type: record_type.to_string(),
        fields: js(fields),
        deleted: None,
    }
}

fn master(name: &str) -> Record {
    record(name, "CPLMaster", "{}")
}

fn asset(name: &str, master: &str) -> Record {
    let fields = format!(r#"{{"masterRef": {{"value": {{"recordName": "{master}"}}}}}}"#);
    record(name, "CPLAsset", &fields)
}

#[test]
fn params_are_sent_alike_in_whatever_order_they_were_collected() {
    let pairs = [("remapEnums", true), ("getCurrentSyncToken", true), ("dsid", false)];
    let forward: Vec<(String, ParamValue)> =
        pairs.iter().map(|(name, flag)| (name.to_string(), ParamValue::Flag(*flag))).collect();
    let backward: Vec<(String, ParamValue)> =
        pairs.iter().rev().map(|(name, flag)| (name.to_string(), ParamValue::Flag(*flag))).collect();
    let sent = encode_params(&forward);
    assert_eq!(sent, "dsid=false&getCurrentSyncToken=true&remapEnums=true");
    assert_eq!(encode_params(&backward), sent);
}

#[test]
fn every_resource_gives_a_version_or_is_malformed() {
    let resource = |url: &str| {
        format!(r#"{{"value": {{"downloadURL": "{url}", "size": 1, "fileChecksum": "abc"}}}}"#)
    };
    let fields = js(&format!(
        r#"{{
            "resOriginalRes": {}, "resOriginalFileType": {{"value": "public.jpeg"}},
            "resJPEGMedRes": {}, "resJPEGMedFileType": {{"value": "public.jpeg"}}
        }}"#,
        resource("https://p01.icloud-content.com/a"),
        resource("http://p01.icloud-content.com/b"),
    ));
    let (versions, malformed) = extract_versions(AssetItemType::Image, &fields, &js("{}"));
    assert_eq!(versions.len(), 1);
    assert_eq!(malformed.len(), 1);
    assert!(versions.get(AssetVersionSize::Original).is_some());
    assert_eq!(&*versions.at(0).1.url, "https://p01.icloud-content.com/a");
}

fn feed(pages: Vec<Vec<Record>>) -> Vec<String> {
    let mut buffer = DeltaRecordBuffer::new();
    let mut names = Vec::new();
    for page in pages {
        names.extend(buffer.process_records(page).iter().map(|e| e.record_name.to_string()));
    }
    let mut rest: Vec<String> = buffer.flush().iter().map(|e| e.record_name.to_string()).collect();
    rest.sort();
    names.extend(rest);
    names
}

#[test]
fn where_the_feed_is_cut_into_pages_does_not_matter() {
    let records = || vec![master("m1"), asset("a2", "m2"), asset("a1", "m1"), master("m2"), master("m3")];
    let whole = feed(vec![records()]);
    assert_eq!(whole, vec!["m1", "m2", "m3"]);
    for cut in 0..=5 {
        let mut first = records();
        let second = first.split_off(cut);
        assert_eq!(feed(vec![first, second]), whole);
    }
}

#[test]
fn every_change_is_told_of_once_at_most() {
    let mut purged = master("gone");
    purged.deleted = Some(true);
    let album = record("album-1", "CPLAlbum", "{}");
    let other = record("other", "CPLUnknown", "{}");
    let names = feed(vec![vec![purged, album, other, asset("lone", "absent"), master("m")]]);
    assert_eq!(names, vec!["gone", "album-1", "lone", "m"]);
}

#[test]
fn a_flushed_feed_tells_of_every_asset_of_a_master() {
    let names = feed(vec![
        vec![asset("a1", "absent"), asset("b1", "m")],
        vec![asset("a2", "absent"), asset("b2", "m")],
        vec![master("m"), asset("b3", "m"), master("lone")],
    ]);
    assert_eq!(names, vec!["m", "m", "a1", "a2", "b3", "lone"]);
}

#[test]
fn a_plan_parts_the_ranks() {
    let profiles = [
        PhotoStreamProfile::FastEnumeration { concurrency: 4 },
        PhotoStreamProfile::BackpressuredDownload { download_concurrency: 4 },
    ];
    for profile in profiles {
        let plan = build_enumeration_plan(None, Some(1000), 100, profile);
        for rank in [0, 1, 249, 250, 999, 1000, 5000, u64::MAX - 1] {
            let owners =
                plan.ranges.iter().filter(|range| range.start <= rank && rank < range.end).count();
            assert_eq!(owners, 1, "rank {rank}");
        }
        assert!(plan.covers_prefix(1000));
        let last = plan.ranges.last().unwrap();
        assert_eq!((last.end, last.role), (u64::MAX, FetcherRangeRole::TailProof));
    }
}

#[test]
fn limits_cut_counts_and_ranges() {
    assert_eq!(effective_total(None, None), None);
    assert_eq!(effective_total(Some(5), None), Some(5));
    assert_eq!(effective_total(Some(5), Some(3)), Some(3));
    assert_eq!(effective_total(Some(5), Some(9)), Some(5));
    assert_eq!(range_limit(None, 0, 10), None);
    assert_eq!(range_limit(Some(25), 20, 40), Some(5));
    assert_eq!(range_limit(Some(25), 0, 20), Some(20));
    assert_eq!(range_limit(Some(25), 40, 60), Some(0));
}

#[test]
fn one_failure_keeps_every_token_back() {
    let token = || Some("t".to_string());
    let mut capture = FetcherSyncTokenCapture::new();
    capture.expect(2);
    capture.complete(token(), EnumerationCompletion::ProvenEof);
    assert_eq!(capture.resolve(), None, "one fetcher has not reported");
    capture.complete(token(), EnumerationCompletion::ProvenEof);
    assert_eq!(capture.resolve(), token());
    assert_eq!(capture.final_token(true), None, "a fetcher panicked");

    let mut capture = FetcherSyncTokenCapture::new();
    capture.expect(2);
    capture.complete(token(), EnumerationCompletion::Incomplete(EnumerationFailure::FetcherError));
    capture.complete(token(), EnumerationCompletion::ProvenEof);
    assert_eq!(capture.resolve(), None);
}

#[test]
fn the_resolution_that_tells_most_is_kept() {
    let present = || {
        RecordResolution::Present(PhotoAsset::new(
            &js(r#"{"recordName": "m"}"#),
            &js(r#"{"recordName": "a"}"#),
        ))
    };
    let lone = || RecordResolution::Deleted { deleted_at: None, master_family: false };
    let family = || RecordResolution::Deleted { deleted_at: None, master_family: true };
    assert!(matches!(merge_record_resolution(lone(), present()), RecordResolution::Present(_)));
    assert!(matches!(merge_record_resolution(present(), lone()), RecordResolution::Present(_)));
    assert!(matches!(
        merge_record_resolution(lone(), RecordResolution::Unknown),
        RecordResolution::Unknown
    ));
    assert!(matches!(
        merge_record_resolution(RecordResolution::Unknown, family()),
        RecordResolution::Deleted { master_family: true, .. }
    ));
}

#[test]
fn members_are_found_once_and_only_where_they_were_missing() {
    let mut missing = FxHashMap::default();
    missing.insert("a1".to_string(), ());
    missing.insert("a9".to_string(), ());
    let mut matcher = AssetMatcher::new(missing, "SharedSync-1");
    let page = vec![master("m1"), asset("a1", "m1"), master("m2"), asset("a2", "m2")];
    assert!(matcher.on_page(page));
    assert!(!matcher.is_done());
    assert_eq!(matcher.matched.len(), 1);
    assert_eq!(matcher.matched[0].asset_record_name(), "a1");
    assert_eq!(matcher.matched[0].source_zone(), Some("SharedSync-1"));
    assert_eq!(matcher.missing.len(), 1);
}

#[test]
fn a_page_with_an_error_in_a_record_does_not_pass() {
    let page = js(r#"{"records": [{"recordName": "a"}, {"serverErrorCode": "THROTTLED"}]}"#);
    assert!(check_cloudkit_errors(page).unwrap_err().retryable);
    let page = js(r#"{"records": [{"recordName": "a"}, {"serverErrorCode": 7}]}"#);
    assert!(check_cloudkit_errors(page).is_ok());
}

#[test]
fn the_password_is_never_written() {
    let secret = Secret::new("p*ss".to_string());
    let line = b"p*ss p*p*ss \xff p*s p*sss";
    let written = redact(line, Some(&secret));
    assert!(!written.windows(4).any(|window| window == b"p*ss"));
    assert_eq!(redact(b"p*s \xff", Some(&secret)), b"p*s \xff");
    assert_eq!(redact(b"p*ss", None), b"p*ss");
    let line = "caf\u{e9} p*ss, p*p*ss".as_bytes();
    assert_eq!(redact(line, Some(&secret)), "caf\u{e9} ********, p*********".as_bytes());
}

#[test]
fn waits_grow_to_the_cap_and_end_with_the_time() {
    let mut wait = CommandWait::new();
    let mut last = 0;
    for _ in 0..8 {
        match wait.on_running(0, 30_000_000_000) {
            WaitStep::Sleep(nanos) => {
                assert!(last <= nanos && nanos <= POLL_CAP);
                last = nanos;
            }
            WaitStep::Kill => panic!("there is time left"),
        }
    }
    assert_eq!(last, POLL_CAP);
    assert_eq!(wait.on_running(29_999_999_999, 30_000_000_000), WaitStep::Sleep(1));
    assert_eq!(wait.on_running(30_000_000_000, 30_000_000_000), WaitStep::Kill);
}

#[test]
fn a_file_is_warned_of_once() {
    let mut warnings = FileWarnings::new();
    assert_eq!(warnings.on_file("/tmp/pw", Some(0o100_600)), None);
    assert!(warnings.on_file("/tmp/pw", Some(0o100_644)).is_some());
    assert_eq!(warnings.on_file("/tmp/pw", Some(0o100_666)), None);
    assert!(warnings.on_file("/tmp/other", Some(0o100_644)).is_some());
    assert_eq!(
        check_password_file_mode("/tmp/pw", 0o4640),
        check_password_file_mode("/tmp/pw", 0o640)
    );
}

#[test]
fn a_written_process_is_read_back() {
    for pid in [1_i32, 42, i32::MAX] {
        assert_eq!(recorded_pid(&decimal(pid as u64)), Some(pid));
    }
}

#[test]
fn names_are_distinct() {
    let events = [
        Event::TwoFaRequired,
        Event::SyncStarted,
        Event::SyncComplete,
        Event::SyncFailed,
        Event::SessionExpired,
    ];
    for (i, a) in events.iter().enumerate() {
        for b in &events[i + 1..] {
            assert_ne!(a.as_str(), b.as_str());
        }
    }
    let names = smart_folder_names();
    for (i, a) in names.iter().enumerate() {
        assert!(!names[i + 1..].contains(a));
    }
}

#[test]
fn the_event_comes_before_the_numbers() {
    let data = SyncNotificationData::default();
    let env = script_env("sync_complete", "done", "me", Some(&data));
    let names: Vec<&str> = env.iter().take(3).map(|(name, _)| *name).collect();
    assert_eq!(names, vec!["KEI_EVENT", "KEI_MESSAGE", "KEI_ICLOUD_USERNAME"]);
    assert!(env.len() > 3);
    assert_eq!(script_env("sync_complete", "done", "me", None).len(), 3);
}

#[test]
fn the_whole_library_keeps_the_zone_and_the_page_size() {
    let album = PhotoAlbumConfig {
        params: Vec::new(),
        service_endpoint: "https://example.com".to_string(),
        name: "Trip".to_string(),
        list_type: "x".to_string(),
        obj_type: "y".to_string(),
        query_filter: Some(js("[]")),
        page_size: 7,
        zone_id: js(r#"{"zoneName": "SharedSync-1"}"#),
        container_id: Some("c".to_string()),
    };
    assert!(album.has_cross_zone_hydration(1));
    assert!(!album.has_cross_zone_hydration(0));
    let library = album.clone_as_library_wide();
    assert_eq!(library.name, "");
    assert_eq!(library.zone_name(), "SharedSync-1");
    assert_eq!(library.page_size, 7);
    assert_eq!(library.container_id(), None);
    assert!(!library.has_cross_zone_hydration(1));
}

// Helpers.

#[test]
fn numbers_are_written_in_decimal() {
    assert_eq!(decimal(0), "0");
    assert_eq!(decimal(u64::MAX), u64::MAX.to_string());
    assert_eq!(decimal_wide(u128::MAX), u128::MAX.to_string());
    assert_eq!(signed_decimal(i64::MIN), i64::MIN.to_string());
    assert_eq!(signed_decimal(-7), "-7");
}

#[test]
fn texts_are_looked_through() {
    assert_eq!(trim(" \t\u{2003}a b\n"), "a b");
    assert_eq!(trim("\u{a0}"), "");
    assert!(contains("abc", ""));
    assert!(contains("xaab", "aab"));
    assert!(!contains("xab", "aab"));
    assert!(eq_ignore_ascii_case("Throttled", "THROTTLED"));
    assert!(!eq_ignore_ascii_case("\u{e9}", "\u{c9}"));
    assert_eq!(
        rsplit_once("a-IN-b-IN-c", "-IN-"),
        Some(("a-IN-b".to_string(), "c".to_string()))
    );
    assert_eq!(rsplit_once("abc", "-IN-"), None);
    assert_eq!(truncate_str("a\u{e9}b", 2), "a");
    assert_eq!(truncate_str("a\u{e9}b", 3), "a\u{e9}");
    assert_eq!(truncate_str("abc", 9), "abc");
}

#[test]
fn instants_are_those_of_the_calendar() {
    assert_eq!(calendar_instant(0), Some(0));
    assert_eq!(calendar_instant(FIRST_MILLIS), Some(FIRST_MILLIS));
    assert_eq!(calendar_instant(LAST_MILLIS), Some(LAST_MILLIS));
    assert_eq!(calendar_instant(i64::MAX), None);
    assert_eq!(calendar_instant(i64::MIN), None);
    assert_eq!(float_millis(1500.75_f64.to_bits()), Some(1500));
    assert_eq!(float_millis((-1500.75_f64).to_bits()), Some(-1500));
    assert_eq!(float_millis(f64::NAN.to_bits()), None);
    assert_eq!(float_millis(1e300_f64.to_bits()), None);
    assert_eq!(number_millis(JsonNumber::Negative(-1)), Some(-1));
}

#[test]
fn the_edges_of_the_calendar_are_exact() {
    assert_eq!(calendar_instant(FIRST_MILLIS - 1), None);
    assert_eq!(calendar_instant(LAST_MILLIS + 1), None);
}

#[test]
fn paths_are_taken_apart() {
    assert_eq!(path_file_name("/a/b.jpg").as_deref(), Some("b.jpg"));
    assert_eq!(path_file_name("..").as_deref(), None);
    assert_eq!(extension("IMG.0001.HEIC").as_deref(), Some("HEIC"));
    assert_eq!(extension(".hidden").as_deref(), None);
    assert_eq!(extension("a.").as_deref(), Some(""));
}

#[test]
fn json_members_are_found_by_name() {
    let json = js(r#"{"a": {"value": "x"}, "n": -3, "l": [1, 2]}"#);
    assert_eq!(json.field_str("a"), Some("x"));
    assert_eq!(json.get("n").and_then(Json::as_i64), Some(-3));
    assert_eq!(json.get("n").and_then(Json::as_u64), None);
    assert_eq!(json.get("l").and_then(Json::as_list).map(|list| list.len()), Some(2));
    assert!(json.get("missing").is_none());
    let object = Json::empty_object().with("k", Json::unsigned(1)).with("l", Json::unsigned(2));
    assert_eq!(object.get("l").and_then(Json::as_u64), Some(2));
}
