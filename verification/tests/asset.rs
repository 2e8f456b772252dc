//! Photo assets: what is read of a master and an asset record.
use std::mem::size_of;

use base64::Engine;
use kei::asset::{validate_download_url, PhotoAsset};
use kei::cloudkit::Record;
use kei::delta::{
    classify_change_reason, extract_master_ref, AlbumContainerDelta, AlbumRelationDelta,
    DeltaRecordBuffer,
};
use kei::json::{Json, JsonNumber};
use kei::types::{AssetItemType, AssetVersion, AssetVersionSize, ChangeReason};

/// A parsed JSON text as the library's value.
fn json_of(value: &serde_json::Value) -> Json {
    match value {
        serde_json::Value::Null => Json::Null,
        serde_json::Value::Bool(b) => Json::Bool(*b),
        serde_json::Value::Number(n) => Json::Number(if let Some(n) = n.as_u64() {
            JsonNumber::Unsigned(n)
        } else if let Some(n) = n.as_i64() {
            JsonNumber::Negative(n)
        } else {
            JsonNumber::Float(n.as_f64().unwrap().to_bits())
        }),
        serde_json::Value::String(s) => Json::Text(s.clone()),
        serde_json::Value::Array(items) => Json::List(items.iter().map(json_of).collect()),
        serde_json::Value::Object(members) => {
            Json::Object(members.iter().map(|(name, value)| (name.clone(), json_of(value))).collect())
        }
    }
}

/// The JSON value that a text denotes.
fn js(text: &str) -> Json {
    json_of(&serde_json::from_str(text).unwrap())
}

/// A value as it stands in a JSON text.
fn lit<T: serde::Serialize + ?Sized>(value: &T) -> String {
    serde_json::to_string(value).unwrap()
}

/// The day of an instant.
fn day(millis: i64) -> String {
    chrono::DateTime::from_timestamp_millis(millis).unwrap().format("%Y-%m-%d").to_string()
}

fn make_asset(master: Json, asset: Json) -> PhotoAsset {
    PhotoAsset::new(&master, &asset)
}

#[test]
fn test_id_present() {
    let asset = make_asset(js(r#"{"recordName": "ABC123"}"#), js(r#"{}"#));
    assert_eq!(asset.id(), "ABC123");
}

#[test]
fn test_id_missing() {
    let asset = make_asset(js(r#"{}"#), js(r#"{}"#));
    assert_eq!(asset.id(), "");
}

#[test]
fn test_filename_string_type() {
    let asset = make_asset(
        js(r#"{"fields": {"filenameEnc": {"value": "photo.jpg", "type": "STRING"}}}"#),
        js(r#"{}"#),
    );
    assert_eq!(asset.filename(), Some("photo.jpg"));
}

#[test]
fn test_filename_encrypted_bytes() {
    let encoded = base64::engine::general_purpose::STANDARD.encode(b"test.png");
    let asset = make_asset(
        js(&format!(r#"{{"fields": {{"filenameEnc": {{"value": {}, "type": "ENCRYPTED_BYTES"}}}}}}"#, lit(&encoded))),
        js(r#"{}"#),
    );
    assert_eq!(asset.filename(), Some("test.png"));
}

#[test]
fn test_filename_missing() {
    let asset = make_asset(js(r#"{"fields": {}}"#), js(r#"{}"#));
    assert_eq!(asset.filename(), None);
}

#[test]
fn empty_filename_string_rejected_at_deser() {
    let asset = make_asset(
        js(r#"{"fields": {"filenameEnc": {"value": "", "type": "STRING"}}}"#),
        js(r#"{}"#),
    );
    assert_eq!(
        asset.filename(),
        None,
        "empty STRING filename must be treated as missing"
    );
}

#[test]
fn empty_filename_encrypted_bytes_rejected_at_deser() {
    let encoded = base64::engine::general_purpose::STANDARD.encode(b"");
    assert_eq!(encoded, "");
    let asset = make_asset(
        js(&format!(r#"{{"fields": {{"filenameEnc": {{"value": {}, "type": "ENCRYPTED_BYTES"}}}}}}"#, lit(&encoded))),
        js(r#"{}"#),
    );
    assert_eq!(
        asset.filename(),
        None,
        "empty ENCRYPTED_BYTES filename must be treated as missing"
    );
}

#[test]
fn test_item_type_image() {
    let asset = make_asset(
        js(r#"{"fields": {"itemType": {"value": "public.jpeg"}}}"#),
        js(r#"{}"#),
    );
    assert_eq!(asset.item_type(), Some(AssetItemType::Image));
}

#[test]
fn test_item_type_movie() {
    let asset = make_asset(
        js(r#"{"fields": {"itemType": {"value": "com.apple.quicktime-movie"}}}"#),
        js(r#"{}"#),
    );
    assert_eq!(asset.item_type(), Some(AssetItemType::Movie));
}

#[test]
fn test_item_type_fallback_from_extension() {
    let asset = make_asset(
        js(r#"{"fields": {
            "itemType": {"value": "unknown.type"},
            "filenameEnc": {"value": "photo.heic", "type": "STRING"}
        }}"#),
        js(r#"{}"#),
    );
    assert_eq!(asset.item_type(), Some(AssetItemType::Image));
}

#[test]
fn test_item_type_webp_from_uti() {
    let asset = make_asset(
        js(r#"{"fields": {"itemType": {"value": "org.webmproject.webp"}}}"#),
        js(r#"{}"#),
    );
    assert_eq!(asset.item_type(), Some(AssetItemType::Image));
}

#[test]
fn test_item_type_webp_from_extension_fallback() {
    let asset = make_asset(
        js(r#"{"fields": {
            "itemType": {"value": "unknown.type"},
            "filenameEnc": {"value": "photo.webp", "type": "STRING"}
        }}"#),
        js(r#"{}"#),
    );
    assert_eq!(asset.item_type(), Some(AssetItemType::Image));
}

#[test]
fn test_asset_date() {
    let asset = make_asset(
        js(r#"{}"#),
        js(r#"{"fields": {"assetDate": {"value": 1736899200000.0}}}"#),
    );
    let dt = asset.asset_date();
    assert_eq!(day(dt), "2025-01-15");
}

#[test]
fn test_versions_builds_map() {
    let asset = make_asset(
        js(r#"{"fields": {
            "itemType": {"value": "public.jpeg"},
            "resOriginalRes": {"value": {
                "size": 1000,
                "downloadURL": "https://p01.icloud-content.com/orig",
                "fileChecksum": "abc123"
            }},
            "resOriginalFileType": {"value": "public.jpeg"}
        }}"#),
        js(r#"{"fields": {}}"#),
    );
    assert!(asset.contains_version(AssetVersionSize::Original));
    let orig = asset.get_version(AssetVersionSize::Original).unwrap();
    assert_eq!(&*orig.url, "https://p01.icloud-content.com/orig");
    assert_eq!(&*orig.checksum, "abc123");
}

#[test]
fn test_display() {
    let asset = make_asset(js(r#"{"recordName": "XYZ"}"#), js(r#"{}"#));
    assert_eq!(asset.display(), "<PhotoAsset: id=XYZ>");
}

#[test]
fn test_versions_missing_download_url() {
    let asset = make_asset(
        js(r#"{"fields": {
            "itemType": {"value": "public.jpeg"},
            "resOriginalRes": {"value": {
                "size": 1000,
                "fileChecksum": "abc123"
            }},
            "resOriginalFileType": {"value": "public.jpeg"}
        }}"#),
        js(r#"{"fields": {}}"#),
    );
    assert!(asset.versions().is_empty());
}

#[test]
fn test_versions_missing_checksum() {
    let asset = make_asset(
        js(r#"{"fields": {
            "itemType": {"value": "public.jpeg"},
            "resOriginalRes": {"value": {
                "size": 1000,
                "downloadURL": "https://p01.icloud-content.com/orig"
            }},
            "resOriginalFileType": {"value": "public.jpeg"}
        }}"#),
        js(r#"{"fields": {}}"#),
    );
    assert!(asset.versions().is_empty());
}

#[test]
fn test_versions_empty_checksum() {
    let asset = make_asset(
        js(r#"{"fields": {
            "itemType": {"value": "public.jpeg"},
            "resOriginalRes": {"value": {
                "size": 1000,
                "downloadURL": "https://p01.icloud-content.com/orig",
                "fileChecksum": ""
            }},
            "resOriginalFileType": {"value": "public.jpeg"}
        }}"#),
        js(r#"{"fields": {}}"#),
    );
    assert!(
        asset.versions().is_empty(),
        "empty checksum must not create a downloadable version"
    );
}

#[test]
fn test_from_records_extracts_fields() {
    let master = Record {
        record_name: "MASTER_1".to_string(),
        record_type: "CPLMaster".to_string(),
        fields: js(r#"{
            "filenameEnc": {"value": "vacation.jpg", "type": "STRING"},
            "itemType": {"value": "public.jpeg"},
            "resOriginalRes": {"value": {"size": 5000, "downloadURL": "https://p01.icloud-content.com/dl", "fileChecksum": "ck1"}},
            "resOriginalFileType": {"value": "public.jpeg"}
        }"#),
        deleted: None,
    };
    let asset_rec = Record {
        record_name: "ASSET_1".to_string(),
        record_type: "CPLAsset".to_string(),
        fields: js(r#"{
            "assetDate": {"value": 1736899200000.0},
            "addedDate": {"value": 1736899200000.0}
        }"#),
        deleted: None,
    };

    let asset = PhotoAsset::from_records(&master, &asset_rec);
    assert_eq!(asset.id(), "MASTER_1");
    assert_eq!(asset.filename(), Some("vacation.jpg"));
    assert_eq!(asset.item_type(), Some(AssetItemType::Image));
    assert_eq!(
        day(asset.asset_date()),
        "2025-01-15"
    );
    assert!(asset.contains_version(AssetVersionSize::Original));
}

#[test]
fn test_versions_prefers_asset_record_over_master() {
    let asset = make_asset(
        js(r#"{"fields": {
            "itemType": {"value": "public.jpeg"},
            "resOriginalRes": {"value": {
                "size": 1000,
                "downloadURL": "https://p01.icloud-content.com/master-orig",
                "fileChecksum": "master_ck"
            }},
            "resOriginalFileType": {"value": "public.jpeg"}
        }}"#),
        js(r#"{"fields": {
            "resOriginalRes": {"value": {
                "size": 2000,
                "downloadURL": "https://p01.icloud-content.com/asset-adjusted",
                "fileChecksum": "asset_ck"
            }},
            "resOriginalFileType": {"value": "public.jpeg"}
        }}"#),
    );
    let orig = asset.get_version(AssetVersionSize::Original).unwrap();
    assert_eq!(&*orig.url, "https://p01.icloud-content.com/asset-adjusted");
    assert_eq!(orig.size, 2000);
}

#[test]
fn test_versions_video_uses_video_lookup() {
    let asset = make_asset(
        js(r#"{"fields": {
            "itemType": {"value": "com.apple.quicktime-movie"},
            "resOriginalRes": {"value": {
                "size": 50000,
                "downloadURL": "https://p01.icloud-content.com/video",
                "fileChecksum": "vid_ck"
            }},
            "resOriginalFileType": {"value": "com.apple.quicktime-movie"},
            "resVidMedRes": {"value": {
                "size": 10000,
                "downloadURL": "https://p01.icloud-content.com/vid_med",
                "fileChecksum": "vid_med_ck"
            }},
            "resVidMedFileType": {"value": "com.apple.quicktime-movie"}
        }}"#),
        js(r#"{"fields": {}}"#),
    );
    assert!(asset.contains_version(AssetVersionSize::Original));
    assert!(asset.contains_version(AssetVersionSize::Medium));
    let medium = asset.get_version(AssetVersionSize::Medium).unwrap();
    assert_eq!(&*medium.url, "https://p01.icloud-content.com/vid_med");
}

#[test]
fn test_versions_multiple_photo_sizes() {
    let asset = make_asset(
        js(r#"{"fields": {
            "itemType": {"value": "public.jpeg"},
            "resOriginalRes": {"value": {
                "size": 5000,
                "downloadURL": "https://p01.icloud-content.com/orig",
                "fileChecksum": "ck_orig"
            }},
            "resOriginalFileType": {"value": "public.jpeg"},
            "resJPEGThumbRes": {"value": {
                "size": 100,
                "downloadURL": "https://p01.icloud-content.com/thumb",
                "fileChecksum": "ck_thumb"
            }},
            "resJPEGThumbFileType": {"value": "public.jpeg"}
        }}"#),
        js(r#"{"fields": {}}"#),
    );
    assert_eq!(asset.versions().len(), 2);
    assert_eq!(
        asset.get_version(AssetVersionSize::Original).unwrap().size,
        5000
    );
    assert_eq!(
        asset.get_version(AssetVersionSize::Thumb).unwrap().size,
        100
    );
}

#[test]
fn test_from_records_missing_optional_fields() {
    let master = Record {
        record_name: "M2".to_string(),
        record_type: "CPLMaster".to_string(),
        fields: js(r#"{}"#),
        deleted: None,
    };
    let asset_rec = Record {
        record_name: "A2".to_string(),
        record_type: "CPLAsset".to_string(),
        fields: js(r#"{}"#),
        deleted: None,
    };

    let asset = PhotoAsset::from_records(&master, &asset_rec);
    assert_eq!(asset.id(), "M2");
    assert_eq!(asset.filename(), None);
}

#[test]
fn test_get_version_and_contains_version() {
    let asset = make_asset(
        js(r#"{"fields": {
            "itemType": {"value": "public.jpeg"},
            "resOriginalRes": {"value": {
                "size": 1000,
                "downloadURL": "https://p01.icloud-content.com/orig",
                "fileChecksum": "abc123"
            }},
            "resOriginalFileType": {"value": "public.jpeg"}
        }}"#),
        js(r#"{"fields": {}}"#),
    );
    assert!(asset.contains_version(AssetVersionSize::Original));
    assert!(!asset.contains_version(AssetVersionSize::Medium));
    assert!(asset.get_version(AssetVersionSize::Original).is_some());
    assert!(asset.get_version(AssetVersionSize::Medium).is_none());
}

#[test]
fn test_struct_sizes() {
    assert!(
        size_of::<AssetVersion>() <= 64,
        "AssetVersion size {} exceeds 64 bytes",
        size_of::<AssetVersion>()
    );
    assert!(
        size_of::<PhotoAsset>() <= 400,
        "PhotoAsset size {} exceeds 400 bytes",
        size_of::<PhotoAsset>()
    );
    assert_eq!(size_of::<AssetVersionSize>(), 1);
}

fn make_record(record_type: &str, fields: Json, deleted: Option<bool>) -> Record {
    Record {
        record_name: "test-record".to_string(),
        record_type: record_type.to_string(),
        fields,
        deleted,
    }
}

#[test]
fn test_classify_hard_deleted() {
    let record = make_record("", js(r#"{}"#), Some(true));
    assert_eq!(classify_change_reason(&record), ChangeReason::HardDeleted);
}

#[test]
fn test_classify_soft_deleted() {
    let record = make_record("CPLAsset", js(r#"{"isDeleted": {"value": 1}}"#), Some(false));
    assert_eq!(classify_change_reason(&record), ChangeReason::SoftDeleted);
}

#[test]
fn test_classify_hidden() {
    let record = make_record("CPLAsset", js(r#"{"isHidden": {"value": 1}}"#), Some(false));
    assert_eq!(classify_change_reason(&record), ChangeReason::Hidden);
}

#[test]
fn test_classify_normal_record() {
    let record = make_record("CPLAsset", js(r#"{}"#), Some(false));
    assert_eq!(classify_change_reason(&record), ChangeReason::Created);
}

#[test]
fn test_classify_is_deleted_null_value() {
    let record = make_record(
        "CPLAsset",
        js(r#"{"isDeleted": {"value": null}}"#),
        Some(false),
    );
    assert_eq!(classify_change_reason(&record), ChangeReason::Created);
}

#[test]
fn test_classify_is_deleted_zero() {
    let record = make_record("CPLAsset", js(r#"{"isDeleted": {"value": 0}}"#), Some(false));
    assert_eq!(classify_change_reason(&record), ChangeReason::Created);
}

#[test]
fn test_classify_is_hidden_zero() {
    let record = make_record("CPLAsset", js(r#"{"isHidden": {"value": 0}}"#), Some(false));
    assert_eq!(classify_change_reason(&record), ChangeReason::Created);
}

#[test]
fn test_classify_deleted_none() {
    let record = make_record("CPLMaster", js(r#"{}"#), None);
    assert_eq!(classify_change_reason(&record), ChangeReason::Created);
}

#[test]
fn test_classify_soft_deleted_takes_priority_over_hidden() {
    let record = make_record(
        "CPLAsset",
        js(r#"{"isDeleted": {"value": 1}, "isHidden": {"value": 1}}"#),
        Some(false),
    );
    assert_eq!(classify_change_reason(&record), ChangeReason::SoftDeleted);
}

#[test]
fn test_extract_master_ref_valid() {
    let fields = js(r#"{
        "masterRef": {
            "value": {
                "recordName": "MASTER_ABC",
                "zoneID": {"zoneName": "PrimarySync"}
            }
        }
    }"#);
    assert_eq!(extract_master_ref(&fields), Some("MASTER_ABC".to_string()));
}

#[test]
fn test_extract_master_ref_missing() {
    let fields = js(r#"{}"#);
    assert_eq!(extract_master_ref(&fields), None);
}

#[test]
fn test_extract_master_ref_malformed_no_value() {
    let fields = js(r#"{"masterRef": {}}"#);
    assert_eq!(extract_master_ref(&fields), None);
}

#[test]
fn test_extract_master_ref_malformed_no_record_name() {
    let fields = js(r#"{"masterRef": {"value": {"zoneID": "PrimarySync"}}}"#);
    assert_eq!(extract_master_ref(&fields), None);
}

#[test]
fn test_extract_master_ref_record_name_not_string() {
    let fields = js(r#"{"masterRef": {"value": {"recordName": 12345}}}"#);
    assert_eq!(extract_master_ref(&fields), None);
}

fn make_master_record(name: &str) -> Record {
    Record {
        record_name: name.to_string(),
        record_type: "CPLMaster".to_string(),
        fields: js(r#"{
            "filenameEnc": {"value": "photo.jpg", "type": "STRING"},
            "itemType": {"value": "public.jpeg"}
        }"#),
        deleted: None,
    }
}

fn make_asset_record(name: &str, master_ref: &str) -> Record {
    Record {
        record_name: name.to_string(),
        record_type: "CPLAsset".to_string(),
        fields: js(&format!(r#"{{
            "masterRef": {{
                "value": {{
                    "recordName": {},
                    "zoneID": {{"zoneName": "PrimarySync"}}
                }}
            }},
            "assetDate": {{"value": 1736899200000.0}},
            "addedDate": {{"value": 1736899200000.0}}
        }}"#, lit(&master_ref))),
        deleted: None,
    }
}

#[test]
fn test_buffer_master_then_asset_pairs() {
    let mut buffer = DeltaRecordBuffer::new();

    let events = buffer.process_records(vec![make_master_record("M1")]);
    assert!(events.is_empty(), "master alone should not emit an event");

    let events = buffer.process_records(vec![make_asset_record("A1", "M1")]);
    assert_eq!(events.len(), 1);
    assert_eq!(&*events[0].record_name, "M1");
    assert_eq!(events[0].record_type.as_deref(), Some("CPLMaster"));
    assert_eq!(events[0].reason, ChangeReason::Created);
    assert!(events[0].asset.is_some());
    assert_eq!(events[0].asset.as_ref().unwrap().id(), "M1");
}

#[test]
fn test_buffer_asset_then_master_pairs() {
    let mut buffer = DeltaRecordBuffer::new();

    let events = buffer.process_records(vec![make_asset_record("A1", "M1")]);
    assert!(events.is_empty(), "asset alone should not emit an event");

    let events = buffer.process_records(vec![make_master_record("M1")]);
    assert_eq!(events.len(), 1);
    assert_eq!(&*events[0].record_name, "M1");
    assert!(events[0].asset.is_some());
}

#[test]
fn test_buffer_same_page_pairing() {
    let mut buffer = DeltaRecordBuffer::new();

    let events = buffer.process_records(vec![
        make_master_record("M1"),
        make_asset_record("A1", "M1"),
    ]);
    assert_eq!(events.len(), 1);
    assert_eq!(&*events[0].record_name, "M1");
    assert!(events[0].asset.is_some());
}

#[test]
fn test_buffer_same_page_asset_before_master() {
    let mut buffer = DeltaRecordBuffer::new();

    let events = buffer.process_records(vec![
        make_asset_record("A1", "M1"),
        make_master_record("M1"),
    ]);
    assert_eq!(events.len(), 1);
    assert_eq!(&*events[0].record_name, "M1");
    assert!(events[0].asset.is_some());
}

#[test]
fn test_buffer_hard_delete_emitted_immediately() {
    let mut buffer = DeltaRecordBuffer::new();

    let hard_deleted = Record {
        record_name: "DELETED_1".to_string(),
        record_type: String::new(),
        fields: js(r#"{}"#),
        deleted: Some(true),
    };

    let events = buffer.process_records(vec![hard_deleted]);
    assert_eq!(events.len(), 1);
    assert_eq!(&*events[0].record_name, "DELETED_1");
    assert_eq!(events[0].record_type, None);
    assert_eq!(events[0].reason, ChangeReason::HardDeleted);
    assert!(events[0].asset.is_none());
}

#[test]
fn test_buffer_emits_photo_album_and_relation_records() {
    let mut buffer = DeltaRecordBuffer::new();

    let album_record = Record {
        record_name: "ALBUM_1".to_string(),
        record_type: "CPLAlbum".to_string(),
        fields: js(r#"{"albumName": {"value": "Vacation"}}"#),
        deleted: None,
    };
    let relation_record = Record {
        record_name: "ASSET_1-IN-ALBUM_1".to_string(),
        record_type: "CPLContainerRelation".to_string(),
        fields: js(r#"{
            "containerId": {"value": "ALBUM_1"},
            "itemId": {"value": "ASSET_1"}
        }"#),
        deleted: None,
    };

    let events = buffer.process_records(vec![
        make_master_record("M1"),
        make_asset_record("A1", "M1"),
        album_record,
        relation_record,
    ]);
    assert_eq!(events.len(), 3);
    assert!(events[0].asset.is_some());
    assert_eq!(
        events[1].album,
        Some(AlbumContainerDelta {
            container_id: "ALBUM_1".into(),
            album_name: "Vacation".into(),
            is_deleted: false,
        })
    );
    assert_eq!(
        events[2].relation,
        Some(AlbumRelationDelta {
            container_id: "ALBUM_1".into(),
            asset_record_name: "ASSET_1".into(),
            is_deleted: false,
        })
    );

    let flushed = buffer.flush();
    assert!(flushed.is_empty());
}

#[test]
fn test_buffer_hard_deleted_relation_parses_record_name() {
    let mut buffer = DeltaRecordBuffer::new();
    let relation_delete = Record {
        record_name: "ASSET_1-IN-ALBUM_1".to_string(),
        record_type: "CPLContainerRelation".to_string(),
        fields: js(r#"{}"#),
        deleted: Some(true),
    };

    let events = buffer.process_records(vec![relation_delete]);
    assert_eq!(events.len(), 1);
    assert_eq!(
        events[0].relation,
        Some(AlbumRelationDelta {
            container_id: "ALBUM_1".into(),
            asset_record_name: "ASSET_1".into(),
            is_deleted: true,
        })
    );
    assert_eq!(events[0].token_unsafe_reason, None);
}

#[test]
fn test_buffer_unparsable_hard_deleted_relation_is_token_unsafe() {
    let mut buffer = DeltaRecordBuffer::new();
    let relation_delete = Record {
        record_name: "not-a-relation-name".to_string(),
        record_type: "CPLContainerRelation".to_string(),
        fields: js(r#"{}"#),
        deleted: Some(true),
    };

    let events = buffer.process_records(vec![relation_delete]);
    assert_eq!(events.len(), 1);
    assert_eq!(events[0].relation, None);
    assert_eq!(
        events[0].token_unsafe_reason,
        Some("unparsable_relation_delta")
    );
}

#[test]
fn test_buffer_flush_unpaired_records() {
    let mut buffer = DeltaRecordBuffer::new();

    let events = buffer.process_records(vec![
        make_master_record("M_ORPHAN"),
        make_asset_record("A_ORPHAN", "M_MISSING"),
    ]);
    assert!(events.is_empty());

    let flushed = buffer.flush();
    assert_eq!(flushed.len(), 2);

    let names: Vec<&str> = flushed.iter().map(|e| &*e.record_name).collect();
    assert!(names.contains(&"M_ORPHAN"));
    assert!(names.contains(&"A_ORPHAN"));

    for event in &flushed {
        assert!(event.asset.is_none());
        match &*event.record_name {
            "M_ORPHAN" => {
                assert_eq!(event.record_type.as_deref(), Some("CPLMaster"));
            }
            "A_ORPHAN" => {
                assert_eq!(event.record_type.as_deref(), Some("CPLAsset"));
                assert_eq!(event.master_record_name.as_deref(), Some("M_MISSING"));
            }
            _ => panic!("unexpected record name: {}", event.record_name),
        }
    }
}

#[test]
fn test_buffer_multiple_pairs_across_pages() {
    let mut buffer = DeltaRecordBuffer::new();

    let events =
        buffer.process_records(vec![make_master_record("M1"), make_master_record("M2")]);
    assert!(events.is_empty());

    let events = buffer.process_records(vec![
        make_asset_record("A2", "M2"),
        make_master_record("M3"),
    ]);
    assert_eq!(events.len(), 1);
    assert_eq!(&*events[0].record_name, "M2");

    let events = buffer.process_records(vec![
        make_asset_record("A1", "M1"),
        make_asset_record("A3", "M3"),
    ]);
    assert_eq!(events.len(), 2);
    let names: Vec<&str> = events.iter().map(|e| &*e.record_name).collect();
    assert!(names.contains(&"M1"));
    assert!(names.contains(&"M3"));

    let flushed = buffer.flush();
    assert!(flushed.is_empty());
}

#[test]
fn test_buffer_asset_without_master_ref() {
    let mut buffer = DeltaRecordBuffer::new();

    let asset_no_ref = Record {
        record_name: "A_NO_REF".to_string(),
        record_type: "CPLAsset".to_string(),
        fields: js(r#"{"assetDate": {"value": 1736899200000.0}}"#),
        deleted: None,
    };

    let events = buffer.process_records(vec![asset_no_ref]);
    assert_eq!(events.len(), 1);
    assert_eq!(&*events[0].record_name, "A_NO_REF");
    assert_eq!(events[0].record_type.as_deref(), Some("CPLAsset"));
    assert_eq!(events[0].master_record_name, None);
    assert!(events[0].asset.is_none());
}

#[test]
fn test_buffer_soft_deleted_asset_emitted_with_reason() {
    let mut buffer = DeltaRecordBuffer::new();

    let soft_deleted_master = Record {
        record_name: "M_SD".to_string(),
        record_type: "CPLMaster".to_string(),
        fields: js(r#"{"isDeleted": {"value": 1}}"#),
        deleted: Some(false),
    };

    let events = buffer.process_records(vec![soft_deleted_master]);
    assert!(events.is_empty()); // buffered, waiting for asset

    let flushed = buffer.flush();
    assert_eq!(flushed.len(), 1);
    assert_eq!(flushed[0].reason, ChangeReason::SoftDeleted);
}

#[test]
fn test_buffer_new_returns_empty() {
    let buffer = DeltaRecordBuffer::new();
    assert!(
        format!("{:?}", buffer).contains("DeltaRecordBuffer"),
        "should implement Debug"
    );
}

#[test]
fn test_buffer_default_returns_empty() {
    let buffer = DeltaRecordBuffer::default();
    let mut buffer = buffer;
    let flushed = buffer.flush();
    assert!(flushed.is_empty());
}

#[test]
fn test_buffer_multiple_pages_accumulation() {
    let mut buffer = DeltaRecordBuffer::new();

    let events = buffer.process_records(vec![make_master_record("M1")]);
    assert!(events.is_empty(), "page 1 should emit nothing");

    let events = buffer.process_records(vec![
        make_master_record("M2"),
        make_asset_record("A1", "M1"),
    ]);
    assert_eq!(events.len(), 1, "page 2 should pair M1+A1");
    assert_eq!(&*events[0].record_name, "M1");
    assert!(events[0].asset.is_some());

    let events = buffer.process_records(vec![make_asset_record("A2", "M2")]);
    assert_eq!(events.len(), 1, "page 3 should pair M2+A2");
    assert_eq!(&*events[0].record_name, "M2");
    assert!(events[0].asset.is_some());

    let flushed = buffer.flush();
    assert!(flushed.is_empty());
}

#[test]
fn test_buffer_soft_deleted_asset_with_master() {
    let mut buffer = DeltaRecordBuffer::new();

    let master = make_master_record("M_DEL");
    let soft_deleted_asset = Record {
        record_name: "A_DEL".to_string(),
        record_type: "CPLAsset".to_string(),
        fields: js(r#"{
            "isDeleted": {"value": 1},
            "masterRef": {
                "value": {
                    "recordName": "M_DEL",
                    "zoneID": {"zoneName": "PrimarySync"}
                }
            },
            "assetDate": {"value": 1736899200000.0}
        }"#),
        deleted: Some(false),
    };

    let events = buffer.process_records(vec![master, soft_deleted_asset]);
    assert_eq!(events.len(), 1);
    assert_eq!(&*events[0].record_name, "M_DEL");
    assert_eq!(events[0].reason, ChangeReason::SoftDeleted);
    assert!(events[0].asset.is_some());
}

#[test]
fn test_buffer_soft_deleted_master_with_normal_asset_reconciles() {
    let mut buffer = DeltaRecordBuffer::new();

    let soft_deleted_master = Record {
        record_name: "M_SD".to_string(),
        record_type: "CPLMaster".to_string(),
        fields: js(r#"{
            "isDeleted": {"value": 1},
            "filenameEnc": {"value": "deleted.jpg", "type": "STRING"},
            "itemType": {"value": "public.jpeg"}
        }"#),
        deleted: Some(false),
    };
    let normal_asset = make_asset_record("A_SD", "M_SD");

    let events = buffer.process_records(vec![soft_deleted_master, normal_asset]);
    assert_eq!(events.len(), 1);
    assert_eq!(events[0].reason, ChangeReason::SoftDeleted);
    assert!(events[0].asset.is_some());
}

#[test]
fn test_buffer_normal_master_with_soft_deleted_asset_reconciles() {
    let mut buffer = DeltaRecordBuffer::new();

    let normal_master = make_master_record("M_SD2");
    let soft_deleted_asset = Record {
        record_name: "A_SD2".to_string(),
        record_type: "CPLAsset".to_string(),
        fields: js(r#"{
            "isDeleted": {"value": 1},
            "masterRef": {
                "value": {
                    "recordName": "M_SD2",
                    "zoneID": {"zoneName": "PrimarySync"}
                }
            },
            "assetDate": {"value": 1736899200000.0}
        }"#),
        deleted: Some(false),
    };

    let events = buffer.process_records(vec![normal_master, soft_deleted_asset]);
    assert_eq!(events.len(), 1);
    assert_eq!(events[0].reason, ChangeReason::SoftDeleted);
    assert!(events[0].asset.is_some());
}

#[test]
fn test_buffer_cross_page_soft_deleted_master_reconciles() {
    let mut buffer = DeltaRecordBuffer::new();

    let soft_deleted_master = Record {
        record_name: "M_XP".to_string(),
        record_type: "CPLMaster".to_string(),
        fields: js(r#"{
            "isDeleted": {"value": 1},
            "filenameEnc": {"value": "cross_page.jpg", "type": "STRING"},
            "itemType": {"value": "public.jpeg"}
        }"#),
        deleted: Some(false),
    };

    let events1 = buffer.process_records(vec![soft_deleted_master]);
    assert!(events1.is_empty()); // buffered, waiting for asset

    let normal_asset = make_asset_record("A_XP", "M_XP");
    let events2 = buffer.process_records(vec![normal_asset]);
    assert_eq!(events2.len(), 1);
    assert_eq!(events2[0].reason, ChangeReason::SoftDeleted);
    assert!(events2[0].asset.is_some());
}

#[test]
fn test_classify_is_deleted_string_not_integer() {
    let record = make_record(
        "CPLAsset",
        js(r#"{"isDeleted": {"value": "1"}}"#),
        Some(false),
    );
    assert_eq!(classify_change_reason(&record), ChangeReason::Created);
}

#[test]
fn test_buffer_asset_no_master_ref_emits_standalone() {
    let mut buffer = DeltaRecordBuffer::new();

    let asset_no_ref = Record {
        record_name: "A_STANDALONE".to_string(),
        record_type: "CPLAsset".to_string(),
        fields: js(r#"{"assetDate": {"value": 1736899200000.0}}"#),
        deleted: None,
    };

    let events = buffer.process_records(vec![asset_no_ref]);
    assert_eq!(events.len(), 1);
    assert_eq!(&*events[0].record_name, "A_STANDALONE");
    assert_eq!(events[0].record_type.as_deref(), Some("CPLAsset"));
    assert_eq!(events[0].master_record_name, None);
    assert_eq!(events[0].reason, ChangeReason::Created);
    assert!(
        events[0].asset.is_none(),
        "standalone asset should have no PhotoAsset"
    );
}

#[test]
fn photo_asset_null_record_name_is_not_valid_id() {
    let asset = make_asset(js(r#"{"recordName": null}"#), js(r#"{}"#));
    assert_eq!(asset.id(), "");
    assert!(
        !asset.has_valid_id(),
        "null recordName must not be considered downloadable"
    );
}

#[test]
fn decode_filename_invalid_base64_encrypted_bytes_returns_none() {
    let asset = make_asset(
        js(r#"{"fields": {"filenameEnc": {"value": "!!not-valid-base64!!", "type": "ENCRYPTED_BYTES"}}}"#),
        js(r#"{}"#),
    );
    assert_eq!(asset.filename(), None);
}

#[test]
fn decode_filename_invalid_utf8_after_base64_decode_returns_none() {
    let encoded = base64::engine::general_purpose::STANDARD.encode([0xFF, 0xFE, 0x80, 0x81]);
    let asset = make_asset(
        js(&format!(r#"{{"fields": {{"filenameEnc": {{"value": {}, "type": "ENCRYPTED_BYTES"}}}}}}"#, lit(&encoded))),
        js(r#"{}"#),
    );
    assert_eq!(asset.filename(), None);
}

#[test]
fn decode_filename_unsupported_type_returns_none() {
    let asset = make_asset(
        js(r#"{"fields": {"filenameEnc": {"value": "photo.jpg", "type": "BINARY"}}}"#),
        js(r#"{}"#),
    );
    assert_eq!(asset.filename(), None);
}

#[test]
fn resolve_item_type_no_item_type_no_filename_defaults_to_movie() {
    let asset = make_asset(js(r#"{"fields": {}}"#), js(r#"{}"#));
    assert_eq!(asset.item_type(), Some(AssetItemType::Movie));
}

#[test]
fn asset_date_negative_timestamp_pre_epoch() {
    let asset = make_asset(
        js(r#"{}"#),
        js(r#"{"fields": {"assetDate": {"value": -14182980000.0}}}"#),
    );
    let dt = asset.asset_date();
    assert_eq!(day(dt), "1969-07-20");
}

#[test]
fn asset_date_zero_timestamp_returns_epoch() {
    let asset = make_asset(js(r#"{}"#), js(r#"{"fields": {"assetDate": {"value": 0.0}}}"#));
    let dt = asset.asset_date();
    assert_eq!(dt, 0);
}

#[test]
fn asset_date_f64_infinity_falls_back_to_epoch() {
    let asset = make_asset(
        js(r#"{"recordName": "BAD_DATE"}"#),
        js(r#"{"fields": {"assetDate": {"value": null}}}"#),
    );
    let dt = asset.asset_date();
    assert_eq!(
        dt,
        0,
        "out-of-range f64 assetDate must not produce a bogus date; \
         must fall back to epoch so the user sees 1970-01-01, not silent garbage"
    );
}

#[test]
fn asset_date_f64_nan_falls_back_to_epoch() {
    let asset = make_asset(
        js(r#"{"recordName": "NAN_DATE"}"#),
        js(r#"{"fields": {"assetDate": {"value": null}}}"#),
    );
    let dt = asset.asset_date();
    assert_eq!(
        dt,
        0,
        "NaN assetDate must fall back to epoch — (i64::MIN..=i64::MAX).contains(&NaN) is false"
    );
}

#[test]
fn asset_empty_record_name_is_not_valid_id() {
    let asset = make_asset(js(r#"{"recordName": ""}"#), js(r#"{}"#));
    assert_eq!(
        asset.id(),
        "",
        "empty recordName must be reflected as empty id for diagnostics"
    );
    assert!(
        !asset.has_valid_id(),
        "empty recordName must be filtered before path planning"
    );
}

#[test]
fn versions_completely_empty_fields_returns_empty_map() {
    let asset = make_asset(js(r#"{"fields": {}}"#), js(r#"{"fields": {}}"#));
    assert!(asset.versions().is_empty());
}

#[test]
fn photo_asset_very_large_size_values() {
    let large_size: u64 = u64::MAX;
    let asset = make_asset(
        js(&format!(r#"{{"fields": {{
            "itemType": {{"value": "public.jpeg"}},
            "resOriginalRes": {{"value": {{
                "size": {},
                "downloadURL": "https://p01.icloud-content.com/huge",
                "fileChecksum": "ck_huge"
            }}}},
            "resOriginalFileType": {{"value": "public.jpeg"}}
        }}}}"#, lit(&large_size))),
        js(r#"{"fields": {}}"#),
    );
    let orig = asset.get_version(AssetVersionSize::Original).unwrap();
    assert!(orig.size > 0);
    assert_eq!(&*orig.url, "https://p01.icloud-content.com/huge");
}

#[test]
fn from_records_null_master_fields_partial_data() {
    let master = Record {
        record_name: "M_PARTIAL".to_string(),
        record_type: "CPLMaster".to_string(),
        fields: js(r#"{
            "filenameEnc": null,
            "itemType": null,
            "resOriginalRes": null
        }"#),
        deleted: None,
    };
    let asset_rec = Record {
        record_name: "A_PARTIAL".to_string(),
        record_type: "CPLAsset".to_string(),
        fields: js(r#"{
            "assetDate": null,
            "addedDate": null
        }"#),
        deleted: None,
    };

    let asset = PhotoAsset::from_records(&master, &asset_rec);
    assert_eq!(asset.id(), "M_PARTIAL");
    assert_eq!(asset.filename(), None);
    assert!(asset.versions().is_empty());
    assert_eq!(asset.asset_date(), 0);
    assert_eq!(asset.added_date(), 0);
}

#[test]
fn test_unpaired_master_buffered_across_pages() {
    let mut buffer = DeltaRecordBuffer::new();

    let events = buffer.process_records(vec![Record {
        record_name: "M_SPLIT".to_string(),
        record_type: "CPLMaster".to_string(),
        fields: js(r#"{
            "filenameEnc": {"value": "split.jpg", "type": "STRING"},
            "itemType": {"value": "public.jpeg"},
            "resOriginalRes": {"value": {
                "size": 4096,
                "downloadURL": "https://p01.icloud-content.com/split",
                "fileChecksum": "split_ck"
            }},
            "resOriginalFileType": {"value": "public.jpeg"}
        }"#),
        deleted: None,
    }]);
    assert!(
        events.is_empty(),
        "page 1 should buffer the unpaired master"
    );

    let events = buffer.process_records(vec![Record {
        record_name: "A_SPLIT".to_string(),
        record_type: "CPLAsset".to_string(),
        fields: js(r#"{
            "masterRef": {
                "value": {
                    "recordName": "M_SPLIT",
                    "zoneID": {"zoneName": "PrimarySync"}
                }
            },
            "assetDate": {"value": 1736899200000.0},
            "addedDate": {"value": 1736899200000.0}
        }"#),
        deleted: None,
    }]);
    assert_eq!(events.len(), 1, "page 2 should pair M_SPLIT + A_SPLIT");
    assert_eq!(&*events[0].record_name, "M_SPLIT");
    assert_eq!(events[0].reason, ChangeReason::Created);

    let asset = events[0]
        .asset
        .as_ref()
        .expect("paired event should have a PhotoAsset");
    assert_eq!(asset.id(), "M_SPLIT");
    assert_eq!(asset.filename(), Some("split.jpg"));
    assert!(
        asset.contains_version(AssetVersionSize::Original),
        "paired asset should have the Original version from the master"
    );

    let flushed = buffer.flush();
    assert!(flushed.is_empty());
}

#[test]
fn test_is_live_photo_true() {
    let asset = make_asset(
        js(r#"{
            "recordName": "LIVE_1",
            "fields": {
                "filenameEnc": {"value": "IMG_0001.HEIC", "type": "STRING"},
                "itemType": {"value": "public.heic"},
                "resOriginalRes": {"value": {
                    "size": 2000, "downloadURL": "https://p01.icloud-content.com/heic",
                    "fileChecksum": "heic_ck"
                }},
                "resOriginalFileType": {"value": "public.heic"},
                "resOriginalVidComplRes": {"value": {
                    "size": 3000, "downloadURL": "https://p01.icloud-content.com/mov",
                    "fileChecksum": "mov_ck"
                }},
                "resOriginalVidComplFileType": {"value": "com.apple.quicktime-movie"}
            }
        }"#),
        js(r#"{"fields": {"assetDate": {"value": 1736899200000.0}}}"#),
    );
    assert!(asset.is_live_photo());
}

#[test]
fn test_is_live_photo_false_no_companion() {
    let asset = make_asset(
        js(r#"{
            "recordName": "PHOTO_1",
            "fields": {
                "itemType": {"value": "public.jpeg"},
                "resOriginalRes": {"value": {
                    "size": 1000, "downloadURL": "https://p01.icloud-content.com/jpg",
                    "fileChecksum": "jpg_ck"
                }}
            }
        }"#),
        js(r#"{"fields": {"assetDate": {"value": 1736899200000.0}}}"#),
    );
    assert!(!asset.is_live_photo());
}

#[test]
fn test_is_live_photo_false_for_movie() {
    let asset = make_asset(
        js(r#"{
            "recordName": "VID_1",
            "fields": {
                "itemType": {"value": "com.apple.quicktime-movie"},
                "resOriginalRes": {"value": {
                    "size": 5000, "downloadURL": "https://p01.icloud-content.com/mov",
                    "fileChecksum": "vid_ck"
                }},
                "resOriginalVidComplRes": {"value": {
                    "size": 3000, "downloadURL": "https://p01.icloud-content.com/mov2",
                    "fileChecksum": "mov2_ck"
                }}
            }
        }"#),
        js(r#"{"fields": {"assetDate": {"value": 1736899200000.0}}}"#),
    );
    assert!(
        !asset.is_live_photo(),
        "Movies with video companion are not live photos"
    );
}

#[test]
fn test_versions_skips_empty_asset_type() {
    let asset = make_asset(
        js(r#"{"fields": {
            "itemType": {"value": "public.jpeg"},
            "resOriginalRes": {"value": {
                "size": 5000,
                "downloadURL": "https://p01.icloud-content.com/orig",
                "fileChecksum": "ck_orig"
            }}
        }}"#),
        js(r#"{"fields": {}}"#),
    );
    assert!(
        asset.versions().is_empty(),
        "Version with missing asset type should be skipped"
    );
}

#[test]
fn test_versions_skips_null_asset_type() {
    let asset = make_asset(
        js(r#"{"fields": {
            "itemType": {"value": "public.jpeg"},
            "resOriginalRes": {"value": {
                "size": 5000,
                "downloadURL": "https://p01.icloud-content.com/orig",
                "fileChecksum": "ck_orig"
            }},
            "resOriginalFileType": {"value": null}
        }}"#),
        js(r#"{"fields": {}}"#),
    );
    assert!(
        asset.versions().is_empty(),
        "Version with null asset type should be skipped"
    );
}

#[test]
fn extract_versions_empty_fields_produces_empty_map() {
    let asset = make_asset(
        js(r#"{"recordName": "EMPTY_FIELDS", "fields": {}}"#),
        js(r#"{"fields": {}}"#),
    );
    assert!(
        asset.versions().is_empty(),
        "asset with no version fields should have empty versions"
    );
}

#[test]
fn extract_versions_null_res_value_produces_empty_map() {
    let asset = make_asset(
        js(r#"{"fields": {
            "itemType": {"value": "public.jpeg"},
            "resOriginalRes": {"value": null},
            "resOriginalFileType": {"value": "public.jpeg"}
        }}"#),
        js(r#"{"fields": {}}"#),
    );
    assert!(
        asset.versions().is_empty(),
        "null resOriginalRes value should produce empty versions"
    );
    assert_eq!(asset.malformed_resources().len(), 1);
    assert_eq!(
        asset.malformed_resources()[0].field.as_ref(),
        "resOriginalRes"
    );
}

#[test]
fn extract_versions_missing_size_skips_version() {
    let asset = make_asset(
        js(r#"{"fields": {
            "itemType": {"value": "public.jpeg"},
            "resOriginalRes": {"value": {
                "downloadURL": "https://p01.icloud-content.com/orig",
                "fileChecksum": "abc123"
            }},
            "resOriginalFileType": {"value": "public.jpeg"}
        }}"#),
        js(r#"{"fields": {}}"#),
    );
    assert!(
        asset.versions().is_empty(),
        "version with missing size should be skipped"
    );
    assert_eq!(
        asset.malformed_resources()[0].field.as_ref(),
        "resOriginalRes.size"
    );
}

#[test]
fn extract_versions_empty_download_url_is_rejected() {
    let asset = make_asset(
        js(r#"{"fields": {
            "itemType": {"value": "public.jpeg"},
            "resOriginalRes": {"value": {
                "size": 100,
                "downloadURL": "",
                "fileChecksum": "ck_empty_url"
            }},
            "resOriginalFileType": {"value": "public.jpeg"}
        }}"#),
        js(r#"{"fields": {}}"#),
    );
    assert!(
        asset.versions().is_empty(),
        "empty URL should cause the version to be skipped"
    );
}

#[test]
fn extract_versions_non_https_url_is_rejected() {
    let asset = make_asset(
        js(r#"{"fields": {
            "itemType": {"value": "public.jpeg"},
            "resOriginalRes": {"value": {
                "size": 100,
                "downloadURL": "http://p01.icloud-content.com/foo",
                "fileChecksum": "ck_http"
            }},
            "resOriginalFileType": {"value": "public.jpeg"}
        }}"#),
        js(r#"{"fields": {}}"#),
    );
    assert!(
        asset.versions().is_empty(),
        "http URL should cause the version to be skipped"
    );
}

#[test]
fn extract_versions_foreign_host_is_rejected() {
    let asset = make_asset(
        js(r#"{"fields": {
            "itemType": {"value": "public.jpeg"},
            "resOriginalRes": {"value": {
                "size": 100,
                "downloadURL": "https://attacker.example.com/pwned.jpg",
                "fileChecksum": "ck_bad"
            }},
            "resOriginalFileType": {"value": "public.jpeg"}
        }}"#),
        js(r#"{"fields": {}}"#),
    );
    assert!(
        asset.versions().is_empty(),
        "non-Apple host should cause the version to be skipped"
    );
}

#[test]
fn validate_download_url_accepts_allowlisted_hosts() {
    for u in [
        "https://p01.icloud-content.com/path",
        "https://P99.ICLOUD-CONTENT.COM/path",
        "https://cvws.icloud-content.com/B/foo",
        "https://cvws.icloud-content.com.cn/B/foo",
        "https://something.cdn-apple.com/resource",
    ] {
        assert!(validate_download_url(u).is_ok(), "expected ok: {u}");
    }
}

#[test]
fn validate_download_url_rejects_bad_inputs() {
    for u in [
        "",
        "ftp://p01.icloud-content.com/path",
        "http://p01.icloud-content.com/path",
        "https://evil.example.com/x",
        "not-a-url",
        "https://",
    ] {
        assert!(
            validate_download_url(u).is_err(),
            "expected err: {u}"
        );
    }
}

#[test]
fn validate_download_url_rejects_icloud_and_apple_subdomains() {
    for u in [
        "https://www.icloud.com/photos/asset",
        "https://gateway.icloud.com/foo",
        "https://appleid.icloud.com/token",
        "https://www.apple.com/resource",
        "https://configuration.apple.com/cfg",
        "https://developer.apple.com/sdk",
        "https://www.icloud.com.cn/x",
        "https://www.apple.com.cn/x",
    ] {
        assert!(
            validate_download_url(u).is_err(),
            "expected err (not a CDN host): {u}"
        );
    }
}

#[test]
fn extract_versions_partial_valid_versions() {
    let asset = make_asset(
        js(r#"{"fields": {
            "itemType": {"value": "public.jpeg"},
            "resOriginalRes": {"value": {
                "size": 5000,
                "downloadURL": "https://p01.icloud-content.com/orig",
                "fileChecksum": "ck_orig"
            }},
            "resOriginalFileType": {"value": "public.jpeg"},
            "resJPEGThumbRes": {"value": {
                "size": 100,
                "downloadURL": "https://p01.icloud-content.com/thumb"
            }},
            "resJPEGThumbFileType": {"value": "public.jpeg"}
        }}"#),
        js(r#"{"fields": {}}"#),
    );
    assert_eq!(
        asset.versions().len(),
        1,
        "only the valid Original version should be extracted"
    );
    assert!(asset.contains_version(AssetVersionSize::Original));
    assert!(
        !asset.contains_version(AssetVersionSize::Thumb),
        "Thumb with missing checksum should be skipped"
    );
}

#[test]
fn is_live_photo_false_for_video_with_live_version() {
    let asset = make_asset(
        js(r#"{"fields": {
            "itemType": {"value": "com.apple.quicktime-movie"},
            "resOriginalRes": {"value": {
                "size": 50000,
                "downloadURL": "https://p01.icloud-content.com/vid",
                "fileChecksum": "vid_ck"
            }},
            "resOriginalFileType": {"value": "com.apple.quicktime-movie"},
            "resOriginalVidComplRes": {"value": {
                "size": 3000,
                "downloadURL": "https://p01.icloud-content.com/live",
                "fileChecksum": "live_ck"
            }},
            "resOriginalVidComplFileType": {"value": "com.apple.quicktime-movie"}
        }}"#),
        js(r#"{"fields": {}}"#),
    );
    assert!(
        !asset.is_live_photo(),
        "Movie with LiveOriginal should NOT be is_live_photo"
    );
}

#[test]
fn asset_date_missing_returns_epoch() {
    let asset = make_asset(js(r#"{"recordName": "NO_DATE"}"#), js(r#"{"fields": {}}"#));
    let dt = asset.asset_date();
    assert_eq!(dt, 0);
}

#[test]
fn classify_change_reason_soft_deleted() {
    let record = Record {
        record_name: "DEL".to_string(),
        record_type: "CPLMaster".to_string(),
        fields: js(r#"{"isDeleted": {"value": 1}}"#),
        deleted: None,
    };
    assert_eq!(classify_change_reason(&record), ChangeReason::SoftDeleted);
}

#[test]
fn classify_change_reason_hidden() {
    let record = Record {
        record_name: "HID".to_string(),
        record_type: "CPLMaster".to_string(),
        fields: js(r#"{"isHidden": {"value": 1}}"#),
        deleted: None,
    };
    assert_eq!(classify_change_reason(&record), ChangeReason::Hidden);
}

#[test]
fn classify_change_reason_hard_deleted_overrides_fields() {
    let record = Record {
        record_name: "HARD".to_string(),
        record_type: "CPLMaster".to_string(),
        fields: js(r#"{"isDeleted": {"value": 0}, "isHidden": {"value": 0}}"#),
        deleted: Some(true),
    };
    assert_eq!(classify_change_reason(&record), ChangeReason::HardDeleted);
}

#[test]
fn classify_change_reason_default_is_created() {
    let record = Record {
        record_name: "NEW".to_string(),
        record_type: "CPLMaster".to_string(),
        fields: js(r#"{}"#),
        deleted: None,
    };
    assert_eq!(classify_change_reason(&record), ChangeReason::Created);
}

#[test]
fn assets_of_one_master_wait_together() {
    let mut buffer = DeltaRecordBuffer::new();
    let events = buffer
        .process_records(vec![make_asset_record("A1", "M"), make_asset_record("A2", "M")]);
    assert!(events.is_empty());

    let mut flushed = buffer.flush();
    flushed.sort_by(|a, b| a.record_name.cmp(&b.record_name));
    let names: Vec<&str> = flushed.iter().map(|event| &*event.record_name).collect();
    assert_eq!(names, vec!["A1", "A2"]);
    for event in &flushed {
        assert_eq!(event.record_type.as_deref(), Some("CPLAsset"));
        assert_eq!(event.master_record_name.as_deref(), Some("M"));
        assert_eq!(event.reason, ChangeReason::Created);
        assert!(event.asset.is_none());
    }
    assert!(buffer.flush().is_empty());
}

#[test]
fn a_master_pairs_with_every_asset_that_waited_for_it() {
    let mut buffer = DeltaRecordBuffer::new();
    let events = buffer.process_records(vec![
        make_asset_record("A1", "M"),
        make_asset_record("B1", "N"),
        make_asset_record("A2", "M"),
        make_master_record("M"),
    ]);
    let names: Vec<&str> = events
        .iter()
        .map(|event| event.asset.as_ref().unwrap().asset_record_name())
        .collect();
    assert_eq!(names, vec!["A1", "A2"]);
    assert!(events.iter().all(|event| &*event.record_name == "M"));

    let flushed = buffer.flush();
    assert_eq!(flushed.len(), 1);
    assert_eq!(&*flushed[0].record_name, "B1");
}

#[test]
fn an_album_event_takes_the_name_that_its_title_is_given() {
    let mut buffer = DeltaRecordBuffer::new();
    let album = Record {
        record_name: "ALBUM_1".to_string(),
        record_type: "CPLAlbum".to_string(),
        fields: js(r#"{"albumName": {"value": "Rome/Paris"}}"#),
        deleted: None,
    };
    let mut events = buffer.process_records(vec![album, make_asset_record("A1", "M")]);
    let event = events.remove(0);
    assert_eq!(&*event.album.as_ref().unwrap().album_name, "Rome/Paris");
    let event = event.with_album_name("Rome_Paris");
    assert_eq!(
        event.album,
        Some(AlbumContainerDelta {
            container_id: "ALBUM_1".into(),
            album_name: "Rome_Paris".into(),
            is_deleted: false,
        })
    );
    let lone = buffer.flush().remove(0).with_album_name("Rome_Paris");
    assert!(lone.album.is_none());
    assert_eq!(&*lone.record_name, "A1");
}

#[test]
fn an_asset_carries_the_hash_of_its_metadata() {
    let asset = PhotoAsset::from_records(&make_master_record("M"), &make_asset_record("A", "M"));
    let hashed = asset.with_metadata_hash("c0ffee");
    assert_eq!(hashed.metadata().metadata_hash.as_deref(), Some("c0ffee"));
    assert_eq!(hashed.asset_record_name(), "A");
}
