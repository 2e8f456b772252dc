//! Request bodies, parameters and tables of the queries.
use kei::json::{Json, JsonNumber};
use kei::queries::{
    build_changes_database_request, build_changes_zone_request, desired_keys_values,
    encode_params, item_type_from_str, ParamValue, DESIRED_KEYS, PHOTO_VERSION_LOOKUP,
    VIDEO_VERSION_LOOKUP,
};
use kei::types::{AssetItemType, AssetVersionSize};

/// A parsed JSON text as the library's value.
fn json_of(value: &serde_json::Value) -> Json {
    match value {
        serde_json::Value::Null => Json::Null,
        serde_json::Value::Bool(b) => Json::Bool(*b),
        serde_json::Value::Number(n) => Json::Number(if let Some(n) = n.as_u64() {
            JsonNumber::Unsigned(n)
        } else if let Some(n) = n.as_i64() {
            JsonNumber::Negative(n)
        } else {
            JsonNumber::Float(n.as_f64().unwrap().to_bits())
        }),
        serde_json::Value::String(s) => Json::Text(s.clone()),
        serde_json::Value::Array(items) => Json::List(items.iter().map(json_of).collect()),
        serde_json::Value::Object(members) => {
            Json::Object(members.iter().map(|(name, value)| (name.clone(), json_of(value))).collect())
        }
    }
}

/// The JSON value that a text denotes.
fn js(text: &str) -> Json {
    json_of(&serde_json::from_str(text).unwrap())
}

/// The library's value as a parsed JSON text.
fn value_of(json: &Json) -> serde_json::Value {
    match json {
        Json::Null => serde_json::Value::Null,
        Json::Bool(b) => serde_json::Value::from(*b),
        Json::Number(JsonNumber::Unsigned(n)) => serde_json::Value::from(*n),
        Json::Number(JsonNumber::Negative(n)) => serde_json::Value::from(*n),
        Json::Number(JsonNumber::Float(bits)) => serde_json::Value::from(f64::from_bits(*bits)),
        Json::Text(s) => serde_json::Value::from(s.as_str()),
        Json::List(items) => serde_json::Value::Array(items.iter().map(value_of).collect()),
        Json::Object(members) => serde_json::Value::Object(
            members.iter().map(|(name, value)| (name.clone(), value_of(value))).collect(),
        ),
    }
}

#[test]
fn test_item_type_from_str_images() {
    assert_eq!(
        item_type_from_str("public.jpeg"),
        Some(AssetItemType::Image)
    );
    assert_eq!(
        item_type_from_str("public.heic"),
        Some(AssetItemType::Image)
    );
    assert_eq!(item_type_from_str("public.png"), Some(AssetItemType::Image));
    assert_eq!(
        item_type_from_str("com.canon.cr2-raw-image"),
        Some(AssetItemType::Image)
    );
}

#[test]
fn test_item_type_from_str_webp() {
    assert_eq!(
        item_type_from_str("org.webmproject.webp"),
        Some(AssetItemType::Image)
    );
}

#[test]
fn test_item_type_from_str_movie() {
    assert_eq!(
        item_type_from_str("com.apple.quicktime-movie"),
        Some(AssetItemType::Movie)
    );
}

#[test]
fn test_item_type_from_str_unknown() {
    assert_eq!(item_type_from_str("unknown/type"), None);
    assert_eq!(item_type_from_str(""), None);
}

#[test]
fn test_encode_params_basic() {
    let mut params = Vec::new();
    params.push(("key".to_string(), ParamValue::Text("value".to_string())));
    let encoded = encode_params(&params);
    assert_eq!(encoded, "key=value");
}

#[test]
fn test_encode_params_special_chars() {
    let mut params = Vec::new();
    params.push(("q".to_string(), ParamValue::Text("hello world".to_string())));
    let encoded = encode_params(&params);
    assert_eq!(encoded, "q=hello+world");
}

#[test]
fn test_encode_params_bool() {
    let mut params = Vec::new();
    params.push(("flag".to_string(), ParamValue::Flag(true)));
    let encoded = encode_params(&params);
    assert_eq!(encoded, "flag=true");
}

#[test]
fn test_desired_keys_not_empty() {
    assert!(!DESIRED_KEYS.is_empty());
    assert!(DESIRED_KEYS.contains(&"recordName"));
    assert!(DESIRED_KEYS.contains(&"filenameEnc"));
}

#[test]
fn test_desired_keys_values_matches_keys() {
    let values = desired_keys_values();
    assert!(!values.is_empty(), "DESIRED_KEYS_VALUES must not be empty");
    assert_eq!(values.len(), DESIRED_KEYS.len());
    for (key, val) in DESIRED_KEYS.iter().zip(values.iter()) {
        assert_eq!(val.as_str().unwrap(), *key);
    }
}

#[test]
fn test_encode_params_number() {
    let mut params = Vec::new();
    params.push(("count".to_string(), ParamValue::Unsigned(42)));
    let encoded = encode_params(&params);
    assert_eq!(encoded, "count=42");
}

#[test]
fn test_encode_params_multiple_sorted() {
    let mut params = Vec::new();
    params.push(("z".to_string(), ParamValue::Text("last".to_string())));
    params.push(("a".to_string(), ParamValue::Text("first".to_string())));
    let encoded = encode_params(&params);
    assert_eq!(encoded, "a=first&z=last");
}

#[test]
fn test_encode_params_empty() {
    let params = Vec::new();
    let encoded = encode_params(&params);
    assert_eq!(encoded, "");
}

#[test]
fn test_item_type_all_raw_images() {
    let raw_types = [
        "com.adobe.raw-image",
        "com.canon.cr2-raw-image",
        "com.canon.crw-raw-image",
        "com.sony.arw-raw-image",
        "com.fuji.raw-image",
        "com.panasonic.rw2-raw-image",
        "com.nikon.nrw-raw-image",
        "com.pentax.raw-image",
        "com.nikon.raw-image",
        "com.olympus.raw-image",
        "com.canon.cr3-raw-image",
        "com.olympus.or-raw-image",
    ];
    for raw in raw_types {
        assert_eq!(
            item_type_from_str(raw),
            Some(AssetItemType::Image),
            "{raw} should be Image"
        );
    }
}

#[test]
fn test_photo_version_lookup_contains_all_sizes() {
    let sizes: Vec<AssetVersionSize> = PHOTO_VERSION_LOOKUP.iter().map(|(s, ..)| *s).collect();
    assert!(sizes.contains(&AssetVersionSize::Original));
    assert!(sizes.contains(&AssetVersionSize::Alternative));
    assert!(sizes.contains(&AssetVersionSize::Medium));
    assert!(sizes.contains(&AssetVersionSize::Thumb));
    assert!(sizes.contains(&AssetVersionSize::Adjusted));
    assert!(sizes.contains(&AssetVersionSize::LiveAdjusted));
    assert!(sizes.contains(&AssetVersionSize::LiveOriginal));
    assert!(sizes.contains(&AssetVersionSize::LiveMedium));
    assert!(sizes.contains(&AssetVersionSize::LiveThumb));
}

#[test]
fn test_video_version_lookup_has_expected_sizes() {
    let sizes: Vec<AssetVersionSize> = VIDEO_VERSION_LOOKUP.iter().map(|(s, ..)| *s).collect();
    assert!(sizes.contains(&AssetVersionSize::Original));
    assert!(sizes.contains(&AssetVersionSize::Adjusted));
    assert!(sizes.contains(&AssetVersionSize::Medium));
    assert!(sizes.contains(&AssetVersionSize::Thumb));
}

#[test]
fn test_desired_keys_contains_critical_fields() {
    let critical = [
        "resOriginalRes",
        "resOriginalFingerprint",
        "resOriginalFileType",
        "itemType",
        "filenameEnc",
        "assetDate",
        "addedDate",
        "isDeleted",
    ];
    for field in critical {
        assert!(
            DESIRED_KEYS.contains(&field),
            "Missing critical field: {field}"
        );
    }
}

#[test]
fn test_build_changes_database_request_none() {
    let body = value_of(&build_changes_database_request(None));
    assert_eq!(body, value_of(&js(r#"{}"#)));
}

#[test]
fn test_build_changes_database_request_some() {
    let body = value_of(&build_changes_database_request(Some("token123")));
    assert_eq!(body, value_of(&js(r#"{"syncToken": "token123"}"#)));
}

#[test]
fn test_build_changes_zone_request_without_token() {
    let zone_id = js(r#"{"zoneName": "PrimarySync", "zoneType": "DEFAULT_ZONE"}"#);
    let body = value_of(&build_changes_zone_request(&zone_id, None, 200));
    let zones = body["zones"].as_array().unwrap();
    assert_eq!(zones.len(), 1);
    let entry = &zones[0];
    assert_eq!(entry["zoneID"], value_of(&zone_id));
    assert_eq!(entry["resultsLimit"], 200);
    assert!(entry.get("syncToken").is_none());
}

#[test]
fn test_build_changes_zone_request_with_token() {
    let zone_id = js(r#"{"zoneName": "PrimarySync"}"#);
    let body = value_of(&build_changes_zone_request(&zone_id, Some("tok_abc"), 200));
    let zones = body["zones"].as_array().unwrap();
    assert_eq!(zones.len(), 1);
    let entry = &zones[0];
    assert_eq!(entry["zoneID"], value_of(&zone_id));
    assert_eq!(entry["resultsLimit"], 200);
    assert_eq!(entry["syncToken"], "tok_abc");
}

#[test]
fn test_build_changes_zone_request_custom_limit() {
    let zone_id = js(r#"{"zoneName": "SharedSync-123"}"#);
    let body = value_of(&build_changes_zone_request(&zone_id, None, 50));
    let entry = &body["zones"][0];
    assert_eq!(entry["resultsLimit"], 50);
}
