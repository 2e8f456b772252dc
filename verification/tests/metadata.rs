//! What is read of an asset beside its files.
use base64::Engine;
use kei::json::{Json, JsonNumber};
use kei::metadata::extract;
use plist::Value as PlistValue;

/// A parsed JSON text as the library's value.
fn json_of(value: &serde_json::Value) -> Json {
    match value {
        serde_json::Value::Null => Json::Null,
        serde_json::Value::Bool(b) => Json::Bool(*b),
        serde_json::Value::Number(n) => Json::Number(if let Some(n) = n.as_u64() {
            JsonNumber::Unsigned(n)
        } else if let Some(n) = n.as_i64() {
            JsonNumber::Negative(n)
        } else {
            JsonNumber::Float(n.as_f64().unwrap().to_bits())
        }),
        serde_json::Value::String(s) => Json::Text(s.clone()),
        serde_json::Value::Array(items) => Json::List(items.iter().map(json_of).collect()),
        serde_json::Value::Object(members) => {
            Json::Object(members.iter().map(|(name, value)| (name.clone(), json_of(value))).collect())
        }
    }
}

/// The JSON value that a text denotes.
fn js(text: &str) -> Json {
    json_of(&serde_json::from_str(text).unwrap())
}

/// The library's value as a parsed JSON text.
fn value_of(json: &Json) -> serde_json::Value {
    match json {
        Json::Null => serde_json::Value::Null,
        Json::Bool(b) => serde_json::Value::from(*b),
        Json::Number(JsonNumber::Unsigned(n)) => serde_json::Value::from(*n),
        Json::Number(JsonNumber::Negative(n)) => serde_json::Value::from(*n),
        Json::Number(JsonNumber::Float(bits)) => serde_json::Value::from(f64::from_bits(*bits)),
        Json::Text(s) => serde_json::Value::from(s.as_str()),
        Json::List(items) => serde_json::Value::Array(items.iter().map(value_of).collect()),
        Json::Object(members) => serde_json::Value::Object(
            members.iter().map(|(name, value)| (name.clone(), value_of(value))).collect(),
        ),
    }
}

/// A value as it stands in a JSON text.
fn lit<T: serde::Serialize + ?Sized>(value: &T) -> String {
    serde_json::to_string(value).unwrap()
}

/// A number as a double.
fn double(n: JsonNumber) -> f64 {
    match n {
        JsonNumber::Unsigned(n) => n as f64,
        JsonNumber::Negative(n) => n as f64,
        JsonNumber::Float(bits) => f64::from_bits(bits),
    }
}

fn b64(bytes: &[u8]) -> String {
    base64::engine::general_purpose::STANDARD.encode(bytes)
}

fn bplist(value: PlistValue) -> Vec<u8> {
    let mut out = Vec::new();
    plist::to_writer_binary(&mut out, &value).unwrap();
    out
}

#[test]
fn extract_sets_source_icloud() {
    let m = extract(&js(r#"{}"#), &js(r#"{}"#));
    assert_eq!(m.source.as_deref(), Some("icloud"));
}

#[test]
fn extract_maps_favorite_to_rating_5() {
    let m = extract(&js(r#"{}"#), &js(r#"{"isFavorite": {"value": 1}}"#));
    assert!(m.is_favorite);
    assert_eq!(m.rating, Some(5));
}

#[test]
fn extract_not_favorite_leaves_rating_none() {
    let m = extract(&js(r#"{}"#), &js(r#"{"isFavorite": {"value": 0}}"#));
    assert!(!m.is_favorite);
    assert_eq!(m.rating, None);
}

#[test]
fn extract_hidden_and_deleted_flags() {
    let m = extract(
        &js(r#"{}"#),
        &js(r#"{
            "isHidden": {"value": 1},
            "isDeleted": {"value": 1},
            "dateExpunged": {"value": 1700000000000.0}
        }"#),
    );
    assert!(m.is_hidden);
    assert!(m.is_deleted);
    assert!(m.deleted_at.is_some());
}

#[test]
fn extract_is_expunged_sets_is_deleted() {
    let m = extract(&js(r#"{}"#), &js(r#"{"isExpunged": {"value": 1}}"#));
    assert!(m.is_deleted);
}

#[test]
fn extract_location_from_plist() {
    let mut dict = plist::Dictionary::new();
    dict.insert("lat".into(), PlistValue::Real(10.0));
    dict.insert("lng".into(), PlistValue::Real(-20.0));
    dict.insert("alt".into(), PlistValue::Real(5.0));
    let bp = bplist(PlistValue::Dictionary(dict));
    let m = extract(
        &js(r#"{}"#),
        &js(&format!(r#"{{"locationEnc": {{"value": {}, "type": "ENCRYPTED_BYTES"}}}}"#, lit(&b64(&bp)))),
    );
    assert_eq!(m.latitude.map(double), Some(10.0));
    assert_eq!(m.longitude.map(double), Some(-20.0));
    assert_eq!(m.altitude.map(double), Some(5.0));
}

#[test]
fn extract_location_from_plain_fallback() {
    let m = extract(
        &js(r#"{}"#),
        &js(r#"{
            "locationLatitude": {"value": 1.0},
            "locationLongitude": {"value": 2.0}
        }"#),
    );
    assert_eq!(m.latitude.map(double), Some(1.0));
    assert_eq!(m.longitude.map(double), Some(2.0));
    assert_eq!(m.altitude, None);
}

#[test]
fn extract_caption_and_description() {
    let m = extract(
        &js(r#"{}"#),
        &js(r#"{
            "captionEnc": {"value": "title", "type": "STRING"},
            "extendedDescEnc": {"value": "longer", "type": "STRING"}
        }"#),
    );
    assert_eq!(m.title.as_deref(), Some("title"));
    assert_eq!(m.description.as_deref(), Some("longer"));
}

#[test]
fn extract_keywords_serializes_as_json_array() {
    let bp = bplist(PlistValue::Array(vec![
        PlistValue::String("a".into()),
        PlistValue::String("b".into()),
    ]));
    let m = extract(
        &js(r#"{}"#),
        &js(&format!(r#"{{"keywordsEnc": {{"value": {}, "type": "ENCRYPTED_BYTES"}}}}"#, lit(&b64(&bp)))),
    );
    assert_eq!(m.keywords.as_deref(), Some(r#"["a","b"]"#));
}

#[test]
fn extract_keywords_empty_stays_none() {
    let bp = bplist(PlistValue::Array(vec![]));
    let m = extract(
        &js(r#"{}"#),
        &js(&format!(r#"{{"keywordsEnc": {{"value": {}, "type": "ENCRYPTED_BYTES"}}}}"#, lit(&b64(&bp)))),
    );
    assert_eq!(m.keywords, None);
}

#[test]
fn extract_orientation_and_dimensions() {
    let m = extract(
        &js(r#"{}"#),
        &js(r#"{
            "orientation": {"value": 6},
            "resOriginalWidth": {"value": 4032},
            "resOriginalHeight": {"value": 3024}
        }"#),
    );
    assert_eq!(m.orientation, Some(6));
    assert_eq!(m.width, Some(4032));
    assert_eq!(m.height, Some(3024));
}

#[test]
fn extract_duration_and_timezone() {
    let m = extract(
        &js(r#"{}"#),
        &js(r#"{
            "duration": {"value": 12.5},
            "timeZoneOffset": {"value": -28800}
        }"#),
    );
    assert_eq!(m.duration_secs.map(double), Some(12.5));
    assert_eq!(m.timezone_offset, Some(-28800));
}

#[test]
fn extract_media_subtype_portrait() {
    let m = extract(&js(r#"{}"#), &js(r#"{"assetSubtypeV2": {"value": 16}}"#));
    assert_eq!(m.media_subtype.as_deref(), Some("portrait"));
}

#[test]
fn extract_media_subtype_live_photo() {
    let m = extract(&js(r#"{}"#), &js(r#"{"assetSubtypeV2": {"value": 8}}"#));
    assert_eq!(m.media_subtype.as_deref(), Some("live_photo"));
}

#[test]
fn extract_media_subtype_falls_back_to_v1() {
    let m = extract(&js(r#"{}"#), &js(r#"{"assetSubtype": {"value": 4}}"#));
    assert_eq!(m.media_subtype.as_deref(), Some("screenshot"));
}

#[test]
fn extract_media_subtype_unknown_bit_is_none() {
    let m = extract(&js(r#"{}"#), &js(r#"{"assetSubtype": {"value": 32}}"#));
    assert_eq!(m.media_subtype, None);
}

#[test]
fn extract_media_subtype_none_flags_is_none() {
    let m = extract(&js(r#"{}"#), &js(r#"{"assetSubtype": {"value": 0}}"#));
    assert_eq!(m.media_subtype, None);
}

#[test]
fn extract_burst_id_plain() {
    let m = extract(&js(r#"{}"#), &js(r#"{"burstId": {"value": "burst_abc"}}"#));
    assert_eq!(m.burst_id.as_deref(), Some("burst_abc"));
}

#[test]
fn extract_provider_data_contains_unmapped_fields() {
    let m = extract(
        &js(r#"{}"#),
        &js(r#"{
            "recordChangeTag": {"value": "tag42"},
            "containerId": {"value": "c1"},
            "isKeyAsset": {"value": 1}
        }"#),
    );
    let pd = m.provider_data.expect("provider_data should be populated");
    let parsed = value_of(&pd);
    assert_eq!(parsed["recordChangeTag"], "tag42");
    assert_eq!(parsed["containerId"], "c1");
    assert_eq!(parsed["isKeyAsset"], 1);
}

#[test]
fn extract_provider_data_none_when_no_unmapped_fields() {
    let m = extract(&js(r#"{}"#), &js(r#"{}"#));
    assert!(m.provider_data.is_none());
}

#[test]
fn extract_populates_metadata_hash() {
    // The hash is taken by whoever keeps the state; here a fixed one stands for it.
    let m = extract(&js("{}"), &js(r#"{"isFavorite": {"value": 1}}"#)).with_hash("c0ffee");
    assert!(m.metadata_hash.is_some());
    assert_eq!(m.metadata_hash.as_deref(), Some("c0ffee"));
    assert!(m.is_favorite);
}
