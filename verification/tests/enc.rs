//! Decoding the `*Enc` fields.
use base64::Engine;
use kei::enc::{
    decode_keywords, decode_location, decode_location_with_fallback, decode_string, may_be_read,
    plain_bits, NAN_BITS,
};
use kei::json::{Json, JsonNumber};
use plist::Value as PlistValue;

/// A parsed JSON text as the library's value.
fn json_of(value: &serde_json::Value) -> Json {
    match value {
        serde_json::Value::Null => Json::Null,
        serde_json::Value::Bool(b) => Json::Bool(*b),
        serde_json::Value::Number(n) => Json::Number(if let Some(n) = n.as_u64() {
            JsonNumber::Unsigned(n)
        } else if let Some(n) = n.as_i64() {
            JsonNumber::Negative(n)
        } else {
            JsonNumber::Float(n.as_f64().unwrap().to_bits())
        }),
        serde_json::Value::String(s) => Json::Text(s.clone()),
        serde_json::Value::Array(items) => Json::List(items.iter().map(json_of).collect()),
        serde_json::Value::Object(members) => {
            Json::Object(members.iter().map(|(name, value)| (name.clone(), json_of(value))).collect())
        }
    }
}

/// The JSON value that a text denotes.
fn js(text: &str) -> Json {
    json_of(&serde_json::from_str(text).unwrap())
}

/// A value as it stands in a JSON text.
fn lit<T: serde::Serialize + ?Sized>(value: &T) -> String {
    serde_json::to_string(value).unwrap()
}

/// A number as a double.
fn double(n: JsonNumber) -> f64 {
    match n {
        JsonNumber::Unsigned(n) => n as f64,
        JsonNumber::Negative(n) => n as f64,
        JsonNumber::Float(bits) => f64::from_bits(bits),
    }
}

fn b64(bytes: &[u8]) -> String {
    base64::engine::general_purpose::STANDARD.encode(bytes)
}

fn bplist_from(value: PlistValue) -> Vec<u8> {
    let mut out = Vec::new();
    plist::to_writer_binary(&mut out, &value).unwrap();
    out
}

#[test]
fn decode_string_string_type() {
    let fields = js(r#"{
        "captionEnc": {"value": "hello", "type": "STRING"}
    }"#);
    assert_eq!(decode_string(&fields, "captionEnc"), Some("hello".into()));
}

#[test]
fn decode_string_encrypted_bytes() {
    let fields = js(&format!(r#"{{
        "captionEnc": {{"value": {}, "type": "ENCRYPTED_BYTES"}}
    }}"#, lit(&b64(b"a caption"))));
    assert_eq!(
        decode_string(&fields, "captionEnc"),
        Some("a caption".into())
    );
}

#[test]
fn decode_string_missing_returns_none() {
    let fields = js(r#"{}"#);
    assert_eq!(decode_string(&fields, "captionEnc"), None);
}

#[test]
fn decode_string_null_returns_none() {
    let fields = js(r#"{"captionEnc": null}"#);
    assert_eq!(decode_string(&fields, "captionEnc"), None);
}

#[test]
fn decode_keywords_roundtrip() {
    let bplist = bplist_from(PlistValue::Array(vec![
        PlistValue::String("vacation".into()),
        PlistValue::String("beach".into()),
    ]));
    let fields = js(&format!(r#"{{
        "keywordsEnc": {{"value": {}, "type": "ENCRYPTED_BYTES"}}
    }}"#, lit(&b64(&bplist))));
    assert_eq!(
        decode_keywords(&fields),
        Some(vec!["vacation".into(), "beach".into()])
    );
}

#[test]
fn decode_keywords_missing_returns_none() {
    assert_eq!(decode_keywords(&js(r#"{}"#)), None);
}

#[test]
fn decode_keywords_non_array_returns_none() {
    let bplist = bplist_from(PlistValue::String("not an array".into()));
    let fields = js(&format!(r#"{{
        "keywordsEnc": {{"value": {}, "type": "ENCRYPTED_BYTES"}}
    }}"#, lit(&b64(&bplist))));
    assert_eq!(decode_keywords(&fields), None);
}

#[test]
fn decode_keywords_malformed_base64_returns_none() {
    let fields = js(r#"{
        "keywordsEnc": {"value": "!!not-base64!!", "type": "ENCRYPTED_BYTES"}
    }"#);
    assert_eq!(decode_keywords(&fields), None);
}

#[test]
fn decode_location_roundtrip_with_altitude() {
    let mut dict = plist::Dictionary::new();
    dict.insert("lat".into(), PlistValue::Real(37.7749));
    dict.insert("lon".into(), PlistValue::Real(-122.4194));
    dict.insert("alt".into(), PlistValue::Real(17.0));
    let bplist = bplist_from(PlistValue::Dictionary(dict));
    let fields = js(&format!(r#"{{
        "locationEnc": {{"value": {}, "type": "ENCRYPTED_BYTES"}}
    }}"#, lit(&b64(&bplist))));
    let loc = decode_location(&fields, "locationEnc").unwrap();
    assert!((double(loc.latitude) - 37.7749).abs() < 1e-6);
    assert!((double(loc.longitude) - -122.4194).abs() < 1e-6);
    assert_eq!(loc.altitude.map(double), Some(17.0));
}

#[test]
fn decode_location_without_altitude() {
    let mut dict = plist::Dictionary::new();
    dict.insert("lat".into(), PlistValue::Real(1.0));
    dict.insert("lon".into(), PlistValue::Real(2.0));
    let bplist = bplist_from(PlistValue::Dictionary(dict));
    let fields = js(&format!(r#"{{
        "locationEnc": {{"value": {}, "type": "ENCRYPTED_BYTES"}}
    }}"#, lit(&b64(&bplist))));
    let loc = decode_location(&fields, "locationEnc").unwrap();
    assert_eq!(loc.altitude, None);
}

#[test]
fn decode_location_missing_returns_none() {
    assert_eq!(decode_location(&js(r#"{}"#), "locationEnc"), None);
}

#[test]
fn decode_location_missing_lat_returns_none() {
    let mut dict = plist::Dictionary::new();
    dict.insert("lon".into(), PlistValue::Real(2.0));
    let bplist = bplist_from(PlistValue::Dictionary(dict));
    let fields = js(&format!(r#"{{
        "locationEnc": {{"value": {}, "type": "ENCRYPTED_BYTES"}}
    }}"#, lit(&b64(&bplist))));
    assert_eq!(decode_location(&fields, "locationEnc"), None);
}

#[test]
fn decode_location_prefers_v2_over_v1() {
    let mut d1 = plist::Dictionary::new();
    d1.insert("lat".into(), PlistValue::Real(1.0));
    d1.insert("lon".into(), PlistValue::Real(1.0));
    let bp1 = bplist_from(PlistValue::Dictionary(d1));
    let mut d2 = plist::Dictionary::new();
    d2.insert("lat".into(), PlistValue::Real(42.0));
    d2.insert("lon".into(), PlistValue::Real(-7.0));
    let bp2 = bplist_from(PlistValue::Dictionary(d2));
    let fields = js(&format!(r#"{{
        "locationEnc": {{"value": {}, "type": "ENCRYPTED_BYTES"}},
        "locationV2Enc": {{"value": {}, "type": "ENCRYPTED_BYTES"}}
    }}"#, lit(&b64(&bp1)), lit(&b64(&bp2))));
    let loc = decode_location_with_fallback(&fields).unwrap();
    assert_eq!(double(loc.latitude), 42.0);
    assert_eq!(double(loc.longitude), -7.0);
}

#[test]
fn decode_location_falls_back_to_plain_fields() {
    let fields = js(r#"{
        "locationLatitude": {"value": 10.0},
        "locationLongitude": {"value": 20.0}
    }"#);
    let loc = decode_location_with_fallback(&fields).unwrap();
    assert_eq!(double(loc.latitude), 10.0);
    assert_eq!(double(loc.longitude), 20.0);
    assert_eq!(loc.altitude, None);
}

#[test]
fn decode_location_fallback_returns_none_when_all_missing() {
    assert_eq!(decode_location_with_fallback(&js(r#"{}"#)), None);
}

/// A field that holds plain text.
fn plain(key: &str, text: &str) -> Json {
    js(&format!(r#"{{{}: {{"value": {}, "type": "STRING"}}}}"#, lit(key), lit(text)))
}

/// A field that holds base64.
fn encoded(key: &str, bytes: &[u8]) -> Json {
    js(&format!(r#"{{{}: {{"value": {}}}}}"#, lit(key), lit(&b64(bytes))))
}

#[test]
fn a_list_in_xml_is_read() {
    let list = "<plist><array><string>sea</string><integer>1</integer><string>sky</string></array></plist>";
    let keywords = Some(vec!["sea".to_string(), "sky".to_string()]);
    assert_eq!(decode_keywords(&plain("keywordsEnc", list)), keywords);
    assert_eq!(decode_keywords(&encoded("keywordsEnc", list.as_bytes())), keywords);
    let place = "<plist><dict><key>lat</key><real>1.5</real><key>lon</key><integer>-2</integer></dict></plist>";
    let location = decode_location(&plain("locationEnc", place), "locationEnc").unwrap();
    assert_eq!(double(location.latitude), 1.5);
    assert_eq!(location.longitude, JsonNumber::Negative(-2));
}

#[test]
fn a_date_in_xml_is_not_read() {
    let dates = [
        "<plist><date>9999-12-31T23:59:59-01:00</date></plist>",
        "<plist><date>&#57;999-12-31T23:59:59-01:00</date></plist>",
        "<plist><date>99<!-- -->99-12-31T23:59:59-01:00</date></plist>",
        "<plist><a:date>9999-12-31T23:59:59-01:00</a:date></plist>",
        "<plist><array><string>sea</string><date >9999-12-31T23:59:59-01:00</date ></array></plist>",
    ];
    for list in dates {
        assert!(!may_be_read(&list.as_bytes().to_vec()));
        assert_eq!(decode_keywords(&plain("keywordsEnc", list)), None);
        assert_eq!(decode_keywords(&encoded("keywordsEnc", list.as_bytes())), None);
        assert_eq!(decode_location(&plain("locationEnc", list), "locationEnc"), None);
    }
    assert!(may_be_read(&b"<plist><string>date</string></plist>".to_vec()));
}

#[test]
fn a_date_in_a_binary_list_is_passed_over() {
    let date = plist::Date::from_xml_format("2020-01-02T03:04:05Z").unwrap();
    let list = bplist_from(PlistValue::Array(vec![
        PlistValue::String("<date".into()),
        PlistValue::Date(date),
        PlistValue::String("sky".into()),
    ]));
    assert!(may_be_read(&list));
    assert_eq!(
        decode_keywords(&encoded("keywordsEnc", &list)),
        Some(vec!["<date".to_string(), "sky".to_string()])
    );
}

#[test]
fn doubles_that_are_no_numbers_are_alike() {
    // A dictionary of two four-byte reals: one that is no number, and one.
    let mut bytes = b"bplist00\xd2\x01\x02\x03\x04\x53lat\x53lon".to_vec();
    bytes.extend(b"\x22\xff\xc0\x00\x01\x22\x3f\x80\x00\x00");
    bytes.extend([8, 13, 17, 21, 26]);
    bytes.extend([0, 0, 0, 0, 0, 0, 1, 1]);
    for number in [5u64, 0, 31] {
        bytes.extend(number.to_be_bytes());
    }
    let location = decode_location(&encoded("locationEnc", &bytes), "locationEnc").unwrap();
    assert_eq!(location.latitude, JsonNumber::Float(NAN_BITS));
    assert_eq!(location.longitude, JsonNumber::Float(1.0f64.to_bits()));

    assert!(f64::from_bits(NAN_BITS).is_nan());
    for bits in [f64::NAN.to_bits(), 0x7ff0_0000_0000_0001, 0xffff_ffff_ffff_ffff] {
        assert_eq!(plain_bits(bits), NAN_BITS);
    }
    for number in [0.0, -0.0, 1.5, f64::INFINITY, f64::NEG_INFINITY, f64::MIN_POSITIVE, f64::MAX] {
        assert_eq!(plain_bits(number.to_bits()), number.to_bits());
    }
}
