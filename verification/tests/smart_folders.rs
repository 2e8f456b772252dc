//! Apple's built-in smart albums.
use kei::json::{Json, JsonNumber};
use kei::smart_folders::{
    sensitive_smart_folder_names, smart_folder_filter, smart_folder_names, smart_folders,
};

/// The library's value as a parsed JSON text.
fn value_of(json: &Json) -> serde_json::Value {
    match json {
        Json::Null => serde_json::Value::Null,
        Json::Bool(b) => serde_json::Value::from(*b),
        Json::Number(JsonNumber::Unsigned(n)) => serde_json::Value::from(*n),
        Json::Number(JsonNumber::Negative(n)) => serde_json::Value::from(*n),
        Json::Number(JsonNumber::Float(bits)) => serde_json::Value::from(f64::from_bits(*bits)),
        Json::Text(s) => serde_json::Value::from(s.as_str()),
        Json::List(items) => serde_json::Value::Array(items.iter().map(value_of).collect()),
        Json::Object(members) => serde_json::Value::Object(
            members.iter().map(|(name, value)| (name.clone(), value_of(value))).collect(),
        ),
    }
}

#[test]
fn sensitive_folders_are_those_behind_a_separate_screen() {
    assert_eq!(sensitive_smart_folder_names(), vec!["Recently Deleted", "Hidden"]);
}

#[test]
fn names_come_in_the_order_of_the_folders() {
    assert_eq!(
        smart_folder_names(),
        vec![
            "Time-lapse", "Videos", "Slo-mo", "Bursts", "Favorites", "Panoramas", "Screenshots",
            "Live", "Recently Deleted", "Hidden",
        ]
    );
}

#[test]
fn test_smart_folders_count() {
    let folders = smart_folders();
    assert_eq!(folders.len(), 10);
}

#[test]
fn test_smart_folders_names() {
    let folders = smart_folders();
    let names: Vec<&str> = folders.iter().map(|(name, _)| *name).collect();
    assert!(names.contains(&"Favorites"));
    assert!(names.contains(&"Videos"));
    assert!(names.contains(&"Screenshots"));
    assert!(names.contains(&"Live"));
    assert!(names.contains(&"Recently Deleted"));
}

#[test]
fn test_smart_folder_filter_produces_valid_json() {
    let filter = value_of(&smart_folder_filter("smartAlbum", "FAVORITE"));
    let arr = filter.as_array().expect("filter should be array");
    assert_eq!(arr.len(), 1);
    assert_eq!(arr[0]["fieldName"], "smartAlbum");
    assert_eq!(arr[0]["comparator"], "EQUALS");
    assert_eq!(arr[0]["fieldValue"]["value"], "FAVORITE");
}

#[test]
fn test_bursts_has_no_filter() {
    let folders = smart_folders();
    let bursts = folders.iter().find(|(name, _)| *name == "Bursts").unwrap();
    assert!(bursts.1.query_filter.is_none());
}

#[test]
fn test_favorites_has_filter() {
    let folders = smart_folders();
    let favorites = folders
        .iter()
        .find(|(name, _)| *name == "Favorites")
        .unwrap();
    assert!(favorites.1.query_filter.is_some());
}

#[test]
fn test_hidden_has_no_filter() {
    let folders = smart_folders();
    let hidden = folders.iter().find(|(name, _)| *name == "Hidden").unwrap();
    assert!(hidden.1.query_filter.is_none());
}

#[test]
fn test_recently_deleted_has_no_filter() {
    let folders = smart_folders();
    let deleted = folders
        .iter()
        .find(|(name, _)| *name == "Recently Deleted")
        .unwrap();
    assert!(deleted.1.query_filter.is_none());
    assert_eq!(deleted.1.obj_type, "CPLAssetDeletedByExpungedDate");
}

#[test]
fn test_all_smart_folders_have_unique_names() {
    let folders = smart_folders();
    let mut names: Vec<&str> = folders.iter().map(|(n, _)| *n).collect();
    let len_before = names.len();
    names.sort();
    names.dedup();
    assert_eq!(
        names.len(),
        len_before,
        "Duplicate smart folder names found"
    );
}

#[test]
fn test_all_smart_folders_have_nonempty_types() {
    let folders = smart_folders();
    assert!(!folders.is_empty(), "smart_folders() must not be empty");
    for (name, def) in &folders {
        assert!(!def.obj_type.is_empty(), "{name} has empty obj_type");
        assert!(!def.list_type.is_empty(), "{name} has empty list_type");
    }
}

#[test]
fn test_smart_folder_filter_field_structure() {
    let filter = value_of(&smart_folder_filter("testField", "TEST_VALUE"));
    let arr = filter.as_array().unwrap();
    assert_eq!(arr.len(), 1);
    let entry = &arr[0];
    assert_eq!(entry["fieldName"], "testField");
    assert_eq!(entry["comparator"], "EQUALS");
    assert_eq!(entry["fieldValue"]["type"], "STRING");
    assert_eq!(entry["fieldValue"]["value"], "TEST_VALUE");
}
