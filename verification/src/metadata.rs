//! Metadata read from iCloud records.
//!
//! Fields that have a place in the canonical schema are mapped into it; the rest of what
//! iCloud sends is kept as it is in `provider_data`.
use crate::dates::{instant_view, number_instant, number_millis};
use crate::enc::{
    decode_keywords, decode_location_with_fallback, decode_string, enc_entry, enc_plist, enc_text,
    fields_location, plist_keywords, plist_location, texts_among, PlistView,
};
use crate::json::{
    field, law_the_first_member_of_a_name_is_read, member, number_of, signed_of, signed_value,
    text_of, unsigned_of, Json, JsonNumber, JsonView,
};
use crate::queries::{is_asked_for, DESIRED_KEYS};
use crate::text::{option_view, text_views};
use vstd::prelude::*;

verus! {

/// The source stored on every asset record that comes from iCloud.
pub const SOURCE: &'static str = "icloud";

/// Fields whose raw values are kept in `provider_data`.
pub const PROVIDER_DATA_FIELDS: [&'static str; 22] = [
    "remappedRef",
    "recordChangeTag",
    "dataClassType",
    "burstFlags",
    "burstFlagsExt",
    "assetHDRType",
    "adjustmentRenderType",
    "adjustmentType",
    "adjustmentSimpleDataEnc",
    "adjustedMediaMetaDataEnc",
    "vidComplDurValue",
    "vidComplDurScale",
    "vidComplDispValue",
    "vidComplDispScale",
    "vidComplVisibilityState",
    "customRenderedValue",
    "containerId",
    "itemId",
    "position",
    "isKeyAsset",
    "assetSubtype",
    "assetSubtypeV2",
];

/// The media subtypes by the bit that flags them, the more specific ones first: a photo that
/// is both a portrait and HDR is a portrait.
pub const MEDIA_SUBTYPE_MAP: [(u64, &'static str); 7] = [
    (16, "portrait"),
    (8, "live_photo"),
    (4, "screenshot"),
    (2, "hdr"),
    (1, "panorama"),
    (131072, "slo_mo"),
    (262144, "timelapse"),
];

/// What is known of an asset beside its files. Instants are in milliseconds since the Unix
/// epoch.
#[derive(Debug)]
pub struct AssetMetadata {
    pub source: Option<String>,
    pub is_favorite: bool,
    pub rating: Option<u8>,
    pub is_hidden: bool,
    pub is_deleted: bool,
    pub deleted_at: Option<i64>,
    pub latitude: Option<JsonNumber>,
    pub longitude: Option<JsonNumber>,
    pub altitude: Option<JsonNumber>,
    pub orientation: Option<u8>,
    pub duration_secs: Option<JsonNumber>,
    pub timezone_offset: Option<i32>,
    pub width: Option<u32>,
    pub height: Option<u32>,
    pub title: Option<String>,
    pub description: Option<String>,
    /// The keywords as a JSON list of texts.
    pub keywords: Option<String>,
    pub media_subtype: Option<String>,
    pub burst_id: Option<String>,
    /// What is kept of the fields that have no place of their own. Whoever stores it writes it
    /// as a JSON text.
    pub provider_data: Option<Json>,
    /// A hash over the rest, by which a change is seen. It is taken by whoever keeps the state
    /// of the assets: [`extract`] knows no hash and leaves the place free, for
    /// [`AssetMetadata::with_hash`] to fill before the metadata is used.
    pub metadata_hash: Option<String>,
}

/// An [`AssetMetadata`] with its texts taken by their characters.
#[verifier::ext_equal]
pub struct MetadataView {
    pub source: Option<Seq<char>>,
    pub is_favorite: bool,
    pub rating: Option<u8>,
    pub is_hidden: bool,
    pub is_deleted: bool,
    pub deleted_at: Option<int>,
    pub latitude: Option<JsonNumber>,
    pub longitude: Option<JsonNumber>,
    pub altitude: Option<JsonNumber>,
    pub orientation: Option<u8>,
    pub duration_secs: Option<JsonNumber>,
    pub timezone_offset: Option<i32>,
    pub width: Option<u32>,
    pub height: Option<u32>,
    pub title: Option<Seq<char>>,
    pub description: Option<Seq<char>>,
    pub keywords: Option<Seq<char>>,
    pub media_subtype: Option<Seq<char>>,
    pub burst_id: Option<Seq<char>>,
    pub provider_data: Option<JsonView>,
    pub metadata_hash: Option<Seq<char>>,
}

/// The view of an optional JSON value.
pub open spec fn owned_json_view(json: Option<Json>) -> Option<JsonView> {
    match json {
        Some(json) => Some(json@),
        None => None,
    }
}

impl View for AssetMetadata {
    type V = MetadataView;

    open spec fn view(&self) -> MetadataView {
        MetadataView {
            source: option_view(self.source),
            is_favorite: self.is_favorite,
            rating: self.rating,
            is_hidden: self.is_hidden,
            is_deleted: self.is_deleted,
            deleted_at: instant_view(self.deleted_at),
            latitude: self.latitude,
            longitude: self.longitude,
            altitude: self.altitude,
            orientation: self.orientation,
            duration_secs: self.duration_secs,
            timezone_offset: self.timezone_offset,
            width: self.width,
            height: self.height,
            title: option_view(self.title),
            description: option_view(self.description),
            keywords: option_view(self.keywords),
            media_subtype: option_view(self.media_subtype),
            burst_id: option_view(self.burst_id),
            provider_data: owned_json_view(self.provider_data),
            metadata_hash: option_view(self.metadata_hash),
        }
    }
}

/// The flag that a field holds: a boolean as it is, a number by whether it is an integer
/// other than zero.
pub open spec fn flag_of(json: Option<JsonView>) -> Option<bool> {
    match json {
        Some(JsonView::Bool(b)) => Some(b),
        Some(JsonView::Number(n)) => Some(
            match signed_value(n) {
                Some(v) => v != 0,
                None => false,
            },
        ),
        _ => None,
    }
}

/// Whether the flag `key` is set.
pub open spec fn flag_set(fields: JsonView, key: Seq<char>) -> bool {
    flag_of(field(fields, key)) == Some(true)
}

/// The instant that a field holds.
pub open spec fn instant_of(json: Option<JsonView>) -> Option<int> {
    match number_of(json) {
        Some(n) => number_instant(n),
        None => None,
    }
}

/// An integer that the asset's field holds, else the master's.
pub open spec fn unsigned_from(
    asset: JsonView,
    asset_key: Seq<char>,
    master: JsonView,
    master_key: Seq<char>,
) -> Option<u64> {
    match unsigned_of(field(asset, asset_key)) {
        Some(n) => Some(n),
        None => unsigned_of(field(master, master_key)),
    }
}

/// An integer, where it fits in eight bits.
pub open spec fn fits_u8(n: Option<u64>) -> Option<u8> {
    match n {
        Some(n) => if n <= u8::MAX {
            Some(n as u8)
        } else {
            None
        },
        None => None,
    }
}

/// An integer, where it fits in 32 bits.
pub open spec fn fits_u32(n: Option<u64>) -> Option<u32> {
    match n {
        Some(n) => if n <= u32::MAX {
            Some(n as u32)
        } else {
            None
        },
        None => None,
    }
}

/// A signed integer, where it fits in 32 bits.
pub open spec fn fits_i32(n: Option<i64>) -> Option<i32> {
    match n {
        Some(n) => if i32::MIN <= n <= i32::MAX {
            Some(n as i32)
        } else {
            None
        },
        None => None,
    }
}

/// A list of texts written as JSON.
pub uninterp spec fn json_texts(texts: Seq<Seq<char>>) -> Option<Seq<char>>;

/// `serde_json::to_string` on a list of texts: the list written as JSON.
#[verifier::external_body]
fn write_json_texts(texts: &Vec<String>) -> (written: Option<String>)
    ensures
        option_view(written) == json_texts(text_views(texts@)),
{
    serde_json::to_string(texts).ok()
}

/// The keywords as a JSON list; none where there are none.
pub open spec fn keywords_text(keywords: Option<Seq<Seq<char>>>) -> Option<Seq<char>> {
    match keywords {
        Some(keywords) => if keywords.len() == 0 {
            None
        } else {
            json_texts(keywords)
        },
        None => None,
    }
}

/// Whether `raw` has the bit `flag`.
pub open spec fn has_bit(raw: u64, flag: u64) -> bool {
    (raw / flag) % 2 == 1
}

/// The first subtype at or behind place `i` whose bit is set.
pub open spec fn subtype_from(raw: u64, i: int) -> Option<Seq<char>>
    decreases MEDIA_SUBTYPE_MAP@.len() - i,
{
    if i < 0 || i >= MEDIA_SUBTYPE_MAP@.len() {
        None
    } else if has_bit(raw, MEDIA_SUBTYPE_MAP@[i].0) {
        Some(MEDIA_SUBTYPE_MAP@[i].1@)
    } else {
        subtype_from(raw, i + 1)
    }
}

/// The media subtype that a record's fields name.
pub open spec fn media_subtype_of(fields: JsonView) -> Option<Seq<char>> {
    match unsigned_from(fields, "assetSubtypeV2"@, fields, "assetSubtype"@) {
        Some(raw) => subtype_from(raw, 0),
        None => None,
    }
}

/// A field's raw content, with its type where that is given.
pub open spec fn raw_value(fields: JsonView, key: Seq<char>) -> Option<JsonView> {
    match enc_entry(fields, key) {
        Some(entry) => match (member(entry, "value"@), member(entry, "type"@)) {
            (Some(value), Some(kind)) => Some(
                JsonView::Object(seq![("value"@, value), ("type"@, kind)]),
            ),
            (value, _) => value,
        },
        None => None,
    }
}

/// A raw content of the asset's field, else of the master's.
pub open spec fn raw_value_from(asset: JsonView, master: JsonView, key: Seq<char>) -> Option<
    JsonView,
> {
    match raw_value(asset, key) {
        Some(value) => Some(value),
        None => raw_value(master, key),
    }
}

/// What is kept of the first `n` unmapped fields.
pub open spec fn provider_members(master: JsonView, asset: JsonView, n: int) -> Seq<
    (Seq<char>, JsonView),
>
    decreases n,
{
    if n <= 0 {
        Seq::empty()
    } else {
        let key = PROVIDER_DATA_FIELDS@[n - 1]@;
        match raw_value_from(asset, master, key) {
            Some(value) => provider_members(master, asset, n - 1).push((key, value)),
            None => provider_members(master, asset, n - 1),
        }
    }
}

/// What is kept of the unmapped fields; none where nothing is.
pub open spec fn provider_data_of(master: JsonView, asset: JsonView) -> Option<JsonView> {
    let members = provider_members(master, asset, PROVIDER_DATA_FIELDS@.len() as int);
    if members.len() == 0 {
        None
    } else {
        Some(JsonView::Object(members))
    }
}

/// The metadata that a master's and an asset's fields give.
pub open spec fn metadata_of(master: JsonView, asset: JsonView) -> MetadataView {
    let location = fields_location(asset);
    MetadataView {
        source: Some(SOURCE@),
        is_favorite: flag_set(asset, "isFavorite"@),
        rating: if flag_set(asset, "isFavorite"@) {
            Some(5u8)
        } else {
            None
        },
        is_hidden: flag_set(asset, "isHidden"@),
        is_deleted: flag_set(asset, "isDeleted"@) || flag_set(asset, "isExpunged"@),
        deleted_at: instant_of(field(asset, "dateExpunged"@)),
        latitude: match location {
            Some(location) => Some(location.latitude),
            None => None,
        },
        longitude: match location {
            Some(location) => Some(location.longitude),
            None => None,
        },
        altitude: match location {
            Some(location) => location.altitude,
            None => None,
        },
        orientation: fits_u8(
            unsigned_from(asset, "orientation"@, master, "originalOrientation"@),
        ),
        duration_secs: number_of(field(asset, "duration"@)),
        timezone_offset: fits_i32(signed_of(field(asset, "timeZoneOffset"@))),
        width: fits_u32(unsigned_from(asset, "resOriginalWidth"@, master, "resOriginalWidth"@)),
        height: fits_u32(unsigned_from(asset, "resOriginalHeight"@, master, "resOriginalHeight"@)),
        title: enc_text(asset, "captionEnc"@),
        description: enc_text(asset, "extendedDescEnc"@),
        keywords: keywords_text(plist_keywords(enc_plist(asset, "keywordsEnc"@))),
        media_subtype: media_subtype_of(asset),
        burst_id: text_of(field(asset, "burstId"@)),
        provider_data: provider_data_of(master, asset),
        metadata_hash: None,
    }
}

/// The flag that a field holds.
fn bool_field(fields: &Json, key: &str) -> (flag: Option<bool>)
    ensures
        flag == flag_of(field(fields@, key@)),
{
    match fields.field(key) {
        Some(entry) => match entry {
            Json::Bool(b) => Some(*b),
            Json::Number(n) => match n.as_i64() {
                Some(v) => Some(v != 0),
                None => Some(false),
            },
            _ => None,
        },
        None => None,
    }
}

/// Whether the flag `key` is set.
fn flag_field(fields: &Json, key: &str) -> (set: bool)
    ensures
        set == flag_set(fields@, key@),
{
    match bool_field(fields, key) {
        Some(flag) => flag,
        None => false,
    }
}

/// The number that a field holds.
pub fn number_field(fields: &Json, key: &str) -> (n: Option<JsonNumber>)
    ensures
        n == number_of(field(fields@, key@)),
{
    match fields.field(key) {
        Some(entry) => entry.as_number(),
        None => None,
    }
}

/// The instant that a field holds.
pub fn instant_field(fields: &Json, key: &str) -> (instant: Option<i64>)
    ensures
        instant_view(instant) == instant_of(field(fields@, key@)),
{
    match number_field(fields, key) {
        Some(n) => number_millis(n),
        None => None,
    }
}

/// The integer that a field holds, where it is not negative.
fn u64_field(fields: &Json, key: &str) -> (n: Option<u64>)
    ensures
        n == unsigned_of(field(fields@, key@)),
{
    match fields.field(key) {
        Some(entry) => entry.as_u64(),
        None => None,
    }
}

/// An integer that the asset's field holds, else the master's.
fn u64_field_from(asset: &Json, asset_key: &str, master: &Json, master_key: &str) -> (n: Option<u64>)
    ensures
        n == unsigned_from(asset@, asset_key@, master@, master_key@),
{
    match u64_field(asset, asset_key) {
        Some(n) => Some(n),
        None => u64_field(master, master_key),
    }
}

/// An integer, where it fits in 32 bits.
fn narrow_u32(n: Option<u64>) -> (narrow: Option<u32>)
    ensures
        narrow == fits_u32(n),
{
    match n {
        Some(n) => if n <= u32::MAX as u64 {
            Some(n as u32)
        } else {
            None
        },
        None => None,
    }
}

/// The integer that a field holds.
fn i64_field(fields: &Json, key: &str) -> (n: Option<i64>)
    ensures
        n == signed_of(field(fields@, key@)),
{
    match fields.field(key) {
        Some(entry) => entry.as_i64(),
        None => None,
    }
}

/// The text that a field holds.
fn string_field(fields: &Json, key: &str) -> (s: Option<String>)
    ensures
        option_view(s) == text_of(field(fields@, key@)),
{
    match fields.field_str(key) {
        Some(s) => Some(s.to_owned()),
        None => None,
    }
}

/// The media subtype that a record's fields name.
fn map_media_subtype(fields: &Json) -> (subtype: Option<String>)
    ensures
        option_view(subtype) == media_subtype_of(fields@),
{
    match u64_field_from(fields, "assetSubtypeV2", fields, "assetSubtype") {
        Some(raw) => {
            let table = MEDIA_SUBTYPE_MAP;
            let mut i: usize = 0;
            while i < table.len()
                invariant
                    table == MEDIA_SUBTYPE_MAP,
                    i <= table.len(),
                    unsigned_from(fields@, "assetSubtypeV2"@, fields@, "assetSubtype"@) == Some(raw),
                    subtype_from(raw, 0) == subtype_from(raw, i as int),
                decreases table.len() - i,
            {
                let (flag, name) = table[i];
                assert(flag > 0);
                if (raw / flag) % 2 == 1 {
                    return Some(name.to_owned());
                }
                i = i + 1;
            }
            None
        },
        None => None,
    }
}

/// A field's raw content, with its type where that is given.
fn extract_raw_value(fields: &Json, key: &str) -> (value: Option<Json>)
    ensures
        owned_json_view(value) == raw_value(fields@, key@),
{
    match fields.get(key) {
        Some(entry) => {
            if entry.is_null() {
                return None;
            }
            match entry.get("value") {
                Some(value) => match entry.get("type") {
                    Some(kind) => {
                        let both = Json::empty_object().with("value", value.duplicate()).with(
                            "type",
                            kind.duplicate(),
                        );
                        proof {
                            assert(seq![("value"@, value@), ("type"@, kind@)] =~= Seq::empty().push(
                                ("value"@, value@),
                            ).push(("type"@, kind@)));
                        }
                        Some(both)
                    },
                    None => Some(value.duplicate()),
                },
                None => None,
            }
        },
        None => None,
    }
}

/// What is kept of the unmapped fields.
fn collect_provider_data(master_fields: &Json, asset_fields: &Json) -> (data: Option<Json>)
    ensures
        owned_json_view(data) == provider_data_of(master_fields@, asset_fields@),
{
    let names = PROVIDER_DATA_FIELDS;
    let mut kept = Json::empty_object();
    let mut count: usize = 0;
    let mut i: usize = 0;
    while i < names.len()
        invariant
            names == PROVIDER_DATA_FIELDS,
            i <= names.len(),
            count <= i,
            kept@ == JsonView::Object(
                provider_members(master_fields@, asset_fields@, i as int),
            ),
            count == provider_members(master_fields@, asset_fields@, i as int).len(),
        decreases names.len() - i,
    {
        let value = match extract_raw_value(asset_fields, names[i]) {
            Some(value) => Some(value),
            None => extract_raw_value(master_fields, names[i]),
        };
        if let Some(value) = value {
            kept = kept.with(names[i], value);
            count = count + 1;
        }
        i = i + 1;
    }
    if count == 0 {
        None
    } else {
        Some(kept)
    }
}

/// The keywords as a JSON list.
fn keywords_json(fields: &Json) -> (keywords: Option<String>)
    ensures
        option_view(keywords) == keywords_text(plist_keywords(enc_plist(fields@, "keywordsEnc"@))),
{
    match decode_keywords(fields) {
        Some(keywords) => if keywords.len() == 0 {
            None
        } else {
            write_json_texts(&keywords)
        },
        None => None,
    }
}

/// Read the metadata of a pair of records. Most of it stands on the asset; the master is
/// asked where the asset is silent. The hash is not among what is read; see
/// [`AssetMetadata::metadata_hash`].
pub fn extract(master_fields: &Json, asset_fields: &Json) -> (meta: AssetMetadata)
    ensures
        meta@ == metadata_of(master_fields@, asset_fields@),
{
    let is_favorite = flag_field(asset_fields, "isFavorite");
    let location = decode_location_with_fallback(asset_fields);
    let (latitude, longitude, altitude) = match location {
        Some(location) => (Some(location.latitude), Some(location.longitude), location.altitude),
        None => (None, None, None),
    };
    let orientation = match u64_field_from(
        asset_fields,
        "orientation",
        master_fields,
        "originalOrientation",
    ) {
        Some(n) => if n <= u8::MAX as u64 {
            Some(n as u8)
        } else {
            None
        },
        None => None,
    };
    let timezone_offset = match i64_field(asset_fields, "timeZoneOffset") {
        Some(n) => if i32::MIN as i64 <= n && n <= i32::MAX as i64 {
            Some(n as i32)
        } else {
            None
        },
        None => None,
    };
    AssetMetadata {
        source: Some(SOURCE.to_owned()),
        is_favorite,
        rating: if is_favorite {
            Some(5)
        } else {
            None
        },
        is_hidden: flag_field(asset_fields, "isHidden"),
        is_deleted: flag_field(asset_fields, "isDeleted") || flag_field(
            asset_fields,
            "isExpunged",
        ),
        deleted_at: instant_field(asset_fields, "dateExpunged"),
        latitude,
        longitude,
        altitude,
        orientation,
        duration_secs: number_field(asset_fields, "duration"),
        timezone_offset,
        width: narrow_u32(
            u64_field_from(asset_fields, "resOriginalWidth", master_fields, "resOriginalWidth"),
        ),
        height: narrow_u32(
            u64_field_from(asset_fields, "resOriginalHeight", master_fields, "resOriginalHeight"),
        ),
        title: decode_string(asset_fields, "captionEnc"),
        description: decode_string(asset_fields, "extendedDescEnc"),
        keywords: keywords_json(asset_fields),
        media_subtype: map_media_subtype(asset_fields),
        burst_id: string_field(asset_fields, "burstId"),
        provider_data: collect_provider_data(master_fields, asset_fields),
        metadata_hash: None,
    }
}

impl AssetMetadata {
    /// The metadata with its hash noted.
    pub fn with_hash(self, hash: &str) -> (meta: Self)
        ensures
            meta@ == (MetadataView { metadata_hash: Some(hash@), ..self@ }),
    {
        let mut meta = self;
        meta.metadata_hash = Some(hash.to_owned());
        meta
    }
}

/// What an asset's and a master's fields say of an integer, by the asset's field first: where
/// that holds an integer it counts, else the master's does.
pub open spec fn said_integer(first: Option<JsonView>, second: Option<JsonView>) -> Option<u64> {
    match (first, second) {
        (Some(JsonView::Number(JsonNumber::Unsigned(n))), _) => Some(n),
        (_, Some(JsonView::Number(JsonNumber::Unsigned(n)))) => Some(n),
        _ => None,
    }
}

/// A photo's width is what `resOriginalWidth` holds, and its height what `resOriginalHeight`
/// holds: the asset's field where that is an integer, else the master's of the same name. One
/// that does not fit in 32 bits is none.
pub proof fn law_dimensions_stand_in_their_own_fields(master: JsonView, asset: JsonView)
    ensures
        ({
            let metadata = metadata_of(master, asset);
            let width = said_integer(
                field(asset, "resOriginalWidth"@),
                field(master, "resOriginalWidth"@),
            );
            let height = said_integer(
                field(asset, "resOriginalHeight"@),
                field(master, "resOriginalHeight"@),
            );
            &&& metadata.width is Some <==> width is Some && width->0 <= 0xffff_ffff
            &&& metadata.width is Some ==> metadata.width->0 == width->0
            &&& metadata.height is Some <==> height is Some && height->0 <= 0xffff_ffff
            &&& metadata.height is Some ==> metadata.height->0 == height->0
        }),
{
}

/// The width does not depend on any height, nor the height on any width: photos that agree in
/// one field of both records agree in that dimension, whatever else differs.
pub proof fn law_dimensions_do_not_mix(
    master: JsonView,
    asset: JsonView,
    other_master: JsonView,
    other_asset: JsonView,
)
    ensures
        field(master, "resOriginalWidth"@) == field(other_master, "resOriginalWidth"@) && field(
            asset,
            "resOriginalWidth"@,
        ) == field(other_asset, "resOriginalWidth"@) ==> metadata_of(master, asset).width
            == metadata_of(other_master, other_asset).width,
        field(master, "resOriginalHeight"@) == field(other_master, "resOriginalHeight"@) && field(
            asset,
            "resOriginalHeight"@,
        ) == field(other_asset, "resOriginalHeight"@) ==> metadata_of(master, asset).height
            == metadata_of(other_master, other_asset).height,
{
}

/// Where the asset is silent on a dimension and the master's field holds an integer that fits
/// in 32 bits, the dimension is that integer.
pub proof fn law_the_master_gives_what_the_asset_lacks(
    master: JsonView,
    asset: JsonView,
    n: u64,
)
    requires
        n <= u32::MAX,
    ensures
        unsigned_of(field(asset, "resOriginalWidth"@)) is None && field(master, "resOriginalWidth"@)
            == Some(JsonView::Number(JsonNumber::Unsigned(n))) ==> metadata_of(master, asset).width
            == Some(n as u32),
        unsigned_of(field(asset, "resOriginalHeight"@)) is None && field(
            master,
            "resOriginalHeight"@,
        ) == Some(JsonView::Number(JsonNumber::Unsigned(n))) ==> metadata_of(master, asset).height
            == Some(n as u32),
        unsigned_of(field(asset, "orientation"@)) is None && field(master, "originalOrientation"@)
            == Some(JsonView::Number(JsonNumber::Unsigned(n))) && n <= u8::MAX ==> metadata_of(
            master,
            asset,
        ).orientation == Some(n as u8),
{
}

/// The orientation is the asset's own, where it holds an integer, else the master's original
/// one; one that does not fit in eight bits is none.
pub proof fn law_the_orientation_is_the_assets_first(master: JsonView, asset: JsonView)
    ensures
        ({
            let orientation = metadata_of(master, asset).orientation;
            let said = said_integer(
                field(asset, "orientation"@),
                field(master, "originalOrientation"@),
            );
            &&& orientation is Some <==> said is Some && said->0 <= 0xff
            &&& orientation is Some ==> orientation->0 == said->0
        }),
{
}

/// Whether a field's content sets a flag: it is true, or an integer other than zero.
pub open spec fn sets_a_flag(json: Option<JsonView>) -> bool {
    match json {
        Some(JsonView::Bool(b)) => b,
        Some(JsonView::Number(n)) => signed_value(n) is Some && signed_value(n) != Some(0i64),
        _ => false,
    }
}

/// Each flag of a photo stands in its own field of the asset record: it is a favorite, which is
/// rated five and nothing else is rated; it is hidden; it is deleted, where it is in the trash
/// or was expunged. The master's fields have no say in them.
pub proof fn law_flags_stand_in_their_own_fields(master: JsonView, asset: JsonView)
    ensures
        ({
            let metadata = metadata_of(master, asset);
            &&& metadata.is_favorite == sets_a_flag(field(asset, "isFavorite"@))
            &&& metadata.is_favorite ==> metadata.rating == Some(5u8)
            &&& !metadata.is_favorite ==> metadata.rating is None
            &&& metadata.is_hidden == sets_a_flag(field(asset, "isHidden"@))
            &&& metadata.is_deleted == (sets_a_flag(field(asset, "isDeleted"@)) || sets_a_flag(
                field(asset, "isExpunged"@),
            ))
        }),
{
}

/// The instant of a deletion is what `dateExpunged` holds, where a calendar date can hold it.
pub proof fn law_a_deletion_is_dated_by_its_own_field(
    master: JsonView,
    asset: JsonView,
    n: JsonNumber,
)
    ensures
        field(asset, "dateExpunged"@) == Some(JsonView::Number(n)) ==> metadata_of(
            master,
            asset,
        ).deleted_at == number_instant(n),
        number_of(field(asset, "dateExpunged"@)) is None ==> metadata_of(
            master,
            asset,
        ).deleted_at is None,
{
}

/// A photo's place is the one position that its asset record holds, all parts from the same:
/// the newer encoded one, else the older, else the plain coordinates, which know no altitude.
pub proof fn law_a_place_is_one_position(master: JsonView, asset: JsonView)
    ensures
        ({
            let metadata = metadata_of(master, asset);
            let newer = plist_location(enc_plist(asset, "locationV2Enc"@));
            let older = plist_location(enc_plist(asset, "locationEnc"@));
            let latitude = field(asset, "locationLatitude"@);
            let longitude = field(asset, "locationLongitude"@);
            match (newer, older, latitude, longitude) {
                (Some(place), _, _, _) => {
                    &&& metadata.latitude == Some(place.latitude)
                    &&& metadata.longitude == Some(place.longitude)
                    &&& metadata.altitude == place.altitude
                },
                (None, Some(place), _, _) => {
                    &&& metadata.latitude == Some(place.latitude)
                    &&& metadata.longitude == Some(place.longitude)
                    &&& metadata.altitude == place.altitude
                },
                (None, None, Some(JsonView::Number(north)), Some(JsonView::Number(east))) => {
                    &&& metadata.latitude == Some(north)
                    &&& metadata.longitude == Some(east)
                    &&& metadata.altitude is None
                },
                _ => {
                    &&& metadata.latitude is None
                    &&& metadata.longitude is None
                    &&& metadata.altitude is None
                },
            }
        }),
{
}

/// The length of a video is the number that `duration` holds, and the distance to UTC the
/// integer that `timeZoneOffset` holds, where it fits in 32 bits.
pub proof fn law_length_and_time_zone_stand_in_their_own_fields(master: JsonView, asset: JsonView)
    ensures
        ({
            let metadata = metadata_of(master, asset);
            let offset = signed_of(field(asset, "timeZoneOffset"@));
            &&& forall|n: JsonNumber| #[trigger]
                metadata.duration_secs == Some(n) <==> field(asset, "duration"@) == Some(
                    JsonView::Number(n),
                )
            &&& metadata.timezone_offset is Some <==> offset is Some && -0x8000_0000 <= offset->0
                <= 0x7fff_ffff
            &&& metadata.timezone_offset is Some ==> metadata.timezone_offset->0 == offset->0
        }),
{
}

/// The caption is the title, the extended description the description, and the burst goes by
/// its own name; each is read from its own field of the asset record.
pub proof fn law_texts_stand_in_their_own_fields(master: JsonView, asset: JsonView)
    ensures
        ({
            let metadata = metadata_of(master, asset);
            &&& metadata.title == enc_text(asset, "captionEnc"@)
            &&& metadata.description == enc_text(asset, "extendedDescEnc"@)
            &&& forall|name: Seq<char>| #[trigger]
                metadata.burst_id == Some(name) <==> field(asset, "burstId"@) == Some(
                    JsonView::Text(name),
                )
            &&& metadata.source == Some("icloud"@)
            &&& metadata.metadata_hash is None
        }),
{
}

/// The keywords are those of the list that `keywordsEnc` holds, written as JSON; a list without
/// any, or anything but a list, gives none.
pub proof fn law_keywords_stand_in_their_own_field(
    master: JsonView,
    asset: JsonView,
    items: Seq<Option<Seq<char>>>,
)
    ensures
        enc_plist(asset, "keywordsEnc"@) == Some(PlistView::List(items)) && texts_among(items).len()
            > 0 ==> metadata_of(master, asset).keywords == json_texts(texts_among(items)),
        enc_plist(asset, "keywordsEnc"@) == Some(PlistView::List(items)) && texts_among(items).len()
            == 0 ==> metadata_of(master, asset).keywords is None,
        !(enc_plist(asset, "keywordsEnc"@) matches Some(PlistView::List(_))) ==> metadata_of(
            master,
            asset,
        ).keywords is None,
{
}

/// A photo's subtype is told by the bits of `assetSubtypeV2`, or of `assetSubtype` where that
/// holds no integer: a portrait before a live photo before a screenshot before HDR before a
/// panorama, and slow motion before a time lapse. Without one of these bits there is none.
pub proof fn law_the_most_specific_subtype_is_told(master: JsonView, asset: JsonView)
    ensures
        ({
            let subtype = metadata_of(master, asset).media_subtype;
            let bits = said_integer(field(asset, "assetSubtypeV2"@), field(asset, "assetSubtype"@));
            match bits {
                None => subtype is None,
                Some(bits) => subtype == if (bits / 16) % 2 == 1 {
                    Some("portrait"@)
                } else if (bits / 8) % 2 == 1 {
                    Some("live_photo"@)
                } else if (bits / 4) % 2 == 1 {
                    Some("screenshot"@)
                } else if (bits / 2) % 2 == 1 {
                    Some("hdr"@)
                } else if bits % 2 == 1 {
                    Some("panorama"@)
                } else if (bits / 131072) % 2 == 1 {
                    Some("slo_mo"@)
                } else if (bits / 262144) % 2 == 1 {
                    Some("timelapse"@)
                } else {
                    None
                },
            }
        }),
{
    reveal_with_fuel(subtype_from, 8);
}

/// What has no place of its own is kept under its own name: the asset's content, else the
/// master's, with its type where that is given. Nothing is kept where neither has any.
pub proof fn law_the_rest_is_kept_under_its_own_name(master: JsonView, asset: JsonView, i: int)
    requires
        0 <= i < PROVIDER_DATA_FIELDS@.len(),
    ensures
        ({
            let kept = metadata_of(master, asset).provider_data;
            let key = PROVIDER_DATA_FIELDS@[i]@;
            let said = match raw_value(asset, key) {
                Some(value) => Some(value),
                None => raw_value(master, key),
            };
            &&& kept is None ==> said is None
            &&& said matches Some(value) ==> (kept matches Some(JsonView::Object(members))
                && members.contains((key, value)))
        }),
{
    lemma_provider_members(master, asset, PROVIDER_DATA_FIELDS@.len() as int, i);
}

/// What a field gives is among what is kept.
proof fn lemma_provider_members(master: JsonView, asset: JsonView, n: int, i: int)
    requires
        0 <= i < n,
    ensures
        raw_value_from(asset, master, PROVIDER_DATA_FIELDS@[i]@) matches Some(value)
            ==> provider_members(master, asset, n).contains((PROVIDER_DATA_FIELDS@[i]@, value)),
    decreases n,
{
    let key = PROVIDER_DATA_FIELDS@[i]@;
    if let Some(value) = raw_value_from(asset, master, key) {
        let before = provider_members(master, asset, n - 1);
        let all = provider_members(master, asset, n);
        if i == n - 1 {
            assert(all[before.len() as int] == (key, value));
        } else {
            lemma_provider_members(master, asset, n - 1, i);
            let k = choose|k: int| 0 <= k < before.len() && before[k] == (key, value);
            assert(all[k] == (key, value));
        }
    }
}

/// Nothing is kept but what a field of the list gives, the asset's before the master's.
pub proof fn law_nothing_else_is_kept(master: JsonView, asset: JsonView, n: int, k: int)
    requires
        n <= PROVIDER_DATA_FIELDS@.len(),
        0 <= k < provider_members(master, asset, n).len(),
    ensures
        exists|i: int|
            0 <= i < n && (#[trigger] PROVIDER_DATA_FIELDS@[i])@ == provider_members(
                master,
                asset,
                n,
            )[k].0,
        ({
            let (key, value) = provider_members(master, asset, n)[k];
            if raw_value(asset, key) is Some {
                raw_value(asset, key) == Some(value)
            } else {
                raw_value(master, key) == Some(value)
            }
        }),
    decreases n,
{
    let before = provider_members(master, asset, n - 1);
    if k < before.len() {
        law_nothing_else_is_kept(master, asset, n - 1, k);
        let i = choose|i: int|
            0 <= i < n - 1 && (#[trigger] PROVIDER_DATA_FIELDS@[i])@ == before[k].0;
        assert(PROVIDER_DATA_FIELDS@[i]@ == provider_members(master, asset, n)[k].0);
    } else {
        assert(PROVIDER_DATA_FIELDS@[n - 1]@ == provider_members(master, asset, n)[k].0);
    }
}

/// A field's raw content is its value; where the entry gives a type too, both stand together.
pub proof fn law_raw_content_keeps_its_type(fields: JsonView, key: Seq<char>, entry: JsonView)
    requires
        member(fields, key) == Some(entry),
        entry != JsonView::Null,
    ensures
        ({
            let raw = raw_value(fields, key);
            let value = member(entry, "value"@);
            let kind = member(entry, "type"@);
            &&& value is None ==> raw is None
            &&& value is Some && kind is None ==> raw == value
            &&& value is Some && kind is Some ==> raw is Some && member(raw->0, "value"@) == value
                && member(raw->0, "type"@) == kind
        }),
{
    if let (Some(value), Some(kind)) = (member(entry, "value"@), member(entry, "type"@)) {
        reveal_strlit("value");
        reveal_strlit("type");
        assert("value"@.len() == 5 && "type"@.len() == 4);
        let members = seq![("value"@, value), ("type"@, kind)];
        law_the_first_member_of_a_name_is_read(members, "value"@, 0);
        law_the_first_member_of_a_name_is_read(members, "type"@, 1);
    }
}

/// Every field whose content is kept raw is asked for.
pub proof fn law_every_field_that_is_kept_is_asked_for(i: int)
    requires
        0 <= i < PROVIDER_DATA_FIELDS@.len(),
    ensures
        is_asked_for(PROVIDER_DATA_FIELDS@[i]@),
        PROVIDER_DATA_FIELDS@.len() == 22,
{
    assert(PROVIDER_DATA_FIELDS@[0]@ == DESIRED_KEYS@[62]@);
    assert(PROVIDER_DATA_FIELDS@[1]@ == DESIRED_KEYS@[65]@);
    assert(PROVIDER_DATA_FIELDS@[2]@ == DESIRED_KEYS@[41]@);
    assert(PROVIDER_DATA_FIELDS@[3]@ == DESIRED_KEYS@[77]@);
    assert(PROVIDER_DATA_FIELDS@[4]@ == DESIRED_KEYS@[78]@);
    assert(PROVIDER_DATA_FIELDS@[5]@ == DESIRED_KEYS@[76]@);
    assert(PROVIDER_DATA_FIELDS@[6]@ == DESIRED_KEYS@[67]@);
    assert(PROVIDER_DATA_FIELDS@[7]@ == DESIRED_KEYS@[85]@);
    assert(PROVIDER_DATA_FIELDS@[8]@ == DESIRED_KEYS@[94]@);
    assert(PROVIDER_DATA_FIELDS@[9]@ == DESIRED_KEYS@[93]@);
    assert(PROVIDER_DATA_FIELDS@[10]@ == DESIRED_KEYS@[87]@);
    assert(PROVIDER_DATA_FIELDS@[11]@ == DESIRED_KEYS@[88]@);
    assert(PROVIDER_DATA_FIELDS@[12]@ == DESIRED_KEYS@[89]@);
    assert(PROVIDER_DATA_FIELDS@[13]@ == DESIRED_KEYS@[90]@);
    assert(PROVIDER_DATA_FIELDS@[14]@ == DESIRED_KEYS@[95]@);
    assert(PROVIDER_DATA_FIELDS@[15]@ == DESIRED_KEYS@[96]@);
    assert(PROVIDER_DATA_FIELDS@[16]@ == DESIRED_KEYS@[97]@);
    assert(PROVIDER_DATA_FIELDS@[17]@ == DESIRED_KEYS@[98]@);
    assert(PROVIDER_DATA_FIELDS@[18]@ == DESIRED_KEYS@[99]@);
    assert(PROVIDER_DATA_FIELDS@[19]@ == DESIRED_KEYS@[100]@);
    assert(PROVIDER_DATA_FIELDS@[20]@ == DESIRED_KEYS@[74]@);
    assert(PROVIDER_DATA_FIELDS@[21]@ == DESIRED_KEYS@[75]@);
}

/// Each of the fields that have no place of their own is kept.
pub proof fn law_fields_without_a_place_are_kept(key: Seq<char>)
    requires
        key == "remappedRef"@ || key == "recordChangeTag"@ || key == "dataClassType"@ || key == "burstFlags"@ || key == "burstFlagsExt"@ || key == "assetHDRType"@ || key == "adjustmentRenderType"@ || key == "adjustmentType"@ || key == "adjustmentSimpleDataEnc"@ || key == "adjustedMediaMetaDataEnc"@ || key == "vidComplDurValue"@ || key == "vidComplDurScale"@ || key == "vidComplDispValue"@ || key == "vidComplDispScale"@ || key == "vidComplVisibilityState"@ || key == "customRenderedValue"@ || key == "containerId"@ || key == "itemId"@ || key == "position"@ || key == "isKeyAsset"@ || key == "assetSubtype"@ || key == "assetSubtypeV2"@,
    ensures
        exists|i: int|
            0 <= i < PROVIDER_DATA_FIELDS@.len() && (#[trigger] PROVIDER_DATA_FIELDS@[i])@ == key,
{
    assert(PROVIDER_DATA_FIELDS@[0]@ == "remappedRef"@);
    assert(PROVIDER_DATA_FIELDS@[1]@ == "recordChangeTag"@);
    assert(PROVIDER_DATA_FIELDS@[2]@ == "dataClassType"@);
    assert(PROVIDER_DATA_FIELDS@[3]@ == "burstFlags"@);
    assert(PROVIDER_DATA_FIELDS@[4]@ == "burstFlagsExt"@);
    assert(PROVIDER_DATA_FIELDS@[5]@ == "assetHDRType"@);
    assert(PROVIDER_DATA_FIELDS@[6]@ == "adjustmentRenderType"@);
    assert(PROVIDER_DATA_FIELDS@[7]@ == "adjustmentType"@);
    assert(PROVIDER_DATA_FIELDS@[8]@ == "adjustmentSimpleDataEnc"@);
    assert(PROVIDER_DATA_FIELDS@[9]@ == "adjustedMediaMetaDataEnc"@);
    assert(PROVIDER_DATA_FIELDS@[10]@ == "vidComplDurValue"@);
    assert(PROVIDER_DATA_FIELDS@[11]@ == "vidComplDurScale"@);
    assert(PROVIDER_DATA_FIELDS@[12]@ == "vidComplDispValue"@);
    assert(PROVIDER_DATA_FIELDS@[13]@ == "vidComplDispScale"@);
    assert(PROVIDER_DATA_FIELDS@[14]@ == "vidComplVisibilityState"@);
    assert(PROVIDER_DATA_FIELDS@[15]@ == "customRenderedValue"@);
    assert(PROVIDER_DATA_FIELDS@[16]@ == "containerId"@);
    assert(PROVIDER_DATA_FIELDS@[17]@ == "itemId"@);
    assert(PROVIDER_DATA_FIELDS@[18]@ == "position"@);
    assert(PROVIDER_DATA_FIELDS@[19]@ == "isKeyAsset"@);
    assert(PROVIDER_DATA_FIELDS@[20]@ == "assetSubtype"@);
    assert(PROVIDER_DATA_FIELDS@[21]@ == "assetSubtypeV2"@);
}

} // verus!
