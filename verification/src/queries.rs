//! Request bodies, field names and tables of the CloudKit queries.
use crate::json::{
    law_the_first_member_of_a_name_is_read, law_what_is_not_there_is_not_read, lemma_list_views,
    list_of, list_views, member, option_str_view, Json, JsonNumber, JsonView,
};
use crate::text::{
    bool_string, bool_text, decimal, decimal_text, digits_value,
    law_decimal_text_stands_for_its_number, law_signed_decimal_text_stands_for_its_number,
    lemma_text_le_antisymmetric, lemma_text_le_total, lemma_text_le_transitive, signed_decimal,
    signed_decimal_text, str_eq, str_le, text_le,
};
use crate::types::{AssetItemType, AssetVersionSize};
use vstd::prelude::*;

verus! {

/// The fields that every query asks for: what filenames, versions, checksums and metadata
/// are read from.
pub const DESIRED_KEYS: [&'static str; 101] = [
    "resJPEGFullWidth",
    "resJPEGFullHeight",
    "resJPEGFullFileType",
    "resJPEGFullFingerprint",
    "resJPEGFullRes",
    "resJPEGLargeWidth",
    "resJPEGLargeHeight",
    "resJPEGLargeFileType",
    "resJPEGLargeFingerprint",
    "resJPEGLargeRes",
    "resJPEGMedWidth",
    "resJPEGMedHeight",
    "resJPEGMedFileType",
    "resJPEGMedFingerprint",
    "resJPEGMedRes",
    "resJPEGThumbWidth",
    "resJPEGThumbHeight",
    "resJPEGThumbFileType",
    "resJPEGThumbFingerprint",
    "resJPEGThumbRes",
    "resVidFullWidth",
    "resVidFullHeight",
    "resVidFullFileType",
    "resVidFullFingerprint",
    "resVidFullRes",
    "resVidMedWidth",
    "resVidMedHeight",
    "resVidMedFileType",
    "resVidMedFingerprint",
    "resVidMedRes",
    "resVidSmallWidth",
    "resVidSmallHeight",
    "resVidSmallFileType",
    "resVidSmallFingerprint",
    "resVidSmallRes",
    "resSidecarWidth",
    "resSidecarHeight",
    "resSidecarFileType",
    "resSidecarFingerprint",
    "resSidecarRes",
    "itemType",
    "dataClassType",
    "filenameEnc",
    "originalOrientation",
    "resOriginalWidth",
    "resOriginalHeight",
    "resOriginalFileType",
    "resOriginalFingerprint",
    "resOriginalRes",
    "resOriginalAltWidth",
    "resOriginalAltHeight",
    "resOriginalAltFileType",
    "resOriginalAltFingerprint",
    "resOriginalAltRes",
    "resOriginalVidComplWidth",
    "resOriginalVidComplHeight",
    "resOriginalVidComplFileType",
    "resOriginalVidComplFingerprint",
    "resOriginalVidComplRes",
    "isDeleted",
    "isExpunged",
    "dateExpunged",
    "remappedRef",
    "recordName",
    "recordType",
    "recordChangeTag",
    "masterRef",
    "adjustmentRenderType",
    "assetDate",
    "addedDate",
    "isFavorite",
    "isHidden",
    "orientation",
    "duration",
    "assetSubtype",
    "assetSubtypeV2",
    "assetHDRType",
    "burstFlags",
    "burstFlagsExt",
    "burstId",
    "captionEnc",
    "locationEnc",
    "locationV2Enc",
    "locationLatitude",
    "locationLongitude",
    "adjustmentType",
    "timeZoneOffset",
    "vidComplDurValue",
    "vidComplDurScale",
    "vidComplDispValue",
    "vidComplDispScale",
    "keywordsEnc",
    "extendedDescEnc",
    "adjustedMediaMetaDataEnc",
    "adjustmentSimpleDataEnc",
    "vidComplVisibilityState",
    "customRenderedValue",
    "containerId",
    "itemId",
    "position",
    "isKeyAsset",
];

/// The uniform type identifiers of still images.
pub const IMAGE_TYPES: [&'static str; 17] = [
    "public.heic",
    "public.heif",
    "public.jpeg",
    "public.png",
    "com.adobe.raw-image",
    "com.canon.cr2-raw-image",
    "com.canon.crw-raw-image",
    "com.sony.arw-raw-image",
    "com.fuji.raw-image",
    "com.panasonic.rw2-raw-image",
    "com.nikon.nrw-raw-image",
    "com.pentax.raw-image",
    "com.nikon.raw-image",
    "com.olympus.raw-image",
    "com.canon.cr3-raw-image",
    "com.olympus.or-raw-image",
    "org.webmproject.webp",
];

/// The uniform type identifier of movies.
pub const MOVIE_TYPE: &'static str = "com.apple.quicktime-movie";

/// For a still image, each version's resource field and file type field.
pub const PHOTO_VERSION_LOOKUP: [(AssetVersionSize, &'static str, &'static str); 9] = [
    (AssetVersionSize::Original, "resOriginalRes", "resOriginalFileType"),
    (AssetVersionSize::Alternative, "resOriginalAltRes", "resOriginalAltFileType"),
    (AssetVersionSize::Medium, "resJPEGMedRes", "resJPEGMedFileType"),
    (AssetVersionSize::Thumb, "resJPEGThumbRes", "resJPEGThumbFileType"),
    (AssetVersionSize::Adjusted, "resJPEGFullRes", "resJPEGFullFileType"),
    (AssetVersionSize::LiveAdjusted, "resVidFullRes", "resVidFullFileType"),
    (AssetVersionSize::LiveOriginal, "resOriginalVidComplRes", "resOriginalVidComplFileType"),
    (AssetVersionSize::LiveMedium, "resVidMedRes", "resVidMedFileType"),
    (AssetVersionSize::LiveThumb, "resVidSmallRes", "resVidSmallFileType"),
];

/// For a movie, each version's resource field and file type field.
pub const VIDEO_VERSION_LOOKUP: [(AssetVersionSize, &'static str, &'static str); 4] = [
    (AssetVersionSize::Original, "resOriginalRes", "resOriginalFileType"),
    (AssetVersionSize::Adjusted, "resVidFullRes", "resVidFullFileType"),
    (AssetVersionSize::Medium, "resVidMedRes", "resVidMedFileType"),
    (AssetVersionSize::Thumb, "resVidSmallRes", "resVidSmallFileType"),
];

/// The type that a uniform type identifier stands for.
pub open spec fn item_type_named(s: Seq<char>) -> Option<AssetItemType> {
    if exists|i: int| 0 <= i < IMAGE_TYPES@.len() && #[trigger] IMAGE_TYPES@[i]@ == s {
        Some(AssetItemType::Image)
    } else if s == MOVIE_TYPE@ {
        Some(AssetItemType::Movie)
    } else {
        None
    }
}

/// The type that a uniform type identifier stands for.
pub fn item_type_from_str(s: &str) -> (item_type: Option<AssetItemType>)
    ensures
        item_type == item_type_named(s@),
{
    let types = IMAGE_TYPES;
    let mut i: usize = 0;
    while i < types.len()
        invariant
            types == IMAGE_TYPES,
            i <= types.len(),
            forall|j: int| 0 <= j < i ==> #[trigger] IMAGE_TYPES@[j]@ != s@,
        decreases types.len() - i,
    {
        if str_eq(types[i], s) {
            assert(IMAGE_TYPES@[i as int]@ == s@);
            return Some(AssetItemType::Image);
        }
        i = i + 1;
    }
    if str_eq(s, MOVIE_TYPE) {
        Some(AssetItemType::Movie)
    } else {
        None
    }
}

/// The views of the fields that every query asks for, as JSON texts.
pub open spec fn desired_key_views() -> Seq<JsonView> {
    DESIRED_KEYS@.map_values(|k: &'static str| JsonView::Text(k@))
}

/// The fields that every query asks for, as JSON texts.
pub fn desired_keys_values() -> (values: Vec<Json>)
    ensures
        list_views(values@) == desired_key_views(),
{
    let keys = DESIRED_KEYS;
    let mut values: Vec<Json> = Vec::new();
    let mut i: usize = 0;
    while i < keys.len()
        invariant
            keys == DESIRED_KEYS,
            i <= keys.len(),
            values.len() == i,
            list_views(values@) == desired_key_views().take(i as int),
        decreases keys.len() - i,
    {
        broadcast use lemma_list_views;

        let ghost before = values@;
        values.push(Json::text(keys[i]));
        proof {
            assert(values@.drop_last() =~= before);
            assert(desired_key_views().take(i + 1) =~= desired_key_views().take(i as int).push(
                desired_key_views()[i as int],
            ));
        }
        i = i + 1;
    }
    proof {
        assert(desired_key_views().take(i as int) =~= desired_key_views());
    }
    values
}

/// A query parameter. Any other JSON value stands as the text that it is written with.
pub enum ParamValue {
    Text(String),
    Flag(bool),
    Unsigned(u64),
    Negative(i64),
}

/// The text that a parameter is sent as.
pub open spec fn param_text(value: ParamValue) -> Seq<char> {
    match value {
        ParamValue::Text(s) => s@,
        ParamValue::Flag(b) => bool_text(b),
        ParamValue::Unsigned(n) => decimal_text(n as nat),
        ParamValue::Negative(n) => signed_decimal_text(n as int),
    }
}

/// The names and texts of a list of parameters.
pub open spec fn param_pairs(params: Seq<(String, ParamValue)>) -> Seq<(Seq<char>, Seq<char>)> {
    params.map_values(|p: (String, ParamValue)| (p.0@, param_text(p.1)))
}

/// The views of a list of pairs of texts.
pub open spec fn pair_views(pairs: Seq<(String, String)>) -> Seq<(Seq<char>, Seq<char>)> {
    pairs.map_values(|p: (String, String)| (p.0@, p.1@))
}

/// A list of pairs with one more put in behind the last whose name stands no later.
pub open spec fn insert_pair(
    pairs: Seq<(Seq<char>, Seq<char>)>,
    pair: (Seq<char>, Seq<char>),
) -> Seq<(Seq<char>, Seq<char>)>
    decreases pairs.len(),
{
    if pairs.len() == 0 || text_le(pairs.last().0, pair.0) {
        pairs.push(pair)
    } else {
        insert_pair(pairs.drop_last(), pair).push(pairs.last())
    }
}

/// A list of pairs in the order of their names.
pub open spec fn sorted_pairs(pairs: Seq<(Seq<char>, Seq<char>)>) -> Seq<(Seq<char>, Seq<char>)>
    decreases pairs.len(),
{
    if pairs.len() == 0 {
        Seq::empty()
    } else {
        insert_pair(sorted_pairs(pairs.drop_last()), pairs.last())
    }
}

/// The names stand in order.
pub open spec fn in_name_order(pairs: Seq<(Seq<char>, Seq<char>)>) -> bool {
    forall|i: int, j: int|
        #![trigger pairs[i], pairs[j]]
        0 <= i < j < pairs.len() ==> text_le(pairs[i].0, pairs[j].0)
}

/// No name stands twice.
pub open spec fn distinct_names(pairs: Seq<(Seq<char>, Seq<char>)>) -> bool {
    forall|i: int, j: int|
        #![trigger pairs[i], pairs[j]]
        0 <= i < j < pairs.len() ==> pairs[i].0 != pairs[j].0
}

/// The pairs in `application/x-www-form-urlencoded` form.
pub uninterp spec fn form_encoded(pairs: Seq<(Seq<char>, Seq<char>)>) -> Seq<char>;

/// `form_urlencoded::Serializer` of `url`, fed with `extend_pairs`: the pairs in their order,
/// percent-encoded and joined.
#[verifier::external_body]
fn form_encode(pairs: &Vec<(String, String)>) -> (encoded: String)
    ensures
        encoded@ == form_encoded(pair_views(pairs@)),
{
    url::form_urlencoded::Serializer::new(String::new()).extend_pairs(pairs).finish()
}

/// Where a pair is put in: behind `at` pairs, of which the last stands no later.
proof fn lemma_insert_pair(
    pairs: Seq<(Seq<char>, Seq<char>)>,
    pair: (Seq<char>, Seq<char>),
    at: int,
)
    requires
        0 <= at <= pairs.len(),
        at == 0 || text_le(pairs[at - 1].0, pair.0),
        forall|j: int| at <= j < pairs.len() ==> !text_le((#[trigger] pairs[j]).0, pair.0),
    ensures
        insert_pair(pairs, pair) == pairs.insert(at, pair),
    decreases pairs.len(),
{
    if at == pairs.len() {
        assert(pairs.insert(at, pair) =~= pairs.push(pair));
    } else {
        lemma_insert_pair(pairs.drop_last(), pair, at);
        assert(pairs.insert(at, pair) =~= pairs.drop_last().insert(at, pair).push(pairs.last()));
    }
}

/// Putting a pair in keeps the order.
proof fn lemma_insert_pair_sorted(
    pairs: Seq<(Seq<char>, Seq<char>)>,
    pair: (Seq<char>, Seq<char>),
)
    requires
        in_name_order(pairs),
    ensures
        in_name_order(insert_pair(pairs, pair)),
        insert_pair(pairs, pair).to_multiset() == pairs.to_multiset().insert(pair),
        forall|i: int|
            #![trigger insert_pair(pairs, pair)[i]]
            0 <= i < insert_pair(pairs, pair).len() ==> insert_pair(pairs, pair)[i] == pair
                || pairs.contains(insert_pair(pairs, pair)[i]),
    decreases pairs.len(),
{
    broadcast use vstd::seq_lib::group_to_multiset_ensures;

    let new = insert_pair(pairs, pair);
    if pairs.len() == 0 || text_le(pairs.last().0, pair.0) {
        assert forall|i: int, j: int|
            #![trigger new[i], new[j]]
            0 <= i < j < new.len() implies text_le(new[i].0, new[j].0) by {
            if j == new.len() - 1 {
                if i < pairs.len() - 1 {
                    assert(text_le(pairs[i].0, pairs[pairs.len() - 1].0));
                    lemma_text_le_transitive(pairs[i].0, pairs.last().0, pair.0);
                }
            } else {
                assert(text_le(pairs[i].0, pairs[j].0));
            }
        }
        assert forall|i: int| #![trigger new[i]] 0 <= i < new.len() implies new[i] == pair
            || pairs.contains(new[i]) by {
            if i < pairs.len() {
                assert(new[i] == pairs[i]);
            }
        }
    } else {
        let front = pairs.drop_last();
        assert forall|i: int, j: int|
            #![trigger front[i], front[j]]
            0 <= i < j < front.len() implies text_le(front[i].0, front[j].0) by {
            assert(text_le(pairs[i].0, pairs[j].0));
        }
        lemma_insert_pair_sorted(front, pair);
        let head = insert_pair(front, pair);
        lemma_text_le_total(pairs.last().0, pair.0);
        assert forall|i: int| 0 <= i < head.len() implies text_le(
            (#[trigger] head[i]).0,
            pairs.last().0,
        ) by {
            if head[i] != pair {
                let k = choose|k: int| 0 <= k < front.len() && front[k] == head[i];
                assert(text_le(pairs[k].0, pairs[pairs.len() - 1].0));
            }
        }
        assert forall|i: int, j: int|
            #![trigger new[i], new[j]]
            0 <= i < j < new.len() implies text_le(new[i].0, new[j].0) by {
            if j == new.len() - 1 {
                assert(text_le(head[i].0, pairs.last().0));
            } else {
                assert(text_le(head[i].0, head[j].0));
            }
        }
        assert(pairs =~= front.push(pairs.last()));
        assert(new.to_multiset() =~= pairs.to_multiset().insert(pair));
        assert forall|i: int| #![trigger new[i]] 0 <= i < new.len() implies new[i] == pair
            || pairs.contains(new[i]) by {
            if i < head.len() {
                assert(new[i] == head[i]);
                if head[i] != pair {
                    let k = choose|k: int| 0 <= k < front.len() && front[k] == head[i];
                    assert(pairs[k] == new[i]);
                }
            } else {
                assert(new[i] == pairs[pairs.len() - 1]);
            }
        }
    }
}

/// Parameters are sent in the order of their names, each of them once.
pub proof fn law_params_sorted(pairs: Seq<(Seq<char>, Seq<char>)>)
    ensures
        in_name_order(sorted_pairs(pairs)),
        sorted_pairs(pairs).to_multiset() == pairs.to_multiset(),
    decreases pairs.len(),
{
    broadcast use vstd::seq_lib::group_to_multiset_ensures;

    if pairs.len() > 0 {
        law_params_sorted(pairs.drop_last());
        lemma_insert_pair_sorted(sorted_pairs(pairs.drop_last()), pairs.last());
        assert(pairs =~= pairs.drop_last().push(pairs.last()));
    } else {
        assert(sorted_pairs(pairs) =~= pairs);
    }
}

/// Pairs in the order of their names, then of their texts.
pub open spec fn pair_le(a: (Seq<char>, Seq<char>), b: (Seq<char>, Seq<char>)) -> bool {
    if a.0 == b.0 {
        text_le(a.1, b.1)
    } else {
        text_le(a.0, b.0)
    }
}

/// The order of pairs is a total one.
proof fn lemma_pair_le_total()
    ensures
        vstd::relations::total_ordering(
            |a: (Seq<char>, Seq<char>), b: (Seq<char>, Seq<char>)| pair_le(a, b),
        ),
{
    let r = |a: (Seq<char>, Seq<char>), b: (Seq<char>, Seq<char>)| pair_le(a, b);
    assert forall|x: (Seq<char>, Seq<char>)| #[trigger] r(x, x) by {
        lemma_text_le_total(x.1, x.1);
    }
    assert forall|x: (Seq<char>, Seq<char>), y: (Seq<char>, Seq<char>)| #[trigger]
        r(x, y) && #[trigger] r(y, x) implies x == y by {
        if x.0 == y.0 {
            lemma_text_le_antisymmetric(x.1, y.1);
        } else {
            lemma_text_le_antisymmetric(x.0, y.0);
        }
    }
    assert forall|
        x: (Seq<char>, Seq<char>),
        y: (Seq<char>, Seq<char>),
        z: (Seq<char>, Seq<char>),
    | #[trigger]
        r(x, y) && #[trigger] r(y, z) implies r(x, z) by {
        if x.0 == y.0 && y.0 == z.0 {
            lemma_text_le_transitive(x.1, y.1, z.1);
        } else if x.0 != y.0 && y.0 != z.0 {
            lemma_text_le_transitive(x.0, y.0, z.0);
            if x.0 == z.0 {
                lemma_text_le_antisymmetric(x.0, y.0);
            }
        }
    }
    assert forall|x: (Seq<char>, Seq<char>), y: (Seq<char>, Seq<char>)| #[trigger]
        r(x, y) || #[trigger] r(y, x) by {
        lemma_text_le_total(x.0, y.0);
        lemma_text_le_total(x.1, y.1);
    }
}

/// Pairs with distinct names are still distinct by name in another order.
proof fn lemma_sorted_distinct(pairs: Seq<(Seq<char>, Seq<char>)>)
    requires
        distinct_names(pairs),
    ensures
        distinct_names(sorted_pairs(pairs)),
{
    broadcast use vstd::seq_lib::group_to_multiset_ensures;

    law_params_sorted(pairs);
    let sorted = sorted_pairs(pairs);
    assert(pairs.no_duplicates());
    pairs.lemma_multiset_has_no_duplicates();
    sorted.lemma_multiset_has_no_duplicates_conv();
    assert forall|i: int, j: int|
        #![trigger sorted[i], sorted[j]]
        0 <= i < j < sorted.len() implies sorted[i].0 != sorted[j].0 by {
        assert(sorted.contains(sorted[i]));
        assert(sorted.contains(sorted[j]));
        assert(sorted.to_multiset().count(sorted[i]) > 0);
        assert(sorted.to_multiset().count(sorted[j]) > 0);
        assert(pairs.to_multiset().count(sorted[i]) > 0);
        assert(pairs.to_multiset().count(sorted[j]) > 0);
        let a = choose|a: int| 0 <= a < pairs.len() && pairs[a] == sorted[i];
        let b = choose|b: int| 0 <= b < pairs.len() && pairs[b] == sorted[j];
        assert(sorted[i] != sorted[j]);
        if a < b {
            assert(pairs[a].0 != pairs[b].0);
        } else {
            assert(pairs[b].0 != pairs[a].0);
        }
    }
}

/// The encoding of parameters does not depend on the order in which they were collected:
/// two lists of the same distinctly named parameters are sent alike.
pub proof fn law_params_order_free(
    a: Seq<(Seq<char>, Seq<char>)>,
    b: Seq<(Seq<char>, Seq<char>)>,
)
    requires
        distinct_names(a),
        distinct_names(b),
        a.to_multiset() == b.to_multiset(),
    ensures
        form_encoded(sorted_pairs(a)) == form_encoded(sorted_pairs(b)),
{
    let r = |x: (Seq<char>, Seq<char>), y: (Seq<char>, Seq<char>)| pair_le(x, y);
    law_params_sorted(a);
    law_params_sorted(b);
    lemma_sorted_distinct(a);
    lemma_sorted_distinct(b);
    lemma_pair_le_total();
    vstd::seq_lib::lemma_sorted_unique(sorted_pairs(a), sorted_pairs(b), r);
}

/// The text that a parameter is sent as.
fn param_string(value: &ParamValue) -> (s: String)
    ensures
        s@ == param_text(*value),
{
    match value {
        ParamValue::Text(s) => s.clone(),
        ParamValue::Flag(b) => bool_string(*b),
        ParamValue::Unsigned(n) => decimal(*n),
        ParamValue::Negative(n) => signed_decimal(*n),
    }
}

/// The query string of a request: the parameters in the order of their names.
pub fn encode_params(params: &Vec<(String, ParamValue)>) -> (encoded: String)
    ensures
        encoded@ == form_encoded(sorted_pairs(param_pairs(params@))),
{
    let mut pairs: Vec<(String, String)> = Vec::new();
    let ghost views = param_pairs(params@);
    let mut i: usize = 0;
    while i < params.len()
        invariant
            i <= params.len(),
            pairs.len() == i,
            views == param_pairs(params@),
            pair_views(pairs@) =~= sorted_pairs(views.take(i as int)),
            in_name_order(pair_views(pairs@)),
        decreases params.len() - i,
    {
        let name = params[i].0.clone();
        let value = param_string(&params[i].1);
        let ghost before = pair_views(pairs@);
        let ghost pair = (name@, value@);
        let mut at: usize = pairs.len();
        while at > 0 && !str_le(&pairs[at - 1].0, &name)
            invariant
                at <= pairs.len(),
                before == pair_views(pairs@),
                pair.0 == name@,
                forall|j: int| at <= j < pairs.len() ==> !text_le((#[trigger] before[j]).0, pair.0),
            decreases at,
        {
            at = at - 1;
        }
        pairs.insert(at, (name, value));
        proof {
            lemma_insert_pair(before, pair, at as int);
            assert(pair_views(pairs@) =~= before.insert(at as int, pair));
            assert(views.take(i + 1).drop_last() =~= views.take(i as int));
            assert(views.take(i + 1).last() == pair);
            lemma_insert_pair_sorted(before, pair);
        }
        i = i + 1;
    }
    proof {
        assert(views.take(i as int) =~= views);
    }
    form_encode(&pairs)
}

/// The body of a `/changes/database` request: everything without a token, what changed
/// since with one.
pub open spec fn changes_database_body(sync_token: Option<Seq<char>>) -> JsonView {
    match sync_token {
        Some(token) => JsonView::Object(seq![("syncToken"@, JsonView::Text(token))]),
        None => JsonView::Object(seq![]),
    }
}

/// Build the body of a `/changes/database` request.
pub fn build_changes_database_request(sync_token: Option<&str>) -> (body: Json)
    ensures
        body@ == changes_database_body(option_str_view(sync_token)),
{
    match sync_token {
        Some(token) => Json::empty_object().with("syncToken", Json::text(token)),
        None => Json::empty_object(),
    }
}

/// The entry for one zone in the body of a `/changes/zone` request.
pub open spec fn zone_request_entry(
    zone_id: JsonView,
    sync_token: Option<Seq<char>>,
    results_limit: u32,
) -> JsonView {
    let base = seq![
        ("zoneID"@, zone_id),
        ("resultsLimit"@, JsonView::Number(JsonNumber::Unsigned(results_limit as u64))),
    ];
    match sync_token {
        Some(token) => JsonView::Object(base.push(("syncToken"@, JsonView::Text(token)))),
        None => JsonView::Object(base),
    }
}

/// The body of a `/changes/zone` request. No token asks for the full history; an empty one
/// would ask for nothing.
pub open spec fn changes_zone_body(
    zone_id: JsonView,
    sync_token: Option<Seq<char>>,
    results_limit: u32,
) -> JsonView {
    JsonView::Object(
        seq![("zones"@, JsonView::List(seq![zone_request_entry(zone_id, sync_token, results_limit)]))],
    )
}

/// Build the body of a `/changes/zone` request.
pub fn build_changes_zone_request(
    zone_id: &Json,
    sync_token: Option<&str>,
    results_limit: u32,
) -> (body: Json)
    ensures
        body@ == changes_zone_body(zone_id@, option_str_view(sync_token), results_limit),
{
    broadcast use lemma_list_views;

    let base = Json::empty_object().with("zoneID", zone_id.duplicate()).with(
        "resultsLimit",
        Json::unsigned(results_limit as u64),
    );
    let entry = match sync_token {
        Some(token) => base.with("syncToken", Json::text(token)),
        None => base,
    };
    let zones = vec![entry];
    let body = Json::empty_object().with("zones", Json::list(zones));
    proof {
        let spec_entry = zone_request_entry(zone_id@, option_str_view(sync_token), results_limit);
        match (entry@, spec_entry) {
            (JsonView::Object(a), JsonView::Object(b)) => {
                assert(a =~= b);
            },
            _ => {},
        }
        assert(list_views(zones@) =~= seq![spec_entry]);
        match (body@, changes_zone_body(zone_id@, option_str_view(sync_token), results_limit)) {
            (JsonView::Object(a), JsonView::Object(b)) => {
                assert(a =~= b);
            },
            _ => {},
        }
    }
    body
}

/// The change feed of the database is asked for from a token on, where there is one, and from
/// its beginning where there is none.
pub proof fn law_the_database_is_asked_from_its_token_on(token: Seq<char>)
    ensures
        member(changes_database_body(Some(token)), "syncToken"@) == Some(JsonView::Text(token)),
        changes_database_body(None) == JsonView::Object(Seq::empty()),
{
    let members = seq![("syncToken"@, JsonView::Text(token))];
    law_the_first_member_of_a_name_is_read(members, "syncToken"@, 0);
}

/// The change feed of a zone is asked for by that zone alone, with the limit that was given,
/// from the token on; where there is none, no token is sent, not even an empty one.
pub proof fn law_a_zone_is_asked_from_its_token_on(
    zone_id: JsonView,
    sync_token: Option<Seq<char>>,
    results_limit: u32,
)
    ensures
        ({
            let zones = list_of(member(changes_zone_body(zone_id, sync_token, results_limit), "zones"@));
            &&& zones is Some
            &&& zones->0.len() == 1
            &&& zones->0[0] is Object
            &&& zones->0[0]->Object_0.len() == if sync_token is Some {
                3int
            } else {
                2
            }
            &&& member(zones->0[0], "zoneID"@) == Some(zone_id)
            &&& member(zones->0[0], "resultsLimit"@) == Some(
                JsonView::Number(JsonNumber::Unsigned(results_limit as u64)),
            )
            &&& match sync_token {
                Some(token) => member(zones->0[0], "syncToken"@) == Some(JsonView::Text(token)),
                None => member(zones->0[0], "syncToken"@) is None,
            }
        }),
{
    reveal_strlit("zoneID");
    reveal_strlit("resultsLimit");
    reveal_strlit("syncToken");
    assert("zoneID"@.len() == 6 && "resultsLimit"@.len() == 12 && "syncToken"@.len() == 9);
    let body = changes_zone_body(zone_id, sync_token, results_limit);
    law_the_first_member_of_a_name_is_read(body->Object_0, "zones"@, 0);
    let entry = zone_request_entry(zone_id, sync_token, results_limit);
    let members = entry->Object_0;
    law_the_first_member_of_a_name_is_read(members, "zoneID"@, 0);
    law_the_first_member_of_a_name_is_read(members, "resultsLimit"@, 1);
    if sync_token is Some {
        law_the_first_member_of_a_name_is_read(members, "syncToken"@, 2);
    } else {
        law_what_is_not_there_is_not_read(entry, "syncToken"@);
    }
}

/// A parameter is sent as what it is: a text as it is, a flag by its word, a number in decimal.
pub proof fn law_parameters_are_sent_as_what_they_are(s: String, b: bool, n: u64, m: i64)
    ensures
        param_text(ParamValue::Text(s)) == s@,
        param_text(ParamValue::Flag(true)) == "true"@,
        param_text(ParamValue::Flag(false)) == "false"@,
        digits_value(param_text(ParamValue::Unsigned(n))) == n,
        m >= 0 ==> digits_value(param_text(ParamValue::Negative(m))) == m,
        m < 0 ==> param_text(ParamValue::Negative(m))[0] == '-' && digits_value(
            param_text(ParamValue::Negative(m)).drop_first(),
        ) == -m,
{
    law_decimal_text_stands_for_its_number(n as nat);
    law_signed_decimal_text_stands_for_its_number(m as int);
}

/// A uniform type identifier stands for a still image where it is one of their list, for a
/// movie where it is the one of movies, and for nothing otherwise.
pub proof fn law_type_identifiers_stand_for_kinds(name: Seq<char>)
    ensures
        item_type_named(name) == Some(AssetItemType::Image) <==> exists|i: int|
            0 <= i < IMAGE_TYPES@.len() && (#[trigger] IMAGE_TYPES@[i])@ == name,
        item_type_named(name) == Some(AssetItemType::Movie) ==> name
            == "com.apple.quicktime-movie"@,
        item_type_named(name) is None ==> name != "com.apple.quicktime-movie"@,
{
}

/// Whether a field is among those that every query asks for.
pub open spec fn is_asked_for(key: Seq<char>) -> bool {
    exists|i: int| 0 <= i < DESIRED_KEYS@.len() && (#[trigger] DESIRED_KEYS@[i])@ == key
}

/// Every resource that a version is read from is asked for, and the type of its file with it.
pub proof fn law_every_version_is_asked_for(row: int)
    ensures
        0 <= row < PHOTO_VERSION_LOOKUP@.len() ==> is_asked_for(PHOTO_VERSION_LOOKUP@[row].1@)
            && is_asked_for(PHOTO_VERSION_LOOKUP@[row].2@),
        0 <= row < VIDEO_VERSION_LOOKUP@.len() ==> is_asked_for(VIDEO_VERSION_LOOKUP@[row].1@)
            && is_asked_for(VIDEO_VERSION_LOOKUP@[row].2@),
{
    assert(DESIRED_KEYS@[48]@ == "resOriginalRes"@);
    assert(DESIRED_KEYS@[46]@ == "resOriginalFileType"@);
    assert(DESIRED_KEYS@[53]@ == "resOriginalAltRes"@);
    assert(DESIRED_KEYS@[51]@ == "resOriginalAltFileType"@);
    assert(DESIRED_KEYS@[14]@ == "resJPEGMedRes"@);
    assert(DESIRED_KEYS@[12]@ == "resJPEGMedFileType"@);
    assert(DESIRED_KEYS@[19]@ == "resJPEGThumbRes"@);
    assert(DESIRED_KEYS@[17]@ == "resJPEGThumbFileType"@);
    assert(DESIRED_KEYS@[4]@ == "resJPEGFullRes"@);
    assert(DESIRED_KEYS@[2]@ == "resJPEGFullFileType"@);
    assert(DESIRED_KEYS@[24]@ == "resVidFullRes"@);
    assert(DESIRED_KEYS@[22]@ == "resVidFullFileType"@);
    assert(DESIRED_KEYS@[58]@ == "resOriginalVidComplRes"@);
    assert(DESIRED_KEYS@[56]@ == "resOriginalVidComplFileType"@);
    assert(DESIRED_KEYS@[29]@ == "resVidMedRes"@);
    assert(DESIRED_KEYS@[27]@ == "resVidMedFileType"@);
    assert(DESIRED_KEYS@[34]@ == "resVidSmallRes"@);
    assert(DESIRED_KEYS@[32]@ == "resVidSmallFileType"@);
}

/// Every field that a photo or its metadata are read from is asked for.
pub proof fn law_every_field_that_is_read_is_asked_for()
    ensures
        is_asked_for("masterRef"@),
        is_asked_for("itemType"@),
        is_asked_for("filenameEnc"@),
        is_asked_for("assetDate"@),
        is_asked_for("addedDate"@),
        is_asked_for("isFavorite"@),
        is_asked_for("isHidden"@),
        is_asked_for("isDeleted"@),
        is_asked_for("isExpunged"@),
        is_asked_for("dateExpunged"@),
        is_asked_for("locationV2Enc"@),
        is_asked_for("locationEnc"@),
        is_asked_for("locationLatitude"@),
        is_asked_for("locationLongitude"@),
        is_asked_for("orientation"@),
        is_asked_for("originalOrientation"@),
        is_asked_for("duration"@),
        is_asked_for("timeZoneOffset"@),
        is_asked_for("resOriginalWidth"@),
        is_asked_for("resOriginalHeight"@),
        is_asked_for("captionEnc"@),
        is_asked_for("extendedDescEnc"@),
        is_asked_for("keywordsEnc"@),
        is_asked_for("burstId"@),
        is_asked_for("assetSubtypeV2"@),
        is_asked_for("assetSubtype"@),
{
    assert(DESIRED_KEYS@[66]@ == "masterRef"@);
    assert(DESIRED_KEYS@[40]@ == "itemType"@);
    assert(DESIRED_KEYS@[42]@ == "filenameEnc"@);
    assert(DESIRED_KEYS@[68]@ == "assetDate"@);
    assert(DESIRED_KEYS@[69]@ == "addedDate"@);
    assert(DESIRED_KEYS@[70]@ == "isFavorite"@);
    assert(DESIRED_KEYS@[71]@ == "isHidden"@);
    assert(DESIRED_KEYS@[59]@ == "isDeleted"@);
    assert(DESIRED_KEYS@[60]@ == "isExpunged"@);
    assert(DESIRED_KEYS@[61]@ == "dateExpunged"@);
    assert(DESIRED_KEYS@[82]@ == "locationV2Enc"@);
    assert(DESIRED_KEYS@[81]@ == "locationEnc"@);
    assert(DESIRED_KEYS@[83]@ == "locationLatitude"@);
    assert(DESIRED_KEYS@[84]@ == "locationLongitude"@);
    assert(DESIRED_KEYS@[72]@ == "orientation"@);
    assert(DESIRED_KEYS@[43]@ == "originalOrientation"@);
    assert(DESIRED_KEYS@[73]@ == "duration"@);
    assert(DESIRED_KEYS@[86]@ == "timeZoneOffset"@);
    assert(DESIRED_KEYS@[44]@ == "resOriginalWidth"@);
    assert(DESIRED_KEYS@[45]@ == "resOriginalHeight"@);
    assert(DESIRED_KEYS@[80]@ == "captionEnc"@);
    assert(DESIRED_KEYS@[92]@ == "extendedDescEnc"@);
    assert(DESIRED_KEYS@[91]@ == "keywordsEnc"@);
    assert(DESIRED_KEYS@[79]@ == "burstId"@);
    assert(DESIRED_KEYS@[75]@ == "assetSubtypeV2"@);
    assert(DESIRED_KEYS@[74]@ == "assetSubtype"@);
}

/// Every type identifier of a still image stands for one.
pub proof fn law_known_identifiers_stand_for_still_images()
    ensures
        item_type_named("public.heic"@) == Some(AssetItemType::Image),
        item_type_named("public.heif"@) == Some(AssetItemType::Image),
        item_type_named("public.jpeg"@) == Some(AssetItemType::Image),
        item_type_named("public.png"@) == Some(AssetItemType::Image),
        item_type_named("com.adobe.raw-image"@) == Some(AssetItemType::Image),
        item_type_named("com.canon.cr2-raw-image"@) == Some(AssetItemType::Image),
        item_type_named("com.canon.crw-raw-image"@) == Some(AssetItemType::Image),
        item_type_named("com.sony.arw-raw-image"@) == Some(AssetItemType::Image),
        item_type_named("com.fuji.raw-image"@) == Some(AssetItemType::Image),
        item_type_named("com.panasonic.rw2-raw-image"@) == Some(AssetItemType::Image),
        item_type_named("com.nikon.nrw-raw-image"@) == Some(AssetItemType::Image),
        item_type_named("com.pentax.raw-image"@) == Some(AssetItemType::Image),
        item_type_named("com.nikon.raw-image"@) == Some(AssetItemType::Image),
        item_type_named("com.olympus.raw-image"@) == Some(AssetItemType::Image),
        item_type_named("com.canon.cr3-raw-image"@) == Some(AssetItemType::Image),
        item_type_named("com.olympus.or-raw-image"@) == Some(AssetItemType::Image),
        item_type_named("org.webmproject.webp"@) == Some(AssetItemType::Image),
{
    assert(IMAGE_TYPES@[0]@ == "public.heic"@);
    assert(IMAGE_TYPES@[1]@ == "public.heif"@);
    assert(IMAGE_TYPES@[2]@ == "public.jpeg"@);
    assert(IMAGE_TYPES@[3]@ == "public.png"@);
    assert(IMAGE_TYPES@[4]@ == "com.adobe.raw-image"@);
    assert(IMAGE_TYPES@[5]@ == "com.canon.cr2-raw-image"@);
    assert(IMAGE_TYPES@[6]@ == "com.canon.crw-raw-image"@);
    assert(IMAGE_TYPES@[7]@ == "com.sony.arw-raw-image"@);
    assert(IMAGE_TYPES@[8]@ == "com.fuji.raw-image"@);
    assert(IMAGE_TYPES@[9]@ == "com.panasonic.rw2-raw-image"@);
    assert(IMAGE_TYPES@[10]@ == "com.nikon.nrw-raw-image"@);
    assert(IMAGE_TYPES@[11]@ == "com.pentax.raw-image"@);
    assert(IMAGE_TYPES@[12]@ == "com.nikon.raw-image"@);
    assert(IMAGE_TYPES@[13]@ == "com.olympus.raw-image"@);
    assert(IMAGE_TYPES@[14]@ == "com.canon.cr3-raw-image"@);
    assert(IMAGE_TYPES@[15]@ == "com.olympus.or-raw-image"@);
    assert(IMAGE_TYPES@[16]@ == "org.webmproject.webp"@);
}

} // verus!
