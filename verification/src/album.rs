//! Albums: the queries that list and count them, the change feed of their zones, and the
//! members that live in other zones.
use crate::asset::{PhotoAsset, PhotoAssetView};
use crate::cloudkit::{record_views, ChangesZoneResult, QueryResponse, Record, RecordView};
use crate::delta::{
    delta_run, delta_step, event_views, is_flush, nothing_pending, ChangeEvent,
    DeltaRecordBuffer, EventView, PendingView,
};
use crate::json::{
    field, law_the_first_member_of_a_name_is_read, lemma_list_views, list_of, list_views, member,
    member_of, option_str_view, text_of, unsigned_of, Json, JsonNumber, JsonView,
};
use crate::queries::{
    desired_key_views, desired_keys_values, distinct_names, encode_params, form_encoded,
    law_params_order_free, param_pairs, sorted_pairs, ParamValue, DESIRED_KEYS,
};
use crate::session::{check_changes_zone_error, zone_error, SyncTokenError, TokenErrorView};
use crate::tables::{
    empty_table, found, keyed, nothing, table_get, table_insert, table_is_empty, table_remove,
};
use crate::text::{
    contains_text, decimal, decimal_text, occurs_at, option_view, str_eq, text_views,
};
use rustc_hash::FxHashMap;
use vstd::prelude::*;

verus! {

/// How many assets a page holds where nothing else is said.
pub const DEFAULT_PAGE_SIZE: usize = 100;

/// The query that lists a library.
pub const QUERY_ALL_LIST: &'static str = "CPLAssetAndMasterByAssetDateWithoutHiddenOrDeleted";

/// The query that counts a library.
pub const QUERY_ALL_OBJ: &'static str = "CPLAssetByAssetDateWithoutHiddenOrDeleted";

/// The query that lists a folder.
pub const QUERY_FOLDER_LIST: &'static str = "CPLContainerRelationLiveByAssetDate";

/// What an album is, without the session that it is read through.
pub struct PhotoAlbumConfig {
    pub params: Vec<(String, ParamValue)>,
    pub service_endpoint: String,
    pub name: String,
    pub list_type: String,
    pub obj_type: String,
    pub query_filter: Option<Json>,
    pub page_size: usize,
    pub zone_id: Json,
    pub container_id: Option<String>,
}

/// A [`PhotoAlbumConfig`] with its texts taken by their characters, and its parameters by
/// what is sent of them.
#[verifier::ext_equal]
pub struct AlbumView {
    pub params: Seq<(Seq<char>, Seq<char>)>,
    pub service_endpoint: Seq<char>,
    pub name: Seq<char>,
    pub list_type: Seq<char>,
    pub obj_type: Seq<char>,
    pub query_filter: Option<JsonView>,
    pub page_size: usize,
    pub zone_id: JsonView,
    pub container_id: Option<Seq<char>>,
}

impl View for PhotoAlbumConfig {
    type V = AlbumView;

    open spec fn view(&self) -> AlbumView {
        AlbumView {
            params: param_pairs(self.params@),
            service_endpoint: self.service_endpoint@,
            name: self.name@,
            list_type: self.list_type@,
            obj_type: self.obj_type@,
            query_filter: match self.query_filter {
                Some(filter) => Some(filter@),
                None => None,
            },
            page_size: self.page_size,
            zone_id: self.zone_id@,
            container_id: option_view(self.container_id),
        }
    }
}

/// The album that is a whole library.
pub open spec fn whole_library(
    params: Seq<(Seq<char>, Seq<char>)>,
    service_endpoint: Seq<char>,
    zone_id: JsonView,
    page_size: usize,
) -> AlbumView {
    AlbumView {
        params,
        service_endpoint,
        name: Seq::empty(),
        list_type: QUERY_ALL_LIST@,
        obj_type: QUERY_ALL_OBJ@,
        query_filter: None,
        page_size,
        zone_id,
        container_id: None,
    }
}

/// The name of a zone, or nothing.
pub open spec fn zone_name_of(zone_id: JsonView) -> Seq<char> {
    match text_of(member(zone_id, "zoneName"@)) {
        Some(name) => name,
        None => Seq::empty(),
    }
}

/// The URL of a request.
pub open spec fn url_of(
    endpoint: Seq<char>,
    path: Seq<char>,
    params: Seq<(String, ParamValue)>,
) -> Seq<char> {
    endpoint + path + "?"@ + form_encoded(sorted_pairs(param_pairs(params)))
}

/// The URL of a request.
pub fn request_url(endpoint: &str, path: &str, params: &Vec<(String, ParamValue)>) -> (url: String)
    ensures
        url@ == url_of(endpoint@, path@, params@),
{
    let mut url = endpoint.to_owned();
    url.append(path);
    url.append("?");
    url.append(&encode_params(params));
    url
}

/// A copy of a list of parameters.
pub(crate) fn copy_params(params: &Vec<(String, ParamValue)>) -> (copy: Vec<(String, ParamValue)>)
    ensures
        param_pairs(copy@) == param_pairs(params@),
{
    let mut copy: Vec<(String, ParamValue)> = Vec::new();
    let mut i: usize = 0;
    while i < params.len()
        invariant
            i <= params@.len(),
            param_pairs(copy@) =~= param_pairs(params@).take(i as int),
        decreases params@.len() - i,
    {
        let value = match &params[i].1 {
            ParamValue::Text(s) => ParamValue::Text(s.clone()),
            ParamValue::Flag(b) => ParamValue::Flag(*b),
            ParamValue::Unsigned(n) => ParamValue::Unsigned(*n),
            ParamValue::Negative(n) => ParamValue::Negative(*n),
        };
        let ghost before = param_pairs(copy@);
        copy.push((params[i].0.clone(), value));
        assert(param_pairs(copy@) =~= before.push(param_pairs(params@)[i as int]));
        i = i + 1;
    }
    proof {
        assert(param_pairs(params@).take(i as int) =~= param_pairs(params@));
    }
    copy
}

impl PhotoAlbumConfig {
    /// The name of the zone that the album belongs to.
    pub fn zone_name(&self) -> (name: &str)
        ensures
            name@ == zone_name_of(self.zone_id@),
    {
        proof {
            reveal_strlit("");
            assert(""@ =~= Seq::<char>::empty());
        }
        match self.zone_id.get_str("zoneName") {
            Some(name) => name,
            None => "",
        }
    }

    /// The container that the album is, where it is one.
    pub fn container_id(&self) -> (id: Option<&str>)
        ensures
            option_str_view(id) == option_view(self.container_id),
    {
        match &self.container_id {
            Some(id) => Some(id.as_str()),
            None => None,
        }
    }

    /// Whether the album may have members in the zones that are at hand beside its own.
    pub fn has_cross_zone_hydration(&self, sources: usize) -> (yes: bool)
        ensures
            yes == (self.container_id is Some && sources > 0),
    {
        self.container_id.is_some() && sources > 0
    }

    /// The whole library that the album is part of.
    pub fn clone_as_library_wide(&self) -> (library: PhotoAlbumConfig)
        ensures
            library@ == whole_library(
                self@.params,
                self@.service_endpoint,
                self@.zone_id,
                self@.page_size,
            ),
    {
        PhotoAlbumConfig {
            params: copy_params(&self.params),
            service_endpoint: self.service_endpoint.clone(),
            name: String::new(),
            list_type: QUERY_ALL_LIST.to_owned(),
            obj_type: QUERY_ALL_OBJ.to_owned(),
            query_filter: None,
            page_size: self.page_size,
            zone_id: self.zone_id.duplicate(),
            container_id: None,
        }
    }

    /// The query for a page of the album.
    pub fn list_query(&self, offset: u64, direction: &str) -> (query: Json)
        requires
            self.page_size * 2 <= usize::MAX,
        ensures
            query@ == list_query_body(
                self.list_type@,
                match self.query_filter {
                    Some(filter) => Some(filter@),
                    None => None,
                },
                self.page_size as int,
                self.zone_id@,
                offset,
                direction@,
            ),
    {
        build_list_query(
            &self.list_type,
            &self.query_filter,
            self.page_size,
            &self.zone_id,
            offset,
            direction,
        )
    }
}

// Queries.

/// A condition of a query.
pub open spec fn condition(
    field_name: Seq<char>,
    kind: Seq<char>,
    value: JsonView,
    comparator: Seq<char>,
) -> JsonView {
    JsonView::Object(
        seq![
            ("fieldName"@, JsonView::Text(field_name)),
            (
                "fieldValue"@,
                JsonView::Object(seq![("type"@, JsonView::Text(kind)), ("value"@, value)]),
            ),
            ("comparator"@, JsonView::Text(comparator)),
        ],
    )
}

/// A condition of a query.
pub fn build_condition(field_name: &str, kind: &str, value: Json, comparator: &str) -> (json: Json)
    ensures
        json@ == condition(field_name@, kind@, value@, comparator@),
{
    let ghost view = value@;
    let typed = Json::empty_object().with("type", Json::text(kind)).with("value", value);
    let json = Json::empty_object().with("fieldName", Json::text(field_name)).with(
        "fieldValue",
        typed,
    ).with("comparator", Json::text(comparator));
    proof {
        let inner = seq![("type"@, JsonView::Text(kind@)), ("value"@, view)];
        assert(typed@ == JsonView::Object(inner)) by {
            assert(Seq::empty().push(("type"@, JsonView::Text(kind@))).push(("value"@, view))
                =~= inner);
        }
        match (json@, condition(field_name@, kind@, view, comparator@)) {
            (JsonView::Object(a), JsonView::Object(b)) => {
                assert(a =~= b);
            },
            _ => {},
        }
    }
    json
}

/// The conditions of the query for a page: where it starts, which way it goes, and those of
/// the album.
pub open spec fn list_conditions(
    query_filter: Option<JsonView>,
    offset: u64,
    direction: Seq<char>,
) -> Seq<JsonView> {
    let own = seq![
        condition(
            "startRank"@,
            "INT64"@,
            JsonView::Number(JsonNumber::Unsigned(offset)),
            "EQUALS"@,
        ),
        condition("direction"@, "STRING"@, JsonView::Text(direction), "EQUALS"@),
    ];
    match list_of(query_filter) {
        Some(more) => own + more,
        None => own,
    }
}

/// The query for a page. Masters and assets come interleaved, so twice as many records are
/// asked for as there are to be assets.
pub open spec fn list_query_body(
    list_type: Seq<char>,
    query_filter: Option<JsonView>,
    page_size: int,
    zone_id: JsonView,
    offset: u64,
    direction: Seq<char>,
) -> JsonView {
    JsonView::Object(
        seq![
            (
                "query"@,
                JsonView::Object(
                    seq![
                        (
                            "filterBy"@,
                            JsonView::List(list_conditions(query_filter, offset, direction)),
                        ),
                        ("recordType"@, JsonView::Text(list_type)),
                    ],
                ),
            ),
            (
                "resultsLimit"@,
                JsonView::Number(JsonNumber::Unsigned((page_size * 2) as u64)),
            ),
            ("desiredKeys"@, JsonView::List(desired_key_views())),
            ("zoneID"@, zone_id),
        ],
    )
}

/// The conditions of the query for a page.
fn build_list_conditions(query_filter: &Option<Json>, offset: u64, direction: &str) -> (list: Vec<
    Json,
>)
    ensures
        list_views(list@) == list_conditions(
            match query_filter {
                Some(filter) => Some(filter@),
                None => None,
            },
            offset,
            direction@,
        ),
{
    let rank = build_condition("startRank", "INT64", Json::unsigned(offset), "EQUALS");
    let way = build_condition("direction", "STRING", Json::text(direction), "EQUALS");
    let mut list = vec![rank, way];
    let ghost own = seq![rank@, way@];
    proof {
        lemma_list_views(list@);
        assert(list_views(list@) =~= own);
    }
    if let Some(filter) = query_filter {
        if let Some(more) = filter.as_list() {
            let mut i: usize = 0;
            proof {
                lemma_list_views(more@);
                assert(own + list_views(more@).take(0) =~= own);
            }
            while i < more.len()
                invariant
                    i <= more@.len(),
                    list_views(more@).len() == more@.len(),
                    list_views(list@) == own + list_views(more@).take(i as int),
                decreases more@.len() - i,
            {
                broadcast use lemma_list_views;

                let ghost before = list@;
                list.push(more[i].duplicate());
                proof {
                    assert(list@.drop_last() =~= before);
                    assert(list_views(list@) =~= own + list_views(more@).take(i + 1));
                }
                i = i + 1;
            }
            proof {
                assert(list_views(more@).take(i as int) =~= list_views(more@));
            }
        }
    }
    list
}

/// Build the query for a page.
pub fn build_list_query(
    list_type: &str,
    query_filter: &Option<Json>,
    page_size: usize,
    zone_id: &Json,
    offset: u64,
    direction: &str,
) -> (query: Json)
    requires
        page_size * 2 <= usize::MAX,
    ensures
        query@ == list_query_body(
            list_type@,
            match query_filter {
                Some(filter) => Some(filter@),
                None => None,
            },
            page_size as int,
            zone_id@,
            offset,
            direction@,
        ),
{
    let conditions = build_list_conditions(query_filter, offset, direction);
    let ghost condition_views = list_views(conditions@);
    let inner = Json::empty_object().with("filterBy", Json::list(conditions)).with(
        "recordType",
        Json::text(list_type),
    );
    let query = Json::empty_object().with("query", inner).with(
        "resultsLimit",
        Json::unsigned((page_size * 2) as u64),
    ).with("desiredKeys", Json::list(desired_keys_values())).with("zoneID", zone_id.duplicate());
    proof {
        let filter_view = match query_filter {
            Some(filter) => Some(filter@),
            None => None,
        };
        let inner_members = seq![
            ("filterBy"@, JsonView::List(condition_views)),
            ("recordType"@, JsonView::Text(list_type@)),
        ];
        assert(inner@ == JsonView::Object(inner_members)) by {
            assert(Seq::empty().push(("filterBy"@, JsonView::List(condition_views))).push(
                ("recordType"@, JsonView::Text(list_type@)),
            ) =~= inner_members);
        }
        match (
            query@,
            list_query_body(
                list_type@,
                filter_view,
                page_size as int,
                zone_id@,
                offset,
                direction@,
            ),
        ) {
            (JsonView::Object(a), JsonView::Object(b)) => {
                assert(a =~= b);
            },
            _ => {},
        }
    }
    query
}

/// The query that counts an album.
pub open spec fn count_query_body(obj_type: Seq<char>, zone_id: JsonView) -> JsonView {
    JsonView::Object(
        seq![
            ("resultsLimit"@, JsonView::Number(JsonNumber::Unsigned(1))),
            (
                "query"@,
                JsonView::Object(
                    seq![
                        (
                            "filterBy"@,
                            condition(
                                "indexCountID"@,
                                "STRING_LIST"@,
                                JsonView::List(seq![JsonView::Text(obj_type)]),
                                "IN"@,
                            ),
                        ),
                        ("recordType"@, JsonView::Text("HyperionIndexCountLookup"@)),
                    ],
                ),
            ),
            ("zoneWide"@, JsonView::Bool(true)),
            ("zoneID"@, zone_id),
        ],
    )
}

/// Build the query that counts an album.
pub fn count_query(obj_type: &str, zone_id: &Json) -> (query: Json)
    ensures
        query@ == count_query_body(obj_type@, zone_id@),
{
    let types = vec![Json::text(obj_type)];
    proof {
        lemma_list_views(types@);
        assert(list_views(types@) =~= seq![JsonView::Text(obj_type@)]);
    }
    let filter = build_condition("indexCountID", "STRING_LIST", Json::list(types), "IN");
    let inner = Json::empty_object().with("filterBy", filter).with(
        "recordType",
        Json::text("HyperionIndexCountLookup"),
    );
    let query = Json::empty_object().with("resultsLimit", Json::unsigned(1)).with(
        "query",
        inner,
    ).with("zoneWide", Json::Bool(true)).with("zoneID", zone_id.duplicate());
    proof {
        let inner_members = seq![
            ("filterBy"@, filter@),
            ("recordType"@, JsonView::Text("HyperionIndexCountLookup"@)),
        ];
        assert(inner@ == JsonView::Object(inner_members)) by {
            assert(Seq::empty().push(("filterBy"@, filter@)).push(
                ("recordType"@, JsonView::Text("HyperionIndexCountLookup"@)),
            ) =~= inner_members);
        }
        match (query@, count_query_body(obj_type@, zone_id@)) {
            (JsonView::Object(a), JsonView::Object(b)) => {
                assert(a =~= b);
            },
            _ => {},
        }
    }
    query
}

// Counts.

/// Why a response gives no count.
#[derive(Debug)]
pub enum CountFault {
    NoQuery,
    NoRecords,
    NoItemCount,
    NoValue,
    /// The count is this value, which is no count.
    NotACount(Json),
}

/// A [`CountFault`] by its view.
pub enum CountFaultView {
    NoQuery,
    NoRecords,
    NoItemCount,
    NoValue,
    NotACount(JsonView),
}

impl View for CountFault {
    type V = CountFaultView;

    open spec fn view(&self) -> CountFaultView {
        match self {
            CountFault::NoQuery => CountFaultView::NoQuery,
            CountFault::NoRecords => CountFaultView::NoRecords,
            CountFault::NoItemCount => CountFaultView::NoItemCount,
            CountFault::NoValue => CountFaultView::NoValue,
            CountFault::NotACount(value) => CountFaultView::NotACount(value@),
        }
    }
}

/// A count or its fault by its view.
pub open spec fn count_view(count: Result<u64, CountFault>) -> Result<u64, CountFaultView> {
    match count {
        Ok(n) => Ok(n),
        Err(fault) => Err(fault@),
    }
}

/// What a fault says, where the value that is no count reads `value`.
pub open spec fn count_fault_text(fault: CountFaultView, value: Seq<char>) -> Seq<char> {
    match fault {
        CountFaultView::NoQuery => "Apple did not return an album count query result"@,
        CountFaultView::NoRecords => "Apple's album count query returned no records"@,
        CountFaultView::NoItemCount => "Apple's album count record did not include itemCount"@,
        CountFaultView::NoValue => "Apple's album count itemCount did not include a value"@,
        CountFaultView::NotACount(_) =>
            "Apple's album count itemCount was not a non-negative integer: "@ + value,
    }
}

/// What a fault says of one of several counts.
pub open spec fn pass_fault_text(fault: CountFaultView, pass: int) -> Seq<char> {
    if fault is NoQuery {
        "Apple did not return an album count for pass "@ + decimal_text(pass as nat) + "."@
    } else {
        "Could not read Apple's album count result for pass "@ + decimal_text(pass as nat)
    }
}

impl CountFault {
    /// The value that is no count.
    pub fn value(&self) -> (value: Option<&Json>)
        ensures
            match (value, self@) {
                (Some(json), CountFaultView::NotACount(view)) => json@ == view,
                (None, CountFaultView::NotACount(_)) => false,
                (Some(_), _) => false,
                (None, _) => true,
            },
    {
        match self {
            CountFault::NotACount(value) => Some(value),
            _ => None,
        }
    }

    /// The fault in words. `value` is how the value that is no count reads; of another fault
    /// it is not looked at.
    pub fn message(&self, value: &str) -> (text: String)
        ensures
            text@ == count_fault_text(self@, value@),
    {
        match self {
            CountFault::NoQuery => "Apple did not return an album count query result".to_owned(),
            CountFault::NoRecords => "Apple's album count query returned no records".to_owned(),
            CountFault::NoItemCount => {
                "Apple's album count record did not include itemCount".to_owned()
            },
            CountFault::NoValue => {
                "Apple's album count itemCount did not include a value".to_owned()
            },
            CountFault::NotACount(_) => {
                let mut text =
                    "Apple's album count itemCount was not a non-negative integer: ".to_owned();
                text.append(value);
                text
            },
        }
    }

    /// Whether the fault of one of several counts is told with what [`Self::message`] says of
    /// it. A count that is not there at all is told alone.
    pub fn has_cause(&self) -> (yes: bool)
        ensures
            yes == !(self@ is NoQuery),
    {
        match self {
            CountFault::NoQuery => false,
            _ => true,
        }
    }

    /// The fault of one of several counts in words.
    pub fn pass_message(&self, pass: usize) -> (text: String)
        ensures
            text@ == pass_fault_text(self@, pass as int),
    {
        match self {
            CountFault::NoQuery => {
                let mut text = "Apple did not return an album count for pass ".to_owned();
                text.append(&decimal(pass as u64));
                text.append(".");
                text
            },
            _ => {
                let mut text = "Could not read Apple's album count result for pass ".to_owned();
                text.append(&decimal(pass as u64));
                text
            },
        }
    }
}

/// The count that the records of a query give.
pub open spec fn count_in(records: Option<Seq<RecordView>>) -> Result<u64, CountFaultView> {
    match records {
        None => Err(CountFaultView::NoQuery),
        Some(records) => if records.len() == 0 {
            Err(CountFaultView::NoRecords)
        } else if member(records[0].fields, "itemCount"@) is None {
            Err(CountFaultView::NoItemCount)
        } else {
            match field(records[0].fields, "itemCount"@) {
                None => Err(CountFaultView::NoValue),
                Some(value) => match unsigned_of(Some(value)) {
                    Some(n) => Ok(n),
                    None => Err(CountFaultView::NotACount(value)),
                },
            }
        },
    }
}

/// The records of an optional response.
pub open spec fn response_records(query: Option<&QueryResponse>) -> Option<Seq<RecordView>> {
    match query {
        Some(query) => Some(record_views(query.records@)),
        None => None,
    }
}

/// The count that a response gives.
pub fn count_from_query(query: Option<&QueryResponse>) -> (count: Result<u64, CountFault>)
    ensures
        count_view(count) == count_in(response_records(query)),
{
    match query {
        None => Err(CountFault::NoQuery),
        Some(query) => if query.records.len() == 0 {
            Err(CountFault::NoRecords)
        } else {
            assert(record_views(query.records@)[0] == query.records@[0]@);
            match query.records[0].fields.get("itemCount") {
                None => Err(CountFault::NoItemCount),
                Some(item_count) => match item_count.get("value") {
                    None => Err(CountFault::NoValue),
                    Some(value) => match value.as_u64() {
                        Some(n) => Ok(n),
                        None => Err(CountFault::NotACount(value.duplicate())),
                    },
                },
            }
        },
    }
}

/// The counts that a response gives for so many albums.
pub fn counts_from_batch(batch: &Vec<QueryResponse>, albums: usize) -> (counts: Vec<
    Result<u64, CountFault>,
>)
    ensures
        counts@.len() == albums,
        forall|i: int|
            0 <= i < albums ==> count_view(#[trigger] counts@[i]) == count_in(
                if i < batch@.len() {
                    Some(record_views(batch@[i].records@))
                } else {
                    None
                },
            ),
{
    let mut counts: Vec<Result<u64, CountFault>> = Vec::new();
    let mut i: usize = 0;
    while i < albums
        invariant
            i <= albums,
            counts@.len() == i,
            forall|j: int|
                0 <= j < i ==> count_view(#[trigger] counts@[j]) == count_in(
                    if j < batch@.len() {
                        Some(record_views(batch@[j].records@))
                    } else {
                        None
                    },
                ),
        decreases albums - i,
    {
        let query = if i < batch.len() {
            Some(&batch[i])
        } else {
            None
        };
        counts.push(count_from_query(query));
        i = i + 1;
    }
    counts
}

/// How a list of albums is counted.
#[derive(Debug, Clone, Copy, PartialEq, Eq, Structural)]
pub enum CountPlan {
    Nothing,
    /// One request for each.
    Apart,
    /// One request for all of them.
    Together,
}

/// How a list of albums is counted: together, where there are several of one library.
pub fn count_plan(albums: usize, one_library: bool) -> (plan: CountPlan)
    ensures
        plan == (if albums == 0 {
            CountPlan::Nothing
        } else if albums > 1 && one_library {
            CountPlan::Together
        } else {
            CountPlan::Apart
        }),
{
    if albums == 0 {
        CountPlan::Nothing
    } else if albums > 1 && one_library {
        CountPlan::Together
    } else {
        CountPlan::Apart
    }
}

/// The body of a request with several queries.
pub fn batch_body(queries: Vec<Json>) -> (body: Json)
    ensures
        body@ == JsonView::Object(seq![("batch"@, JsonView::List(list_views(queries@)))]),
{
    let ghost views = list_views(queries@);
    proof {
        assert(Seq::empty().push(("batch"@, JsonView::List(views))) =~= seq![
            ("batch"@, JsonView::List(views)),
        ]);
    }
    Json::empty_object().with("batch", Json::list(queries))
}

// The change feed.

/// Why the change feed stopped.
#[derive(Debug)]
pub enum FeedError {
    /// The response has no zone.
    NoZone,
    Zone(SyncTokenError),
}

/// The error that a response of the change feed carries.
pub open spec fn feed_fault(zone: Option<ChangesZoneResult>) -> Option<Option<TokenErrorView>> {
    match zone {
        None => Some(None),
        Some(zone) => match zone_error(
            option_view(zone.server_error_code),
            option_view(zone.reason),
            zone.zone_name@,
        ) {
            Some(error) => Some(Some(error)),
            None => None,
        },
    }
}

/// The view of an error of the change feed.
pub open spec fn feed_error_view(error: FeedError) -> Option<TokenErrorView> {
    match error {
        FeedError::NoZone => None,
        FeedError::Zone(error) => Some(error@),
    }
}

impl FeedError {
    /// The error in words.
    pub fn message(&self) -> (text: String)
        ensures
            text@ == match feed_error_view(*self) {
                None => "Apple changes/zone returned no zones."@,
                Some(error) => crate::session::token_error_text(error),
            },
    {
        match self {
            FeedError::NoZone => "Apple changes/zone returned no zones.".to_owned(),
            FeedError::Zone(error) => error.message(),
        }
    }
}

/// The view of an optional text by reference.
fn as_str_option(s: &Option<String>) -> (r: Option<&str>)
    ensures
        option_str_view(r) == option_view(*s),
{
    match s {
        Some(s) => Some(s.as_str()),
        None => None,
    }
}

/// The zone of a response of the change feed, where it carries no error.
pub fn checked_zone(zone: Option<ChangesZoneResult>) -> (result: Result<ChangesZoneResult, FeedError>)
    ensures
        match result {
            Ok(checked) => zone == Some(checked) && feed_fault(zone) is None,
            Err(error) => feed_fault(zone) == Some(feed_error_view(error)),
        },
{
    match zone {
        None => Err(FeedError::NoZone),
        Some(zone) => match check_changes_zone_error(
            as_str_option(&zone.server_error_code),
            as_str_option(&zone.reason),
            &zone.zone_name,
        ) {
            Ok(()) => Ok(zone),
            Err(error) => Err(FeedError::Zone(error)),
        },
    }
}

/// The change feed of a zone: the token that it can be taken up again with, and the records
/// that wait for their other halves.
pub struct ChangesFeed {
    pub token: String,
    pub buffer: DeltaRecordBuffer,
}

/// What a page of the change feed gave.
pub struct FeedPage {
    pub events: Vec<ChangeEvent>,
    pub more_coming: bool,
}

impl ChangesFeed {
    /// The change feed from a token on.
    pub fn new(sync_token: &str) -> (feed: Self)
        ensures
            feed.token@ == sync_token@,
            feed.buffer@ == nothing_pending(),
    {
        ChangesFeed { token: sync_token.to_owned(), buffer: DeltaRecordBuffer::new() }
    }

    /// Take a page. An error leaves the token where it was, so that the feed can be taken up
    /// again from there.
    pub fn on_page(&mut self, zone: Option<ChangesZoneResult>) -> (result: Result<FeedPage, FeedError>)
        ensures
            match result {
                Ok(page) => {
                    &&& feed_fault(zone) is None
                    &&& zone is Some
                    &&& final(self).token@ == zone->0.sync_token@
                    &&& page.more_coming == zone->0.more_coming
                    &&& (final(self).buffer@, event_views(page.events@)) == delta_run(
                        old(self).buffer@,
                        record_views(zone->0.records@),
                    )
                },
                Err(error) => {
                    &&& feed_fault(zone) == Some(feed_error_view(error))
                    &&& final(self).token@ == old(self).token@
                    &&& final(self).buffer@ == old(self).buffer@
                },
            },
    {
        match checked_zone(zone) {
            Ok(zone) => {
                self.token = zone.sync_token;
                let more_coming = zone.more_coming;
                let events = self.buffer.process_records(zone.records);
                Ok(FeedPage { events, more_coming })
            },
            Err(error) => Err(error),
        }
    }

    /// Hand out what is still waiting, after the last page or after an error.
    pub fn finish(&mut self) -> (events: Vec<ChangeEvent>)
        ensures
            final(self).token@ == old(self).token@,
            final(self).buffer@ == nothing_pending(),
            is_flush(old(self).buffer@, event_views(events@)),
    {
        self.buffer.flush()
    }
}

// Members in other zones.

/// The item of a relation record, where it is a living one of the container.
pub open spec fn relation_item(record: RecordView, container_id: Seq<char>) -> Option<Seq<char>> {
    if record.record_type == "CPLContainerRelation"@ && record.deleted != Some(true) && text_of(
        field(record.fields, "containerId"@),
    ) == Some(container_id) {
        text_of(field(record.fields, "itemId"@))
    } else {
        None
    }
}

/// A set of names, by the table that holds them.
pub open spec fn names_in(table: FxHashMap<String, ()>) -> Set<Seq<char>> {
    keyed(table).dom()
}

/// The items of a container among the first records of a list.
pub open spec fn relation_items(records: Seq<RecordView>, container_id: Seq<char>) -> Set<Seq<char>>
    decreases records.len(),
{
    if records.len() == 0 {
        Set::empty()
    } else {
        let before = relation_items(records.drop_last(), container_id);
        match relation_item(records.last(), container_id) {
            Some(item) => before.insert(item),
            None => before,
        }
    }
}

/// Note the items of a container that a page of its zone's change feed names.
pub fn note_relation_items(
    ids: &mut FxHashMap<String, ()>,
    records: &Vec<Record>,
    container_id: &str,
)
    ensures
        names_in(*final(ids)) == names_in(*old(ids)).union(
            relation_items(record_views(records@), container_id@),
        ),
{
    let ghost views = record_views(records@);
    let ghost before = names_in(*ids);
    let mut i: usize = 0;
    while i < records.len()
        invariant
            i <= records@.len(),
            views == record_views(records@),
            names_in(*ids) =~= before.union(relation_items(views.take(i as int), container_id@)),
        decreases records@.len() - i,
    {
        let record = &records[i];
        proof {
            assert(views.take(i + 1).drop_last() =~= views.take(i as int));
            assert(views[i as int] == record@);
        }
        let gone = match record.deleted {
            Some(true) => true,
            _ => false,
        };
        if str_eq(&record.record_type, "CPLContainerRelation") && !gone {
            if let Some(container) = record.fields.field_str("containerId") {
                if str_eq(container, container_id) {
                    if let Some(item) = record.fields.field_str("itemId") {
                        let _ = table_insert(ids, item.to_owned(), ());
                    }
                }
            }
        }
        i = i + 1;
    }
    proof {
        assert(views.take(i as int) =~= views);
    }
}

/// Looks for assets by the names of their records in a zone's change feed.
pub struct AssetMatcher {
    pub buffer: DeltaRecordBuffer,
    pub missing: FxHashMap<String, ()>,
    pub source_zone: String,
    pub matched: Vec<PhotoAsset>,
}

/// An [`AssetMatcher`] by its view.
#[verifier::ext_equal]
pub struct MatcherView {
    pub pending: PendingView,
    pub missing: Set<Seq<char>>,
    pub source_zone: Seq<char>,
    pub matched: Seq<PhotoAssetView>,
}

impl View for AssetMatcher {
    type V = MatcherView;

    open spec fn view(&self) -> MatcherView {
        MatcherView {
            pending: self.buffer@,
            missing: names_in(self.missing),
            source_zone: self.source_zone@,
            matched: self.matched@.map_values(|a: PhotoAsset| a@),
        }
    }
}

/// What an event does: an asset that is missing is found, and noted with its zone.
pub open spec fn matched_event(m: MatcherView, event: EventView) -> MatcherView {
    match event.asset {
        Some(asset) => if m.missing.contains(asset.asset_record_name) {
            MatcherView {
                missing: m.missing.remove(asset.asset_record_name),
                matched: m.matched.push(
                    PhotoAssetView { source_zone: Some(m.source_zone), ..asset },
                ),
                ..m
            }
        } else {
            m
        },
        None => m,
    }
}

/// What events do, one after the other.
pub open spec fn matched_events(m: MatcherView, events: Seq<EventView>) -> MatcherView
    decreases events.len(),
{
    if events.len() == 0 {
        m
    } else {
        matched_event(matched_events(m, events.drop_last()), events.last())
    }
}

/// What a record does.
pub open spec fn matcher_step(m: MatcherView, record: RecordView) -> MatcherView {
    let (pending, events) = delta_step(m.pending, record);
    matched_events(MatcherView { pending, ..m }, events)
}

/// What the records from place `i` on do. When nothing is missing any more, the rest is not
/// looked at.
pub open spec fn matcher_from(m: MatcherView, records: Seq<RecordView>, i: int) -> MatcherView
    decreases records.len() - i,
{
    if i < 0 || i >= records.len() {
        m
    } else {
        let next = matcher_step(m, records[i]);
        if next.missing == Set::<Seq<char>>::empty() {
            next
        } else {
            matcher_from(next, records, i + 1)
        }
    }
}

impl AssetMatcher {
    /// A matcher for the names that are missing.
    pub fn new(missing: FxHashMap<String, ()>, source_zone: &str) -> (matcher: Self)
        ensures
            matcher@ == (MatcherView {
                pending: nothing_pending(),
                missing: names_in(missing),
                source_zone: source_zone@,
                matched: Seq::empty(),
            }),
    {
        let matcher = AssetMatcher {
            buffer: DeltaRecordBuffer::new(),
            missing,
            source_zone: source_zone.to_owned(),
            matched: Vec::new(),
        };
        assert(matcher@.matched =~= Seq::empty());
        matcher
    }

    /// Whether nothing is missing any more.
    pub fn is_done(&self) -> (done: bool)
        ensures
            done == (self@.missing == Set::<Seq<char>>::empty()),
    {
        let done = table_is_empty(&self.missing);
        proof {
            if done {
                assert(self@.missing =~= Set::<Seq<char>>::empty());
            } else if self@.missing == Set::<Seq<char>>::empty() {
                assert(keyed(self.missing) =~= nothing::<()>());
            }
        }
        done
    }

    /// Take one event.
    fn on_event(&mut self, event: ChangeEvent)
        ensures
            final(self)@ == matched_event(old(self)@, event@),
    {
        let ghost before = self@;
        if let Some(asset) = event.asset {
            let ghost asset_view = asset@;
            let name = asset.asset_record_name().to_owned();
            let ghost missing_before = keyed(self.missing);
            if table_remove(&mut self.missing, &name).is_some() {
                proof {
                    assert(self@.missing =~= before.missing.remove(name@));
                }
                let ghost found_before = self@.matched;
                let found = asset.with_source_zone(&self.source_zone);
                let ghost found_view = found@;
                self.matched.push(found);
                assert(self@.matched =~= found_before.push(found_view));
            } else {
                proof {
                    assert(!missing_before.contains_key(name@));
                    assert(self@.missing =~= before.missing);
                }
            }
        }
    }

    /// Take one record.
    fn on_record(&mut self, record: Record)
        ensures
            final(self)@ == matcher_step(old(self)@, record@),
    {
        let ghost before = self@;
        let ghost view = record@;
        let records = vec![record];
        proof {
            assert(record_views(records@) =~= seq![view]);
            reveal_with_fuel(delta_run, 2);
            assert(seq![view].drop_last() =~= Seq::empty());
        }
        let events = self.buffer.process_records(records);
        let ghost (pending, given) = delta_step(before.pending, view);
        let ghost start = MatcherView { pending, ..before };
        proof {
            assert(Seq::<EventView>::empty() + given =~= given);
            assert(self@ == start);
            assert(given.take(0) =~= Seq::empty());
        }
        for event in it: events.into_iter()
            invariant
                event_views(it.seq()) == given,
                it.index() <= given.len(),
                self@ == matched_events(start, given.take(it.index() as int)),
        {
            let ghost i = it.index() as int;
            proof {
                assert(given[i] == event@);
                assert(given.take(i + 1).drop_last() =~= given.take(i));
            }
            self.on_event(event);
        }
        proof {
            assert(given.take(given.len() as int) =~= given);
        }
    }

    /// Take a page of the change feed. Gives whether more is to be looked at.
    pub fn on_page(&mut self, records: Vec<Record>) -> (more: bool)
        ensures
            final(self)@ == matcher_from(old(self)@, record_views(records@), 0),
            more == (records@.len() == 0 || final(self)@.missing != Set::<Seq<char>>::empty()),
    {
        let ghost views = record_views(records@);
        let ghost start = self@;
        let mut done = false;
        for record in it: records.into_iter()
            invariant
                record_views(it.seq()) == views,
                it.index() <= views.len(),
                it.index() > 0 ==> done == (self@.missing == Set::<Seq<char>>::empty()),
                it.index() == 0 ==> !done,
                done ==> matcher_from(start, views, 0) == self@,
                !done ==> matcher_from(start, views, 0) == matcher_from(
                    self@,
                    views,
                    it.index() as int,
                ),
        {
            proof {
                assert(views[it.index() as int] == record@);
            }
            if !done {
                self.on_record(record);
                done = self.is_done();
            }
        }
        !done
    }
}

/// Decides whether an album's members have to be looked for in other zones, and which token
/// may be kept.
pub struct CrossZoneHydration {
    pub limit: Option<u32>,
    pub total_count: Option<u64>,
    pub seen: FxHashMap<String, ()>,
    pub base_seen: u64,
    pub stream_error: bool,
}

/// What follows the enumeration of an album's own zone.
#[derive(Debug, PartialEq, Eq)]
pub enum HydrationStep {
    /// There is nothing to look for; this token may be kept.
    Done(Option<String>),
    /// The album's members have to be looked for.
    ScanRelations,
}

/// Whether members are short of the count and have to be looked for.
pub open spec fn is_short(limit: Option<u32>, total_count: Option<u64>, base_seen: int) -> bool {
    limit is None && match total_count {
        Some(expected) => base_seen < expected,
        None => false,
    }
}

impl CrossZoneHydration {
    /// Nothing has been seen.
    pub fn new(limit: Option<u32>, total_count: Option<u64>) -> (hydration: Self)
        ensures
            hydration.limit == limit,
            hydration.total_count == total_count,
            names_in(hydration.seen) == Set::<Seq<char>>::empty(),
            hydration.base_seen == 0,
            !hydration.stream_error,
    {
        let hydration = CrossZoneHydration {
            limit,
            total_count,
            seen: empty_table(),
            base_seen: 0,
            stream_error: false,
        };
        assert(names_in(hydration.seen) =~= Set::<Seq<char>>::empty());
        hydration
    }

    /// Note an asset of the album's own zone.
    pub fn on_asset(&mut self, asset: &PhotoAsset)
        requires
            old(self).base_seen < u64::MAX,
        ensures
            names_in(final(self).seen) == names_in(old(self).seen).insert(asset@.asset_record_name),
            final(self).base_seen == old(self).base_seen + 1,
            final(self).limit == old(self).limit,
            final(self).total_count == old(self).total_count,
            final(self).stream_error == old(self).stream_error,
    {
        let ghost before = names_in(self.seen);
        let _ = table_insert(&mut self.seen, asset.asset_record_name().to_owned(), ());
        assert(names_in(self.seen) =~= before.insert(asset@.asset_record_name));
        self.base_seen = self.base_seen + 1;
    }

    /// Note an error of the album's own zone.
    pub fn on_error(&mut self)
        ensures
            *final(self) == (CrossZoneHydration { stream_error: true, ..*old(self) }),
    {
        self.stream_error = true;
    }

    /// What follows the enumeration of the album's own zone. After an error no token may be
    /// kept; a limited enumeration never looks into other zones.
    pub fn after_base(&self, base_token: Option<String>) -> (step: HydrationStep)
        ensures
            match step {
                HydrationStep::Done(token) => {
                    &&& self.stream_error || !is_short(
                        self.limit,
                        self.total_count,
                        self.base_seen as int,
                    )
                    &&& option_view(token) == (if self.stream_error {
                        None
                    } else {
                        option_view(base_token)
                    })
                },
                HydrationStep::ScanRelations => !self.stream_error && is_short(
                    self.limit,
                    self.total_count,
                    self.base_seen as int,
                ),
            },
    {
        if self.stream_error {
            return HydrationStep::Done(None);
        }
        let short = self.limit.is_none() && match self.total_count {
            Some(expected) => self.base_seen < expected,
            None => false,
        };
        if short {
            HydrationStep::ScanRelations
        } else {
            HydrationStep::Done(base_token)
        }
    }

    /// The members that have not been seen.
    pub fn missing_members(&self, members: &Vec<String>) -> (missing: FxHashMap<String, ()>)
        ensures
            forall|name: Seq<char>| #[trigger]
                names_in(missing).contains(name) <==> text_views(members@).contains(name)
                    && !names_in(self.seen).contains(name),
    {
        let ghost views = text_views(members@);
        let mut missing: FxHashMap<String, ()> = empty_table();
        let mut i: usize = 0;
        while i < members.len()
            invariant
                i <= members@.len(),
                views == text_views(members@),
                forall|name: Seq<char>| #[trigger]
                    names_in(missing).contains(name) <==> (exists|j: int|
                        0 <= j < i && views[j] == name) && !names_in(self.seen).contains(name),
            decreases members@.len() - i,
        {
            let ghost before = names_in(missing);
            proof {
                assert(views[i as int] == members@[i as int]@);
            }
            if table_get(&self.seen, &members[i]).is_none() {
                let _ = table_insert(&mut missing, members[i].clone(), ());
            }
            proof {
                assert forall|name: Seq<char>| #[trigger]
                    names_in(missing).contains(name) <==> (exists|j: int|
                        0 <= j < i + 1 && views[j] == name) && !names_in(self.seen).contains(
                    name,
                ) by {
                    assert(before.contains(name) <==> (exists|j: int|
                        0 <= j < i && views[j] == name) && !names_in(self.seen).contains(name));
                    if exists|j: int| 0 <= j < i && views[j] == name {
                        let j = choose|j: int| 0 <= j < i && views[j] == name;
                        assert(0 <= j < i + 1 && views[j] == name);
                    }
                    if views[i as int] == name {
                        assert(0 <= i < i + 1 && views[i as int] == name);
                    }
                    if exists|j: int| 0 <= j < i + 1 && views[j] == name {
                        let j = choose|j: int| 0 <= j < i + 1 && views[j] == name;
                        if j < i {
                            assert(0 <= j < i && views[j] == name);
                        }
                    }
                }
            }
            i = i + 1;
        }
        missing
    }

    /// The token that may be kept when the other zones have been looked through: only where
    /// every member was found.
    pub fn final_token(missing: &FxHashMap<String, ()>, base_token: Option<String>) -> (token: Option<
        String,
    >)
        ensures
            option_view(token) == (if names_in(*missing) == Set::<Seq<char>>::empty() {
                option_view(base_token)
            } else {
                None
            }),
    {
        let none_missing = table_is_empty(missing);
        proof {
            if none_missing {
                assert(names_in(*missing) =~= Set::<Seq<char>>::empty());
            } else if names_in(*missing) == Set::<Seq<char>>::empty() {
                assert(keyed(*missing) =~= nothing::<()>());
            }
        }
        if none_missing {
            base_token
        } else {
            None
        }
    }
}

/// Every name that is no longer missing was found as an asset of the zone, every asset that
/// was found had been missing, and no two that were found have one name.
pub open spec fn accounts_for(before: MatcherView, after: MatcherView) -> bool {
    &&& before.matched.len() <= after.matched.len()
    &&& after.source_zone == before.source_zone
    &&& forall|name: Seq<char>| #[trigger]
        after.missing.contains(name) ==> before.missing.contains(name)
    &&& forall|k: int|
        before.matched.len() <= k < after.matched.len() ==> {
            let asset = #[trigger] after.matched[k];
            &&& before.missing.contains(asset.asset_record_name)
            &&& !after.missing.contains(asset.asset_record_name)
            &&& asset.source_zone == Some(before.source_zone)
        }
    &&& forall|j: int, k: int|
        #![trigger after.matched[j], after.matched[k]]
        before.matched.len() <= j < k < after.matched.len() ==> after.matched[j].asset_record_name
            != after.matched[k].asset_record_name
    &&& forall|k: int|
        0 <= k < before.matched.len() ==> #[trigger] after.matched[k] == before.matched[k]
    &&& forall|name: Seq<char>| #[trigger]
        before.missing.contains(name) && !after.missing.contains(name) ==> exists|k: int|
            before.matched.len() <= k < after.matched.len()
                && #[trigger] after.matched[k].asset_record_name == name
}

/// Two stretches of matching are one.
proof fn lemma_accounts_twice(a: MatcherView, b: MatcherView, c: MatcherView)
    requires
        accounts_for(a, b),
        accounts_for(b, c),
    ensures
        accounts_for(a, c),
{
    assert forall|k: int| a.matched.len() <= k < c.matched.len() implies {
        let asset = #[trigger] c.matched[k];
        &&& a.missing.contains(asset.asset_record_name)
        &&& !c.missing.contains(asset.asset_record_name)
        &&& asset.source_zone == Some(a.source_zone)
    } by {
        if k < b.matched.len() {
            assert(c.matched[k] == b.matched[k]);
        }
    }
    assert forall|j: int, k: int|
        #![trigger c.matched[j], c.matched[k]]
        a.matched.len() <= j < k < c.matched.len() implies c.matched[j].asset_record_name
        != c.matched[k].asset_record_name by {
        if j < b.matched.len() {
            assert(c.matched[j] == b.matched[j]);
            assert(!b.missing.contains(b.matched[j].asset_record_name));
            if k < b.matched.len() {
                assert(c.matched[k] == b.matched[k]);
            } else {
                assert(b.missing.contains(c.matched[k].asset_record_name));
            }
        }
    }
    assert forall|k: int| 0 <= k < a.matched.len() implies #[trigger] c.matched[k]
        == a.matched[k] by {
        assert(c.matched[k] == b.matched[k]);
        assert(b.matched[k] == a.matched[k]);
    }
    assert forall|name: Seq<char>| #[trigger]
        a.missing.contains(name) && !c.missing.contains(name) implies exists|k: int|
        a.matched.len() <= k < c.matched.len()
            && #[trigger] c.matched[k].asset_record_name == name by {
        if b.missing.contains(name) {
            let k = choose|k: int|
                b.matched.len() <= k < c.matched.len()
                    && #[trigger] c.matched[k].asset_record_name == name;
            assert(c.matched[k].asset_record_name == name);
        } else {
            let k = choose|k: int|
                a.matched.len() <= k < b.matched.len()
                    && #[trigger] b.matched[k].asset_record_name == name;
            assert(c.matched[k] == b.matched[k]);
            assert(c.matched[k].asset_record_name == name);
        }
    }
}

/// Events find only what was missing, and find it once.
proof fn lemma_events_account(m: MatcherView, events: Seq<EventView>)
    ensures
        accounts_for(m, matched_events(m, events)),
    decreases events.len(),
{
    if events.len() > 0 {
        lemma_events_account(m, events.drop_last());
        let before = matched_events(m, events.drop_last());
        let after = matched_events(m, events);
        assert(accounts_for(before, after)) by {
            match events.last().asset {
                Some(asset) => if before.missing.contains(asset.asset_record_name) {
                    assert(after.matched[before.matched.len() as int].asset_record_name
                        == asset.asset_record_name);
                },
                None => {},
            }
        }
        lemma_accounts_twice(m, before, after);
    }
}

/// Looking for members in a zone finds only what was missing, finds it once, and takes for
/// found only what it hands out.
pub proof fn law_matching_accounts_for_members(m: MatcherView, records: Seq<RecordView>, i: int)
    ensures
        accounts_for(m, matcher_from(m, records, i)),
    decreases records.len() - i,
{
    if 0 <= i < records.len() {
        let next = matcher_step(m, records[i]);
        let (pending, events) = delta_step(m.pending, records[i]);
        let start = MatcherView { pending, ..m };
        lemma_events_account(start, events);
        lemma_accounts_twice(m, start, next);
        if next.missing != Set::<Seq<char>>::empty() {
            law_matching_accounts_for_members(next, records, i + 1);
            lemma_accounts_twice(m, next, matcher_from(next, records, i + 1));
        }
    }
}

/// The names that the members of a query go by are different ones.
proof fn lemma_query_names_differ()
    ensures
        "query"@.len() == 5,
        "resultsLimit"@.len() == 12,
        "desiredKeys"@.len() == 11,
        "zoneID"@.len() == 6,
        "zoneWide"@.len() == 8,
        "filterBy"@.len() == 8,
        "recordType"@.len() == 10,
        "fieldName"@.len() == 9,
        "fieldValue"@.len() == 10,
        "comparator"@.len() == 10,
        "fieldValue"@ != "comparator"@,
        "type"@.len() == 4,
        "value"@.len() == 5,
{
    reveal_strlit("query");
    reveal_strlit("resultsLimit");
    reveal_strlit("desiredKeys");
    reveal_strlit("zoneID");
    reveal_strlit("zoneWide");
    reveal_strlit("filterBy");
    reveal_strlit("recordType");
    reveal_strlit("fieldName");
    reveal_strlit("fieldValue");
    reveal_strlit("comparator");
    reveal_strlit("type");
    reveal_strlit("value");
    assert("fieldValue"@[0] == 'f');
    assert("comparator"@[0] == 'c');
}

/// Whether a query's condition says that a field holds a value of a kind, by a comparator.
pub open spec fn says(
    json: JsonView,
    field_name: Seq<char>,
    kind: Seq<char>,
    value: JsonView,
    comparator: Seq<char>,
) -> bool {
    &&& member(json, "fieldName"@) == Some(JsonView::Text(field_name))
    &&& member_of(member(json, "fieldValue"@), "type"@) == Some(JsonView::Text(kind))
    &&& member_of(member(json, "fieldValue"@), "value"@) == Some(value)
    &&& member(json, "comparator"@) == Some(JsonView::Text(comparator))
}

/// A condition says what it was made of.
pub proof fn law_a_condition_says_what_it_was_made_of(
    field_name: Seq<char>,
    kind: Seq<char>,
    value: JsonView,
    comparator: Seq<char>,
)
    ensures
        says(condition(field_name, kind, value, comparator), field_name, kind, value, comparator),
{
    lemma_query_names_differ();
    let json = condition(field_name, kind, value, comparator);
    let members = json->Object_0;
    law_the_first_member_of_a_name_is_read(members, "fieldName"@, 0);
    law_the_first_member_of_a_name_is_read(members, "fieldValue"@, 1);
    law_the_first_member_of_a_name_is_read(members, "comparator"@, 2);
    let typed = members[1].1->Object_0;
    law_the_first_member_of_a_name_is_read(typed, "type"@, 0);
    law_the_first_member_of_a_name_is_read(typed, "value"@, 1);
}

/// The conditions that a query carries.
pub open spec fn conditions_in(query: JsonView) -> Option<Seq<JsonView>> {
    list_of(member_of(member(query, "query"@), "filterBy"@))
}

/// What a page's query carries under each of its names.
proof fn lemma_list_query_members(
    list_type: Seq<char>,
    query_filter: Option<JsonView>,
    page_size: int,
    zone_id: JsonView,
    offset: u64,
    direction: Seq<char>,
)
    ensures
        ({
            let query = list_query_body(
                list_type,
                query_filter,
                page_size,
                zone_id,
                offset,
                direction,
            );
            &&& conditions_in(query) == Some(list_conditions(query_filter, offset, direction))
            &&& member_of(member(query, "query"@), "recordType"@) == Some(JsonView::Text(list_type))
            &&& member(query, "resultsLimit"@) == Some(
                JsonView::Number(JsonNumber::Unsigned((page_size * 2) as u64)),
            )
            &&& member(query, "desiredKeys"@) == Some(JsonView::List(desired_key_views()))
            &&& member(query, "zoneID"@) == Some(zone_id)
        }),
{
    lemma_query_names_differ();
    let query = list_query_body(list_type, query_filter, page_size, zone_id, offset, direction);
    let members = query->Object_0;
    law_the_first_member_of_a_name_is_read(members, "query"@, 0);
    law_the_first_member_of_a_name_is_read(members, "resultsLimit"@, 1);
    law_the_first_member_of_a_name_is_read(members, "desiredKeys"@, 2);
    law_the_first_member_of_a_name_is_read(members, "zoneID"@, 3);
    let inner = members[0].1->Object_0;
    law_the_first_member_of_a_name_is_read(inner, "filterBy"@, 0);
    law_the_first_member_of_a_name_is_read(inner, "recordType"@, 1);
}

/// Every page of an album is asked for with the album's whole filter: wherever the page starts
/// and whichever way it goes, the query's conditions are the start, the direction, and behind
/// them each condition of the filter in its order. An album without a filter adds none.
pub proof fn law_every_page_keeps_the_filter(
    list_type: Seq<char>,
    query_filter: Option<JsonView>,
    page_size: int,
    zone_id: JsonView,
    offset: u64,
    direction: Seq<char>,
)
    ensures
        ({
            let conditions = conditions_in(
                list_query_body(list_type, query_filter, page_size, zone_id, offset, direction),
            );
            &&& conditions is Some
            &&& conditions->0.len() >= 2
            &&& says(
                conditions->0[0],
                "startRank"@,
                "INT64"@,
                JsonView::Number(JsonNumber::Unsigned(offset)),
                "EQUALS"@,
            )
            &&& says(
                conditions->0[1],
                "direction"@,
                "STRING"@,
                JsonView::Text(direction),
                "EQUALS"@,
            )
            &&& match query_filter {
                Some(JsonView::List(filter)) => conditions->0.skip(2) == filter,
                _ => conditions->0.len() == 2,
            }
        }),
{
    lemma_list_query_members(list_type, query_filter, page_size, zone_id, offset, direction);
    law_a_condition_says_what_it_was_made_of(
        "startRank"@,
        "INT64"@,
        JsonView::Number(JsonNumber::Unsigned(offset)),
        "EQUALS"@,
    );
    law_a_condition_says_what_it_was_made_of(
        "direction"@,
        "STRING"@,
        JsonView::Text(direction),
        "EQUALS"@,
    );
    let conditions = list_conditions(query_filter, offset, direction);
    if let Some(JsonView::List(filter)) = query_filter {
        assert(conditions.skip(2) =~= filter);
    }
}

/// Two pages of one album are asked for alike: their queries differ in nothing but the rank
/// that the page starts from.
pub proof fn law_pages_differ_in_their_start_alone(
    list_type: Seq<char>,
    query_filter: Option<JsonView>,
    page_size: int,
    zone_id: JsonView,
    a: u64,
    b: u64,
    direction: Seq<char>,
)
    ensures
        ({
            let first = list_query_body(list_type, query_filter, page_size, zone_id, a, direction);
            let second = list_query_body(list_type, query_filter, page_size, zone_id, b, direction);
            &&& conditions_in(first)->0.skip(1) == conditions_in(second)->0.skip(1)
            &&& forall|name: Seq<char>|
                name != "query"@ ==> #[trigger] member(first, name) == member(second, name)
            &&& forall|name: Seq<char>|
                name != "filterBy"@ ==> #[trigger] member_of(member(first, "query"@), name)
                    == member_of(member(second, "query"@), name)
            &&& a != b ==> first != second
        }),
{
    lemma_list_query_members(list_type, query_filter, page_size, zone_id, a, direction);
    lemma_list_query_members(list_type, query_filter, page_size, zone_id, b, direction);
    law_every_page_keeps_the_filter(list_type, query_filter, page_size, zone_id, a, direction);
    law_every_page_keeps_the_filter(list_type, query_filter, page_size, zone_id, b, direction);
    let first = list_query_body(list_type, query_filter, page_size, zone_id, a, direction);
    let second = list_query_body(list_type, query_filter, page_size, zone_id, b, direction);
    assert(conditions_in(first)->0.skip(1) =~= conditions_in(second)->0.skip(1));
    lemma_query_names_differ();
    assert(first->Object_0.drop_first() =~= second->Object_0.drop_first());
    let inner = first->Object_0[0].1->Object_0;
    let other = second->Object_0[0].1->Object_0;
    law_the_first_member_of_a_name_is_read(first->Object_0, "query"@, 0);
    law_the_first_member_of_a_name_is_read(second->Object_0, "query"@, 0);
    assert(inner.drop_first() =~= other.drop_first());
}

/// A page is asked for with the album's own query, in its own zone, with every field that is
/// read later, and with room for two records, a master and an asset, to each of its assets.
pub proof fn law_a_page_is_asked_for_whole(
    list_type: Seq<char>,
    query_filter: Option<JsonView>,
    page_size: usize,
    zone_id: JsonView,
    offset: u64,
    direction: Seq<char>,
)
    requires
        page_size * 2 <= usize::MAX,
    ensures
        ({
            let query = list_query_body(
                list_type,
                query_filter,
                page_size as int,
                zone_id,
                offset,
                direction,
            );
            let limit = unsigned_of(member(query, "resultsLimit"@));
            &&& query is Object && query->Object_0.len() == 4
            &&& text_of(member_of(member(query, "query"@), "recordType"@)) == Some(list_type)
            &&& limit is Some && limit->0 == page_size + page_size
            &&& member(query, "zoneID"@) == Some(zone_id)
            &&& list_of(member(query, "desiredKeys"@)) == Some(
                DESIRED_KEYS@.map_values(|key: &'static str| JsonView::Text(key@)),
            )
        }),
{
    lemma_list_query_members(list_type, query_filter, page_size as int, zone_id, offset, direction);
    assert(desired_key_views() =~= DESIRED_KEYS@.map_values(
        |key: &'static str| JsonView::Text(key@),
    ));
}

/// An album is counted by one record of the index that goes by the album's own type, in the
/// album's own zone.
pub proof fn law_an_album_is_counted_by_its_own_index(obj_type: Seq<char>, zone_id: JsonView)
    ensures
        ({
            let query = count_query_body(obj_type, zone_id);
            let filter = member_of(member(query, "query"@), "filterBy"@);
            &&& query is Object && query->Object_0.len() == 4
            &&& filter is Some
            &&& says(
                filter->0,
                "indexCountID"@,
                "STRING_LIST"@,
                JsonView::List(seq![JsonView::Text(obj_type)]),
                "IN"@,
            )
            &&& text_of(member_of(member(query, "query"@), "recordType"@)) == Some(
                "HyperionIndexCountLookup"@,
            )
            &&& unsigned_of(member(query, "resultsLimit"@)) == Some(1u64)
            &&& member(query, "zoneWide"@) == Some(JsonView::Bool(true))
            &&& member(query, "zoneID"@) == Some(zone_id)
        }),
{
    lemma_query_names_differ();
    law_a_condition_says_what_it_was_made_of(
        "indexCountID"@,
        "STRING_LIST"@,
        JsonView::List(seq![JsonView::Text(obj_type)]),
        "IN"@,
    );
    let members = count_query_body(obj_type, zone_id)->Object_0;
    law_the_first_member_of_a_name_is_read(members, "resultsLimit"@, 0);
    law_the_first_member_of_a_name_is_read(members, "query"@, 1);
    law_the_first_member_of_a_name_is_read(members, "zoneWide"@, 2);
    law_the_first_member_of_a_name_is_read(members, "zoneID"@, 3);
    let inner = members[1].1->Object_0;
    law_the_first_member_of_a_name_is_read(inner, "filterBy"@, 0);
    law_the_first_member_of_a_name_is_read(inner, "recordType"@, 1);
}

/// A response gives a count exactly where its first record's `itemCount` holds an integer that
/// is not negative, and that integer is the count. What the other records say, and what else
/// the first one says, does not matter.
pub proof fn law_the_count_is_the_first_records_item_count(records: Seq<RecordView>)
    ensures
        forall|n: u64| #[trigger]
            count_in(Some(records)) == Ok::<u64, CountFaultView>(n) <==> records.len() > 0
                && member_of(member(records[0].fields, "itemCount"@), "value"@) == Some(
                JsonView::Number(JsonNumber::Unsigned(n)),
            ),
        count_in(None) is Err,
{
}

/// The whole library that an album is part of is read as a library: with its own queries and
/// without a filter or a container, but in the album's zone, through its endpoint and with its
/// parameters and page size.
pub proof fn law_a_whole_library_has_no_filter(
    params: Seq<(Seq<char>, Seq<char>)>,
    service_endpoint: Seq<char>,
    zone_id: JsonView,
    page_size: usize,
)
    ensures
        ({
            let library = whole_library(params, service_endpoint, zone_id, page_size);
            &&& library.list_type == "CPLAssetAndMasterByAssetDateWithoutHiddenOrDeleted"@
            &&& library.obj_type == "CPLAssetByAssetDateWithoutHiddenOrDeleted"@
            &&& library.query_filter is None
            &&& library.container_id is None
            &&& library.name.len() == 0
            &&& library.params == params
            &&& library.service_endpoint == service_endpoint
            &&& library.zone_id == zone_id
            &&& library.page_size == page_size
        }),
{
}

/// A zone goes by the text of its name, and by nothing where it has none.
pub proof fn law_a_zone_goes_by_its_name(zone_id: JsonView, name: Seq<char>)
    ensures
        member(zone_id, "zoneName"@) == Some(JsonView::Text(name)) ==> zone_name_of(zone_id) == name,
        text_of(member(zone_id, "zoneName"@)) is None ==> zone_name_of(zone_id).len() == 0,
{
}

/// A request goes to the path below the endpoint, with its parameters behind a question mark in
/// the order of their names: two requests whose parameters differ in their order alone, and
/// that name none twice, go to the same URL.
pub proof fn law_the_order_of_parameters_does_not_matter(
    endpoint: Seq<char>,
    path: Seq<char>,
    a: Seq<(String, ParamValue)>,
    b: Seq<(String, ParamValue)>,
)
    requires
        param_pairs(a).to_multiset() == param_pairs(b).to_multiset(),
    ensures
        (endpoint + path + "?"@).is_prefix_of(url_of(endpoint, path, a)),
        distinct_names(param_pairs(a)) && distinct_names(param_pairs(b)) ==> url_of(
            endpoint,
            path,
            a,
        ) == url_of(endpoint, path, b),
{
    let url = url_of(endpoint, path, a);
    let head = endpoint + path + "?"@;
    assert(url.subrange(0, head.len() as int) =~= head);
    if distinct_names(param_pairs(a)) && distinct_names(param_pairs(b)) {
        law_params_order_free(param_pairs(a), param_pairs(b));
    }
}

/// A count that cannot be read is told by what is missing: the answer, its records, the count
/// among the first record's fields, its value; and a value that is no count by itself.
pub proof fn law_an_unreadable_count_is_told_by_what_is_missing(records: Seq<RecordView>)
    ensures
        count_in(None) == Err::<u64, CountFaultView>(CountFaultView::NoQuery),
        records.len() == 0 ==> count_in(Some(records)) == Err::<u64, CountFaultView>(
            CountFaultView::NoRecords,
        ),
        records.len() > 0 ==> match member(records[0].fields, "itemCount"@) {
            None => count_in(Some(records)) == Err::<u64, CountFaultView>(
                CountFaultView::NoItemCount,
            ),
            Some(count) => match member(count, "value"@) {
                None => count_in(Some(records)) == Err::<u64, CountFaultView>(
                    CountFaultView::NoValue,
                ),
                Some(JsonView::Number(JsonNumber::Unsigned(n))) => count_in(Some(records)) == Ok::<
                    u64,
                    CountFaultView,
                >(n),
                Some(value) => count_in(Some(records)) == Err::<u64, CountFaultView>(
                    CountFaultView::NotACount(value),
                ),
            },
        },
{
}

/// A response of the change feed is refused where it has no zone, and where its zone carries an
/// error, for that error; and nowhere else.
pub proof fn law_a_feed_is_refused_for_its_zones_error(zone: ChangesZoneResult)
    ensures
        feed_fault(None) == Some(None::<TokenErrorView>),
        zone.server_error_code is None ==> feed_fault(Some(zone)) is None,
        zone.server_error_code is Some ==> feed_fault(Some(zone)) == Some(
            zone_error(
                option_view(zone.server_error_code),
                option_view(zone.reason),
                zone.zone_name@,
            ),
        ) && feed_fault(Some(zone))->0 is Some,
{
}

/// The members of a container are the items of its living membership records, and of no other
/// records.
pub proof fn law_members_are_named_by_living_relations(
    records: Seq<RecordView>,
    container_id: Seq<char>,
)
    ensures
        forall|item: Seq<char>| #[trigger]
            relation_items(records, container_id).contains(item) <==> exists|i: int|
                {
                    &&& 0 <= i < records.len()
                    &&& (#[trigger] records[i]).record_type == "CPLContainerRelation"@
                    &&& records[i].deleted != Some(true)
                    &&& member_of(member(records[i].fields, "containerId"@), "value"@) == Some(
                        JsonView::Text(container_id),
                    )
                    &&& member_of(member(records[i].fields, "itemId"@), "value"@) == Some(
                        JsonView::Text(item),
                    )
                },
    decreases records.len(),
{
    if records.len() > 0 {
        let fewer = records.drop_last();
        law_members_are_named_by_living_relations(fewer, container_id);
        let last = records.len() - 1;
        assert forall|item: Seq<char>| #[trigger]
            relation_items(records, container_id).contains(item) <==> exists|i: int|
                {
                    &&& 0 <= i < records.len()
                    &&& (#[trigger] records[i]).record_type == "CPLContainerRelation"@
                    &&& records[i].deleted != Some(true)
                    &&& member_of(member(records[i].fields, "containerId"@), "value"@) == Some(
                        JsonView::Text(container_id),
                    )
                    &&& member_of(member(records[i].fields, "itemId"@), "value"@) == Some(
                        JsonView::Text(item),
                    )
                } by {
            if relation_items(fewer, container_id).contains(item) {
                let i = choose|i: int|
                    {
                        &&& 0 <= i < fewer.len()
                        &&& (#[trigger] fewer[i]).record_type == "CPLContainerRelation"@
                        &&& fewer[i].deleted != Some(true)
                        &&& member_of(member(fewer[i].fields, "containerId"@), "value"@) == Some(
                            JsonView::Text(container_id),
                        )
                        &&& member_of(member(fewer[i].fields, "itemId"@), "value"@) == Some(
                            JsonView::Text(item),
                        )
                    };
                assert(records[i] == fewer[i]);
            } else if relation_items(records, container_id).contains(item) {
                assert(records[last] == records.last());
                assert(relation_item(records.last(), container_id) == Some(item));
            }
            if exists|i: int|
                {
                    &&& 0 <= i < records.len()
                    &&& (#[trigger] records[i]).record_type == "CPLContainerRelation"@
                    &&& records[i].deleted != Some(true)
                    &&& member_of(member(records[i].fields, "containerId"@), "value"@) == Some(
                        JsonView::Text(container_id),
                    )
                    &&& member_of(member(records[i].fields, "itemId"@), "value"@) == Some(
                        JsonView::Text(item),
                    )
                } {
                let i = choose|i: int|
                    {
                        &&& 0 <= i < records.len()
                        &&& (#[trigger] records[i]).record_type == "CPLContainerRelation"@
                        &&& records[i].deleted != Some(true)
                        &&& member_of(member(records[i].fields, "containerId"@), "value"@) == Some(
                            JsonView::Text(container_id),
                        )
                        &&& member_of(member(records[i].fields, "itemId"@), "value"@) == Some(
                            JsonView::Text(item),
                        )
                    };
                if i < last {
                    assert(fewer[i] == records[i]);
                    assert(relation_items(fewer, container_id).contains(item));
                } else {
                    assert(relation_item(records.last(), container_id) == Some(item));
                }
            }
        }
    }
}

/// A missing asset that comes is found: it is missing no longer, and it is among the matched
/// ones as it came, with its zone noted.
pub proof fn law_a_missing_asset_that_comes_is_found(
    m: MatcherView,
    events: Seq<EventView>,
    k: int,
)
    requires
        0 <= k < events.len(),
        events[k].asset is Some,
        m.missing.contains(events[k].asset->0.asset_record_name),
    ensures
        !matched_events(m, events).missing.contains(events[k].asset->0.asset_record_name),
        exists|i: int|
            m.matched.len() <= i < matched_events(m, events).matched.len() && (
            #[trigger] matched_events(m, events).matched[i]).asset_record_name
                == events[k].asset->0.asset_record_name,
    decreases events.len(),
{
    let name = events[k].asset->0.asset_record_name;
    let fewer = events.drop_last();
    let before = matched_events(m, fewer);
    let after = matched_events(m, events);
    lemma_events_account(m, fewer);
    lemma_events_account(m, events);
    if k < fewer.len() {
        law_a_missing_asset_that_comes_is_found(m, fewer, k);
    } else {
        assert(events.last() == events[k]);
    }
    assert(!after.missing.contains(name));
}

/// Members are looked for in other zones exactly where nothing limits the enumeration and fewer
/// were seen than are counted.
pub proof fn law_members_are_looked_for_where_some_are_short(
    limit: Option<u32>,
    total_count: Option<u64>,
    seen: int,
)
    ensures
        is_short(limit, total_count, seen) <==> limit is None && total_count is Some && seen
            < total_count->0,
{
}

/// Each fault of a count is told in its own words, and a value that is no count by how it
/// reads. Of one of several counts it is told which one it is.
pub proof fn law_count_faults_are_told_in_their_own_words(
    value: Seq<char>,
    json: JsonView,
    fault: CountFaultView,
    pass: nat,
)
    ensures
        contains_text(count_fault_text(CountFaultView::NoQuery, value), "query result"@),
        contains_text(count_fault_text(CountFaultView::NoRecords, value), "no records"@),
        contains_text(
            count_fault_text(CountFaultView::NoItemCount, value),
            "not include itemCount"@,
        ),
        contains_text(count_fault_text(CountFaultView::NoValue, value), "not include a value"@),
        value.is_suffix_of(count_fault_text(CountFaultView::NotACount(json), value)),
        contains_text(pass_fault_text(fault, pass as int), "pass "@ + decimal_text(pass)),
{
    reveal_strlit("Apple did not return an album count query result");
    reveal_strlit("query result");
    let query = count_fault_text(CountFaultView::NoQuery, value);
    assert(query.subrange(36, 48) =~= "query result"@);
    assert(occurs_at(query, "query result"@, 36));
    reveal_strlit("Apple's album count query returned no records");
    reveal_strlit("no records");
    let records = count_fault_text(CountFaultView::NoRecords, value);
    assert(records.subrange(35, 45) =~= "no records"@);
    assert(occurs_at(records, "no records"@, 35));
    reveal_strlit("Apple's album count record did not include itemCount");
    reveal_strlit("not include itemCount");
    let item = count_fault_text(CountFaultView::NoItemCount, value);
    assert(item.subrange(31, 52) =~= "not include itemCount"@);
    assert(occurs_at(item, "not include itemCount"@, 31));
    reveal_strlit("Apple's album count itemCount did not include a value");
    reveal_strlit("not include a value");
    let no_value = count_fault_text(CountFaultView::NoValue, value);
    assert(no_value.subrange(34, 53) =~= "not include a value"@);
    assert(occurs_at(no_value, "not include a value"@, 34));
    let bad = count_fault_text(CountFaultView::NotACount(json), value);
    assert(bad.subrange(bad.len() - value.len(), bad.len() as int) =~= value);
    reveal_strlit("pass ");
    reveal_strlit("Apple did not return an album count for pass ");
    reveal_strlit("Could not read Apple's album count result for pass ");
    let told = pass_fault_text(fault, pass as int);
    let named = "pass "@ + decimal_text(pass);
    if fault is NoQuery {
        assert(told.subrange(40, 40 + named.len() as int) =~= named);
        assert(occurs_at(told, named, 40));
    } else {
        assert(told.subrange(46, 46 + named.len() as int) =~= named);
        assert(occurs_at(told, named, 46));
    }
}

/// An asset that was missing is noted as it came, with the zone that it was found in, and is
/// missing no longer; any other event changes nothing.
pub proof fn law_a_found_asset_is_noted_with_its_zone(m: MatcherView, event: EventView)
    ensures
        ({
            let after = matched_events(m, seq![event]);
            &&& after.pending == m.pending
            &&& after.source_zone == m.source_zone
            &&& match event.asset {
                Some(asset) if m.missing.contains(asset.asset_record_name) => {
                    &&& after.missing == m.missing.remove(asset.asset_record_name)
                    &&& after.matched.len() == m.matched.len() + 1
                    &&& after.matched.drop_last() == m.matched
                    &&& after.matched.last().source_zone == Some(m.source_zone)
                    &&& after.matched.last().record_name == asset.record_name
                    &&& after.matched.last().asset_record_name == asset.asset_record_name
                    &&& after.matched.last().metadata == asset.metadata
                    &&& after.matched.last().versions == asset.versions
                    &&& after.matched.last().malformed == asset.malformed
                    &&& after.matched.last().filename == asset.filename
                    &&& after.matched.last().state_record_name == asset.state_record_name
                    &&& after.matched.last().item_type == asset.item_type
                    &&& after.matched.last().asset_date == asset.asset_date
                    &&& after.matched.last().added_date == asset.added_date
                },
                _ => after == m,
            }
        }),
{
    reveal_with_fuel(matched_events, 2);
    assert(seq![event].drop_last() =~= Seq::empty());
    let after = matched_events(m, seq![event]);
    assert(after == matched_event(m, event));
    if let Some(asset) = event.asset {
        if m.missing.contains(asset.asset_record_name) {
            assert(after.matched.drop_last() =~= m.matched);
        }
    }
}

} // verus!
