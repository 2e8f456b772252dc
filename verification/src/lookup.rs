//! Looking up single records: what a reply says about each of them, and what several replies
//! say together about one state.
use crate::asset::{asset_of, PhotoAsset, PhotoAssetView};
use crate::cloudkit::{Record, RecordView};
use crate::dates::{
    calendar_instant, calendar_millis, instant_view, FIRST_MILLIS, LAST_MILLIS,
};
use crate::fetch::{lemma_place_bounds, option_record_view, place};
use crate::json::{
    bool_of, field, law_the_first_member_of_a_name_is_read, lemma_list_views, list_of, list_views,
    member, member_of, signed_of, text_of, Json,
    JsonView,
};
use crate::queries::{desired_key_views, desired_keys_values};
use crate::session::{api_error_text, ApiError};
use crate::tables::{empty_table, found, keyed, table_get, table_insert};
use crate::text::{contains_text, decimal, decimal_text, occurs_at, str_eq};
use rustc_hash::FxHashMap;
use vstd::prelude::*;

verus! {

/// How many requests are put into one lookup.
pub const RECORD_LOOKUP_BATCH_SIZE: usize = 100;

/// A pair of records to look up, and the name that their state is kept under.
#[derive(Debug, PartialEq, Eq)]
pub struct RecordLookupRequest {
    pub state_id: String,
    pub master_record_name: String,
    pub asset_record_name: String,
}

/// A [`RecordLookupRequest`] with its texts taken by their characters.
#[verifier::ext_equal]
pub struct RequestView {
    pub state_id: Seq<char>,
    pub master: Seq<char>,
    pub asset: Seq<char>,
}

impl View for RecordLookupRequest {
    type V = RequestView;

    open spec fn view(&self) -> RequestView {
        RequestView {
            state_id: self.state_id@,
            master: self.master_record_name@,
            asset: self.asset_record_name@,
        }
    }
}

/// The views of a list of requests.
pub open spec fn request_views(requests: Seq<RecordLookupRequest>) -> Seq<RequestView> {
    requests.map_values(|r: RecordLookupRequest| r@)
}

/// Why a lookup gave nothing.
#[derive(Debug, PartialEq, Eq)]
pub enum ProviderLookupError {
    Authentication { status: u16, message: String },
    RateLimited { status: u16, message: String },
    Request(String),
    Malformed(String),
}

/// A [`ProviderLookupError`] with its text taken by its characters.
#[verifier::ext_equal]
pub enum LookupErrorView {
    Authentication(u16, Seq<char>),
    RateLimited(u16, Seq<char>),
    Request(Seq<char>),
    Malformed(Seq<char>),
}

impl View for ProviderLookupError {
    type V = LookupErrorView;

    open spec fn view(&self) -> LookupErrorView {
        match self {
            ProviderLookupError::Authentication { status, message } => {
                LookupErrorView::Authentication(*status, message@)
            },
            ProviderLookupError::RateLimited { status, message } => LookupErrorView::RateLimited(
                *status,
                message@,
            ),
            ProviderLookupError::Request(message) => LookupErrorView::Request(message@),
            ProviderLookupError::Malformed(message) => LookupErrorView::Malformed(message@),
        }
    }
}

/// What an error says.
pub open spec fn lookup_error_text(error: LookupErrorView) -> Seq<char> {
    match error {
        LookupErrorView::Authentication(status, message) => {
            "provider authentication failed with HTTP "@ + decimal_text(status as nat) + ": "@
                + message
        },
        LookupErrorView::RateLimited(status, message) => {
            "provider record lookup was rate limited with HTTP "@ + decimal_text(status as nat)
                + ": "@ + message
        },
        LookupErrorView::Request(message) => "provider record lookup request failed: "@ + message,
        LookupErrorView::Malformed(message) => {
            "provider record lookup response was malformed: "@ + message
        },
    }
}

impl ProviderLookupError {
    /// An error that says the same.
    pub fn duplicate(&self) -> (copy: Self)
        ensures
            copy@ == self@,
    {
        match self {
            ProviderLookupError::Authentication { status, message } => {
                ProviderLookupError::Authentication { status: *status, message: message.clone() }
            },
            ProviderLookupError::RateLimited { status, message } => {
                ProviderLookupError::RateLimited { status: *status, message: message.clone() }
            },
            ProviderLookupError::Request(message) => ProviderLookupError::Request(message.clone()),
            ProviderLookupError::Malformed(message) => {
                ProviderLookupError::Malformed(message.clone())
            },
        }
    }

    /// The error in words.
    pub fn message(&self) -> (text: String)
        ensures
            text@ == lookup_error_text(self@),
    {
        match self {
            ProviderLookupError::Authentication { status, message } => {
                let mut text = "provider authentication failed with HTTP ".to_owned();
                text.append(&decimal(*status as u64));
                text.append(": ");
                text.append(message);
                text
            },
            ProviderLookupError::RateLimited { status, message } => {
                let mut text = "provider record lookup was rate limited with HTTP ".to_owned();
                text.append(&decimal(*status as u64));
                text.append(": ");
                text.append(message);
                text
            },
            ProviderLookupError::Request(message) => {
                let mut text = "provider record lookup request failed: ".to_owned();
                text.append(message);
                text
            },
            ProviderLookupError::Malformed(message) => {
                let mut text = "provider record lookup response was malformed: ".to_owned();
                text.append(message);
                text
            },
        }
    }
}

/// What a failed request means for a lookup.
pub open spec fn lookup_error_of(error: ApiError) -> LookupErrorView {
    let message = api_error_text(error);
    match error {
        ApiError::Http(http) => if http.status == 401 || http.status == 403 || http.status == 421 {
            LookupErrorView::Authentication(http.status, message)
        } else if http.status == 429 || http.status == 503 {
            LookupErrorView::RateLimited(http.status, message)
        } else {
            LookupErrorView::Request(message)
        },
        _ => LookupErrorView::Request(message),
    }
}

/// What a failed request means for a lookup: whether the account was refused, whether there
/// were too many requests, or neither.
pub fn classify_provider_lookup_error(error: &ApiError) -> (result: ProviderLookupError)
    ensures
        result@ == lookup_error_of(*error),
{
    let message = error.message();
    match error {
        ApiError::Http(http) => {
            let status = http.status;
            if status == 401 || status == 403 || status == 421 {
                ProviderLookupError::Authentication { status, message }
            } else if status == 429 || status == 503 {
                ProviderLookupError::RateLimited { status, message }
            } else {
                ProviderLookupError::Request(message)
            }
        },
        _ => ProviderLookupError::Request(message),
    }
}

/// One record of a reply: as it came, and as a record, where it could be read as one.
pub struct LookupReply {
    pub json: Json,
    pub record: Option<Record>,
}

/// A [`LookupReply`] by its view.
#[verifier::ext_equal]
pub struct ReplyView {
    pub json: JsonView,
    pub record: Option<RecordView>,
}

impl View for LookupReply {
    type V = ReplyView;

    open spec fn view(&self) -> ReplyView {
        ReplyView { json: self.json@, record: option_record_view(self.record) }
    }
}

/// The views of a list of replies.
pub open spec fn reply_views(replies: Seq<LookupReply>) -> Seq<ReplyView> {
    replies.map_values(|r: LookupReply| r@)
}

/// What became of a request.
pub enum RecordResolution {
    /// Both records are there.
    Present(PhotoAsset),
    /// A record is gone; the master's being gone means that the whole family is. The instant
    /// is in milliseconds since the Unix epoch.
    Deleted { deleted_at: Option<i64>, master_family: bool },
    /// The reply does not say.
    Unknown,
    /// There was no reply.
    TransientFailure(ProviderLookupError),
}

/// A [`RecordResolution`] by its view.
#[verifier::ext_equal]
pub enum ResolutionView {
    Present(PhotoAssetView),
    Deleted(Option<int>, bool),
    Unknown,
    TransientFailure(LookupErrorView),
}

impl View for RecordResolution {
    type V = ResolutionView;

    open spec fn view(&self) -> ResolutionView {
        match self {
            RecordResolution::Present(asset) => ResolutionView::Present(asset@),
            RecordResolution::Deleted { deleted_at, master_family } => ResolutionView::Deleted(
                instant_view(*deleted_at),
                *master_family,
            ),
            RecordResolution::Unknown => ResolutionView::Unknown,
            RecordResolution::TransientFailure(error) => ResolutionView::TransientFailure(error@),
        }
    }
}

/// The views of named resolutions.
pub open spec fn resolution_views(results: Seq<(String, RecordResolution)>) -> Seq<
    (Seq<char>, ResolutionView),
> {
    results.map_values(|r: (String, RecordResolution)| (r.0@, r.1@))
}

/// How much a resolution tells. A sibling that is there settles the matter; a master that is
/// gone proves that the family is; and a sibling that nothing is known of keeps a lone
/// deletion from counting.
pub open spec fn evidence(resolution: ResolutionView) -> int {
    match resolution {
        ResolutionView::Present(_) => 3,
        ResolutionView::Deleted(_, master_family) => if master_family {
            2
        } else {
            0
        },
        ResolutionView::Unknown => 1,
        ResolutionView::TransientFailure(_) => 1,
    }
}

/// Two resolutions of one state, merged: the one that tells more, the earlier one in a tie.
pub open spec fn merged(existing: ResolutionView, incoming: ResolutionView) -> ResolutionView {
    if evidence(incoming) > evidence(existing) {
        incoming
    } else {
        existing
    }
}

/// Whether a resolution settles its state.
pub open spec fn is_settled(resolution: ResolutionView) -> bool {
    resolution is Present || resolution is Deleted
}

/// The name that a reply is about.
pub open spec fn reply_name(reply: ReplyView) -> Option<Seq<char>> {
    text_of(member(reply.json, "recordName"@))
}

/// The last reply about a name.
pub open spec fn reply_about(replies: Seq<ReplyView>, name: Seq<char>) -> Option<ReplyView>
    decreases replies.len(),
{
    if replies.len() == 0 {
        None
    } else if reply_name(replies.last()) == Some(name) {
        Some(replies.last())
    } else {
        reply_about(replies.drop_last(), name)
    }
}

/// Whether a reply says that its record does not exist, or that it was deleted. That a record
/// is not in the reply says nothing.
pub open spec fn says_deleted(reply: Option<ReplyView>) -> bool {
    match reply {
        Some(reply) => {
            let code = text_of(member(reply.json, "serverErrorCode"@));
            ||| code == Some("UNKNOWN_ITEM"@)
            ||| code == Some("NOT_FOUND"@)
            ||| bool_of(member(reply.json, "deleted"@)) == Some(true)
        },
        None => false,
    }
}

/// When a reply says that its record was deleted.
pub open spec fn deletion_instant(reply: Option<ReplyView>) -> Option<int> {
    match reply {
        Some(reply) => match signed_of(
            member_of(member_of(member(reply.json, "fields"@), "deletedDate"@), "value"@),
        ) {
            Some(millis) => calendar_millis(millis as int),
            None => None,
        },
        None => None,
    }
}

/// The asset that two replies give, where both are records of the right types.
pub open spec fn replied_asset(
    request: RequestView,
    master: Option<ReplyView>,
    asset: Option<ReplyView>,
) -> Option<PhotoAssetView> {
    match (master, asset) {
        (Some(ReplyView { record: Some(master), .. }), Some(ReplyView { record: Some(asset), .. }))
        => if master.record_type == "CPLMaster"@ && asset.record_type == "CPLAsset"@ {
            let photo = asset_of(master, asset, None);
            Some(
                if request.state_id == request.master {
                    photo
                } else {
                    PhotoAssetView { state_record_name: Some(request.state_id), ..photo }
                },
            )
        } else {
            None
        },
        _ => None,
    }
}

/// What the replies say about a request.
pub open spec fn resolution_of(request: RequestView, replies: Seq<ReplyView>) -> ResolutionView {
    let master = reply_about(replies, request.master);
    let asset = reply_about(replies, request.asset);
    if says_deleted(master) || says_deleted(asset) {
        ResolutionView::Deleted(
            match deletion_instant(master) {
                Some(millis) => Some(millis),
                None => deletion_instant(asset),
            },
            says_deleted(master),
        )
    } else {
        match replied_asset(request, master, asset) {
            Some(photo) => ResolutionView::Present(photo),
            None => ResolutionView::Unknown,
        }
    }
}

/// Whether a record's reply says that it is gone.
fn is_reply_deleted(reply: Option<&LookupReply>) -> (deleted: bool)
    ensures
        deleted == says_deleted(option_reply_view(reply)),
{
    match reply {
        Some(reply) => {
            let absent = match reply.json.get_str("serverErrorCode") {
                Some(code) => str_eq(code, "UNKNOWN_ITEM") || str_eq(code, "NOT_FOUND"),
                None => false,
            };
            let tombstone = match reply.json.get("deleted") {
                Some(deleted) => match deleted.as_bool() {
                    Some(deleted) => deleted,
                    None => false,
                },
                None => false,
            };
            absent || tombstone
        },
        None => false,
    }
}

/// The view of an optional reply.
pub open spec fn option_reply_view(reply: Option<&LookupReply>) -> Option<ReplyView> {
    match reply {
        Some(reply) => Some(reply@),
        None => None,
    }
}

/// When a reply says that its record was deleted.
fn deleted_instant(reply: Option<&LookupReply>) -> (instant: Option<i64>)
    ensures
        instant_view(instant) == deletion_instant(option_reply_view(reply)),
{
    match reply {
        Some(reply) => match reply.json.get("fields") {
            Some(fields) => match fields.field("deletedDate") {
                Some(value) => match value.as_i64() {
                    Some(millis) => calendar_instant(millis),
                    None => None,
                },
                None => None,
            },
            None => None,
        },
        None => None,
    }
}

/// The asset that two replies give.
fn reply_photo(
    request: &RecordLookupRequest,
    master: Option<&LookupReply>,
    asset: Option<&LookupReply>,
) -> (photo: Option<PhotoAsset>)
    ensures
        match photo {
            Some(photo) => replied_asset(
                request@,
                option_reply_view(master),
                option_reply_view(asset),
            ) == Some(photo@),
            None => replied_asset(
                request@,
                option_reply_view(master),
                option_reply_view(asset),
            ) is None,
        },
{
    match (master, asset) {
        (Some(master), Some(asset)) => match (&master.record, &asset.record) {
            (Some(master), Some(asset)) => if str_eq(&master.record_type, "CPLMaster") && str_eq(
                &asset.record_type,
                "CPLAsset",
            ) {
                let photo = PhotoAsset::from_records(master, asset);
                if str_eq(&request.state_id, &request.master_record_name) {
                    Some(photo)
                } else {
                    Some(photo.with_state_record_name(&request.state_id))
                }
            } else {
                None
            },
            _ => None,
        },
        _ => None,
    }
}

/// Where the last reply about each name stands.
pub open spec fn is_index(table: Map<Seq<char>, usize>, replies: Seq<ReplyView>) -> bool {
    forall|name: Seq<char>|
        match #[trigger] found(table, name) {
            Some(i) => i < replies.len() && reply_about(replies, name) == Some(replies[i as int]),
            None => reply_about(replies, name) is None,
        }
}

/// Find where the last reply about each name stands.
fn index_replies(replies: &Vec<LookupReply>) -> (table: FxHashMap<String, usize>)
    ensures
        is_index(keyed(table), reply_views(replies@)),
{
    let ghost views = reply_views(replies@);
    let mut table: FxHashMap<String, usize> = empty_table();
    let mut i: usize = 0;
    while i < replies.len()
        invariant
            i <= replies.len(),
            views == reply_views(replies@),
            is_index(keyed(table), views.take(i as int)),
        decreases replies.len() - i,
    {
        let ghost before = keyed(table);
        proof {
            assert(views.take(i + 1).drop_last() =~= views.take(i as int));
            assert(views.take(i + 1).last() == replies@[i as int]@);
        }
        if let Some(name) = replies[i].json.get_str("recordName") {
            let _ = table_insert(&mut table, name.to_owned(), i);
        }
        proof {
            let now = views.take(i + 1);
            assert forall|name: Seq<char>|
                match #[trigger] found(keyed(table), name) {
                    Some(k) => k < now.len() && reply_about(now, name) == Some(now[k as int]),
                    None => reply_about(now, name) is None,
                } by {
                let earlier = found(before, name);
                match earlier {
                    Some(k) => {
                        assert(views.take(i as int)[k as int] == now[k as int]);
                    },
                    None => {},
                }
            }
        }
        i = i + 1;
    }
    proof {
        assert(views.take(i as int) =~= views);
    }
    table
}

/// What the replies say about a request.
fn resolve_one(
    request: &RecordLookupRequest,
    replies: &Vec<LookupReply>,
    table: &FxHashMap<String, usize>,
) -> (resolution: RecordResolution)
    requires
        is_index(keyed(*table), reply_views(replies@)),
    ensures
        resolution@ == resolution_of(request@, reply_views(replies@)),
{
    let master = match table_get(table, &request.master_record_name) {
        Some(i) => Some(&replies[*i]),
        None => None,
    };
    let asset = match table_get(table, &request.asset_record_name) {
        Some(i) => Some(&replies[*i]),
        None => None,
    };
    let master_deleted = is_reply_deleted(master);
    if master_deleted || is_reply_deleted(asset) {
        let deleted_at = match deleted_instant(master) {
            Some(millis) => Some(millis),
            None => deleted_instant(asset),
        };
        return RecordResolution::Deleted { deleted_at, master_family: master_deleted };
    }
    match reply_photo(request, master, asset) {
        Some(photo) => RecordResolution::Present(photo),
        None => RecordResolution::Unknown,
    }
}

// Requests.

/// How many lookups so many requests take.
pub open spec fn batch_count(requests: int) -> int {
    (requests + RECORD_LOOKUP_BATCH_SIZE - 1) / RECORD_LOOKUP_BATCH_SIZE as int
}

/// The requests of the lookup number `i`.
pub open spec fn batch_of<A>(requests: Seq<A>, i: int) -> Seq<A> {
    let from = i * RECORD_LOOKUP_BATCH_SIZE;
    let to = from + RECORD_LOOKUP_BATCH_SIZE;
    requests.subrange(
        from,
        if to <= requests.len() {
            to
        } else {
            requests.len() as int
        },
    )
}

/// The names that a list of requests asks for: each master's, then its asset's.
pub open spec fn asked_names(requests: Seq<RequestView>) -> Seq<Seq<char>>
    decreases requests.len(),
{
    if requests.len() == 0 {
        Seq::empty()
    } else {
        asked_names(requests.drop_last()).push(requests.last().master).push(requests.last().asset)
    }
}

/// The names of a list, each once, where it stood first.
pub open spec fn each_once(names: Seq<Seq<char>>) -> Seq<Seq<char>>
    decreases names.len(),
{
    if names.len() == 0 {
        Seq::empty()
    } else {
        let before = each_once(names.drop_last());
        if names.drop_last().contains(names.last()) {
            before
        } else {
            before.push(names.last())
        }
    }
}

/// The entries of a lookup for a list of names.
pub open spec fn name_entries(names: Seq<Seq<char>>) -> Seq<JsonView> {
    names.map_values(
        |name: Seq<char>| JsonView::Object(seq![("recordName"@, JsonView::Text(name))]),
    )
}

/// The body of a lookup: the records that the requests ask for, each once, in one zone.
pub open spec fn lookup_body_of(requests: Seq<RequestView>, zone_id: JsonView) -> JsonView {
    JsonView::Object(
        seq![
            ("records"@, JsonView::List(name_entries(each_once(asked_names(requests))))),
            ("zoneID"@, zone_id),
            ("desiredKeys"@, JsonView::List(desired_key_views())),
        ],
    )
}

/// How many lookups so many requests take.
pub fn lookup_batches(requests: &Vec<RecordLookupRequest>) -> (n: usize)
    ensures
        n == batch_count(requests@.len() as int),
{
    let len = requests.len();
    let whole: usize = len / RECORD_LOOKUP_BATCH_SIZE;
    if len % RECORD_LOOKUP_BATCH_SIZE == 0 {
        whole
    } else {
        whole + 1
    }
}

/// Where the requests of a lookup begin and end.
fn batch_bounds(len: usize, i: usize) -> (bounds: (usize, usize))
    requires
        i < batch_count(len as int),
    ensures
        bounds.0 == i * RECORD_LOOKUP_BATCH_SIZE,
        bounds.0 < bounds.1 <= len,
        bounds.1 == if (i + 1) * RECORD_LOOKUP_BATCH_SIZE <= len {
            (i + 1) * RECORD_LOOKUP_BATCH_SIZE
        } else {
            len as int
        },
{
    let from: usize = i * RECORD_LOOKUP_BATCH_SIZE;
    let to: usize = if len - from >= RECORD_LOOKUP_BATCH_SIZE {
        from + RECORD_LOOKUP_BATCH_SIZE
    } else {
        len
    };
    (from, to)
}

/// Note a name that is asked for, unless it was before.
fn ask_for(
    seen: &mut FxHashMap<String, ()>,
    records: &mut Vec<Json>,
    name: &str,
    Ghost(names): Ghost<Seq<Seq<char>>>,
)
    requires
        forall|n: Seq<char>| #[trigger]
            keyed(*old(seen)).contains_key(n) <==> names.contains(n),
        list_views(old(records)@) == name_entries(each_once(names)),
    ensures
        forall|n: Seq<char>| #[trigger]
            keyed(*final(seen)).contains_key(n) <==> names.push(name@).contains(n),
        list_views(final(records)@) == name_entries(each_once(names.push(name@))),
{
    let ghost all = names.push(name@);
    let ghost seen_before = keyed(*seen);
    proof {
        assert(all.drop_last() =~= names);
        assert forall|n: Seq<char>| all.contains(n) <==> names.contains(n) || n == name@ by {
            if names.contains(n) {
                let k = choose|k: int| 0 <= k < names.len() && names[k] == n;
                assert(all[k] == n);
            }
            if n == name@ {
                assert(all[names.len() as int] == n);
            }
        }
    }
    if table_insert(seen, name.to_owned(), ()).is_none() {
        let ghost before = records@;
        let entry = Json::empty_object().with("recordName", Json::text(name));
        proof {
            assert(Seq::empty().push(("recordName"@, JsonView::Text(name@))) =~= seq![
                ("recordName"@, JsonView::Text(name@)),
            ]);
        }
        records.push(entry);
        proof {
            lemma_list_views(records@);
            lemma_list_views(before);
            assert(records@.drop_last() =~= before);
            assert(list_views(records@) =~= name_entries(each_once(all)));
        }
    } else {
        assert(seen_before.contains_key(name@));
    }
}

/// The body of the lookup number `i`.
pub fn lookup_body(requests: &Vec<RecordLookupRequest>, i: usize, zone_id: &Json) -> (body: Json)
    requires
        i < batch_count(requests@.len() as int),
    ensures
        body@ == lookup_body_of(batch_of(request_views(requests@), i as int), zone_id@),
{
    let (from, to) = batch_bounds(requests.len(), i);
    let ghost batch = batch_of(request_views(requests@), i as int);
    let mut seen: FxHashMap<String, ()> = empty_table();
    let mut records: Vec<Json> = Vec::new();
    let mut k: usize = from;
    proof {
        assert(list_views(records@) =~= name_entries(each_once(asked_names(batch.take(0)))));
    }
    while k < to
        invariant
            from <= k <= to <= requests.len(),
            batch == request_views(requests@).subrange(from as int, to as int),
            forall|n: Seq<char>| #[trigger]
                keyed(seen).contains_key(n) <==> asked_names(batch.take(k - from)).contains(n),
            list_views(records@) == name_entries(each_once(asked_names(batch.take(k - from)))),
        decreases to - k,
    {
        let request = &requests[k];
        let ghost names = asked_names(batch.take(k - from));
        proof {
            assert(batch.take(k - from + 1).drop_last() =~= batch.take(k - from));
            assert(batch.take(k - from + 1).last() == request@);
        }
        ask_for(&mut seen, &mut records, &request.master_record_name, Ghost(names));
        ask_for(
            &mut seen,
            &mut records,
            &request.asset_record_name,
            Ghost(names.push(request@.master)),
        );
        k = k + 1;
    }
    proof {
        assert(batch.take(to - from) =~= batch);
    }
    let body = Json::empty_object().with("records", Json::list(records)).with(
        "zoneID",
        zone_id.duplicate(),
    ).with("desiredKeys", Json::list(desired_keys_values()));
    proof {
        match (body@, lookup_body_of(batch, zone_id@)) {
            (JsonView::Object(a), JsonView::Object(b)) => {
                assert(a =~= b);
            },
            _ => {},
        }
    }
    body
}

// Replies.

/// What came back for a lookup.
pub enum BatchReply {
    /// A response, with its records where it has any list of them.
    Response(Option<Vec<LookupReply>>),
    /// No response.
    Failure(ProviderLookupError),
}

/// A [`BatchReply`] by its view.
#[verifier::ext_equal]
pub enum BatchReplyView {
    Response(Option<Seq<ReplyView>>),
    Failure(LookupErrorView),
}

impl View for BatchReply {
    type V = BatchReplyView;

    open spec fn view(&self) -> BatchReplyView {
        match self {
            BatchReply::Response(Some(replies)) => BatchReplyView::Response(
                Some(reply_views(replies@)),
            ),
            BatchReply::Response(None) => BatchReplyView::Response(None),
            BatchReply::Failure(error) => BatchReplyView::Failure(error@),
        }
    }
}

/// The views of what came back.
pub open spec fn batch_reply_views(replies: Seq<BatchReply>) -> Seq<BatchReplyView> {
    replies.map_values(|r: BatchReply| r@)
}

/// What a lookup says about one of its requests.
pub open spec fn batch_resolution(request: RequestView, reply: BatchReplyView) -> ResolutionView {
    match reply {
        BatchReplyView::Response(Some(replies)) => resolution_of(request, replies),
        BatchReplyView::Response(None) => ResolutionView::TransientFailure(
            LookupErrorView::Malformed("missing records array"@),
        ),
        BatchReplyView::Failure(error) => ResolutionView::TransientFailure(error),
    }
}

/// What a lookup says about its requests.
pub open spec fn batch_resolutions(requests: Seq<RequestView>, reply: BatchReplyView) -> Seq<
    (Seq<char>, ResolutionView),
> {
    requests.map_values(|r: RequestView| (r.state_id, batch_resolution(r, reply)))
}

/// What the first `n` lookups say about their requests.
pub open spec fn all_resolutions(
    requests: Seq<RequestView>,
    replies: Seq<BatchReplyView>,
    n: int,
) -> Seq<(Seq<char>, ResolutionView)>
    decreases n,
{
    if n <= 0 {
        Seq::empty()
    } else {
        all_resolutions(requests, replies, n - 1) + batch_resolutions(
            batch_of(requests, n - 1),
            replies[n - 1],
        )
    }
}

/// A list of resolutions with one more merged into it.
pub open spec fn merged_into(
    grouped: Seq<(Seq<char>, ResolutionView)>,
    result: (Seq<char>, ResolutionView),
) -> Seq<(Seq<char>, ResolutionView)> {
    match place(grouped, result.0) {
        Some(i) => grouped.update(i, (result.0, merged(grouped[i].1, result.1))),
        None => grouped.push(result),
    }
}

/// Resolutions merged by their states, in the order in which the states came first.
pub open spec fn grouped(results: Seq<(Seq<char>, ResolutionView)>) -> Seq<
    (Seq<char>, ResolutionView),
>
    decreases results.len(),
{
    if results.len() == 0 {
        Seq::empty()
    } else {
        merged_into(grouped(results.drop_last()), results.last())
    }
}

/// Whether every state is settled.
pub open spec fn all_settled(results: Seq<(Seq<char>, ResolutionView)>) -> bool {
    forall|i: int| 0 <= i < results.len() ==> is_settled((#[trigger] results[i]).1)
}

/// What the lookups came to, and whether every state is settled.
pub struct RecordResolutionBatch {
    pub results: Vec<(String, RecordResolution)>,
    pub complete: bool,
}

/// What a lookup says about its requests, from one place to another.
fn resolve_batch(
    requests: &Vec<RecordLookupRequest>,
    from: usize,
    to: usize,
    reply: &BatchReply,
    results: &mut Vec<(String, RecordResolution)>,
)
    requires
        from <= to <= requests@.len(),
    ensures
        resolution_views(final(results)@) == resolution_views(old(results)@) + batch_resolutions(
            request_views(requests@).subrange(from as int, to as int),
            reply@,
        ),
{
    let ghost before = resolution_views(results@);
    let ghost batch = request_views(requests@).subrange(from as int, to as int);
    let table = match reply {
        BatchReply::Response(Some(replies)) => index_replies(replies),
        _ => empty_table(),
    };
    let mut k: usize = from;
    while k < to
        invariant
            from <= k <= to <= requests@.len(),
            batch == request_views(requests@).subrange(from as int, to as int),
            reply matches BatchReply::Response(Some(replies)) ==> is_index(
                keyed(table),
                reply_views(replies@),
            ),
            resolution_views(results@) =~= before + batch_resolutions(batch.take(k - from), reply@),
        decreases to - k,
    {
        let request = &requests[k];
        let resolution = match reply {
            BatchReply::Response(Some(replies)) => resolve_one(request, replies, &table),
            BatchReply::Response(None) => RecordResolution::TransientFailure(
                ProviderLookupError::Malformed("missing records array".to_owned()),
            ),
            BatchReply::Failure(error) => RecordResolution::TransientFailure(error.duplicate()),
        };
        proof {
            assert(batch[k - from] == request@);
            assert(resolution@ == batch_resolution(request@, reply@));
        }
        let ghost now = resolution_views(results@);
        let ghost view = resolution@;
        results.push((request.state_id.clone(), resolution));
        proof {
            assert(resolution_views(results@) =~= now.push((request@.state_id, view)));
            assert(batch_resolutions(batch.take(k - from + 1), reply@) =~= batch_resolutions(
                batch.take(k - from),
                reply@,
            ).push((request@.state_id, view)));
        }
        k = k + 1;
    }
    proof {
        assert(batch.take(to - from) =~= batch);
    }
}

/// How much a resolution tells.
fn resolution_evidence(resolution: &RecordResolution) -> (n: u8)
    ensures
        n == evidence(resolution@),
{
    match resolution {
        RecordResolution::Present(_) => 3,
        RecordResolution::Deleted { master_family, .. } => if *master_family {
            2
        } else {
            0
        },
        RecordResolution::Unknown => 1,
        RecordResolution::TransientFailure(_) => 1,
    }
}

/// Merge a resolution into the one that is known of its state.
pub fn merge_record_resolution(existing: RecordResolution, incoming: RecordResolution) -> (result:
    RecordResolution)
    ensures
        result@ == merged(existing@, incoming@),
{
    if resolution_evidence(&incoming) > resolution_evidence(&existing) {
        incoming
    } else {
        existing
    }
}

/// The places of names after one more resolution was merged in.
proof fn lemma_merged_places(
    list: Seq<(Seq<char>, ResolutionView)>,
    result: (Seq<char>, ResolutionView),
    name: Seq<char>,
)
    ensures
        place(merged_into(list, result), name) == (if name == result.0 && place(list, name) is None {
            Some(list.len() as int)
        } else {
            place(list, name)
        }),
    decreases list.len(),
{
    lemma_place_bounds(list, result.0);
    if list.len() == 0 {
        let new = merged_into(list, result);
        assert(new =~= seq![result]);
        assert(place(new.drop_first(), name) is None);
    } else {
        let rest = list.drop_first();
        lemma_place_bounds(rest, result.0);
        lemma_merged_places(rest, result, name);
        let new = merged_into(list, result);
        if list[0].0 == result.0 {
            assert(new.drop_first() =~= rest);
            assert(new[0].0 == list[0].0);
        } else {
            assert(new[0] == list[0]);
            match place(rest, result.0) {
                Some(i) => {
                    assert(rest[i] == list[i + 1]);
                    assert(new.drop_first() =~= merged_into(rest, result));
                },
                None => {
                    assert(new.drop_first() =~= merged_into(rest, result));
                },
            }
        }
    }
}

/// Merge resolutions by their states.
fn group_results(results: Vec<(String, RecordResolution)>) -> (list: Vec<
    (String, RecordResolution),
>)
    ensures
        resolution_views(list@) == grouped(resolution_views(results@)),
{
    let ghost views = resolution_views(results@);
    let mut list: Vec<(String, RecordResolution)> = Vec::new();
    let mut positions: FxHashMap<String, usize> = empty_table();
    for result in it: results.into_iter()
        invariant
            resolution_views(it.seq()) == views,
            it.index() <= views.len(),
            resolution_views(list@) =~= grouped(views.take(it.index() as int)),
            forall|name: Seq<char>|
                match #[trigger] found(keyed(positions), name) {
                    Some(k) => place(resolution_views(list@), name) == Some(k as int),
                    None => place(resolution_views(list@), name) is None,
                },
    {
        let ghost i = it.index() as int;
        let (state_id, resolution) = result;
        let ghost before = resolution_views(list@);
        let ghost key = state_id@;
        let ghost view = resolution@;
        let ghost positions_before = keyed(positions);
        proof {
            assert(views[i] == (key, view));
            assert(views.take(i + 1).drop_last() =~= views.take(i));
            lemma_place_bounds(before, key);
            assert(found(positions_before, key) == found(keyed(positions), key));
        }
        match table_get(&positions, &state_id) {
            Some(k) => {
                let k: usize = *k;
                let (name, existing) = list.remove(k);
                let ghost was = existing@;
                list.insert(k, (name, merge_record_resolution(existing, resolution)));
                assert(resolution_views(list@) =~= before.update(
                    k as int,
                    (key, merged(was, view)),
                ));
            },
            None => {
                let _ = table_insert(&mut positions, state_id.clone(), list.len());
                list.push((state_id, resolution));
                assert(resolution_views(list@) =~= before.push((key, view)));
            },
        }
        proof {
            assert(resolution_views(list@) == merged_into(before, (key, view)));
            assert forall|name: Seq<char>|
                match #[trigger] found(keyed(positions), name) {
                    Some(k) => place(resolution_views(list@), name) == Some(k as int),
                    None => place(resolution_views(list@), name) is None,
                } by {
                lemma_merged_places(before, (key, view), name);
                assert(found(positions_before, name) == found(positions_before, name));
            }
        }
    }
    proof {
        assert(views.take(views.len() as int) =~= views);
    }
    list
}

/// Resolve a list of requests with what came back for their lookups.
pub fn resolve_records(requests: &Vec<RecordLookupRequest>, replies: &Vec<BatchReply>) -> (batch:
    RecordResolutionBatch)
    requires
        replies@.len() == batch_count(requests@.len() as int),
    ensures
        resolution_views(batch.results@) == grouped(
            all_resolutions(
                request_views(requests@),
                batch_reply_views(replies@),
                replies@.len() as int,
            ),
        ),
        batch.complete == all_settled(resolution_views(batch.results@)),
{
    let ghost request_list = request_views(requests@);
    let ghost reply_list = batch_reply_views(replies@);
    let mut results: Vec<(String, RecordResolution)> = Vec::new();
    let mut i: usize = 0;
    while i < replies.len()
        invariant
            i <= replies@.len(),
            replies@.len() == batch_count(requests@.len() as int),
            request_list == request_views(requests@),
            reply_list == batch_reply_views(replies@),
            resolution_views(results@) =~= all_resolutions(request_list, reply_list, i as int),
        decreases replies@.len() - i,
    {
        let (from, to) = batch_bounds(requests.len(), i);
        proof {
            assert(batch_of(request_list, i as int) == request_list.subrange(
                from as int,
                to as int,
            ));
        }
        resolve_batch(requests, from, to, &replies[i], &mut results);
        i = i + 1;
    }
    let results = group_results(results);
    let ghost views = resolution_views(results@);
    let mut k: usize = 0;
    let mut complete = true;
    while k < results.len()
        invariant
            k <= results@.len(),
            views == resolution_views(results@),
            complete == forall|j: int| 0 <= j < k ==> is_settled((#[trigger] views[j]).1),
        decreases results@.len() - k,
    {
        assert(views[k as int].1 == results@[k as int].1@);
        match &results[k].1 {
            RecordResolution::Present(_) => {},
            RecordResolution::Deleted { .. } => {},
            _ => {
                assert(!is_settled(views[k as int].1));
                complete = false;
            },
        }
        k = k + 1;
    }
    RecordResolutionBatch { results, complete }
}

/// Merging a resolution in keeps what the others tell, and tells what it tells.
proof fn lemma_merged_tells(
    list: Seq<(Seq<char>, ResolutionView)>,
    result: (Seq<char>, ResolutionView),
    name: Seq<char>,
)
    ensures
        ({
            let new = merged_into(list, result);
            &&& place(new, result.0) is Some
            &&& evidence(new[place(new, result.0)->0].1) >= evidence(result.1)
            &&& place(list, name) is Some ==> place(new, name) is Some && evidence(
                new[place(new, name)->0].1,
            ) >= evidence(list[place(list, name)->0].1)
        }),
{
    lemma_place_bounds(list, name);
    lemma_place_bounds(list, result.0);
    lemma_merged_places(list, result, name);
    lemma_merged_places(list, result, result.0);
}

/// A state's resolution tells at least as much as each of the resolutions that were merged
/// into it.
pub proof fn law_merged_resolution_tells_most(
    results: Seq<(Seq<char>, ResolutionView)>,
    i: int,
)
    requires
        0 <= i < results.len(),
    ensures
        ({
            let list = grouped(results);
            let at = place(list, results[i].0);
            at is Some && evidence(list[at->0].1) >= evidence(results[i].1)
        }),
    decreases results.len(),
{
    let before = results.drop_last();
    lemma_merged_tells(grouped(before), results.last(), results[i].0);
    if i < before.len() {
        law_merged_resolution_tells_most(before, i);
    }
}

/// A state's resolution is one that a reply gave for that state: nothing is made up.
pub proof fn law_merged_resolution_was_given(
    results: Seq<(Seq<char>, ResolutionView)>,
    k: int,
)
    requires
        0 <= k < grouped(results).len(),
    ensures
        results.contains(grouped(results)[k]),
    decreases results.len(),
{
    let before = results.drop_last();
    let list = grouped(before);
    let result = results.last();
    lemma_place_bounds(list, result.0);
    assert(results[results.len() - 1] == result);
    if k < list.len() {
        law_merged_resolution_was_given(before, k);
        let j = choose|j: int| 0 <= j < before.len() && before[j] == list[k];
        assert(results[j] == list[k]);
    }
}

/// Each state is resolved once.
pub proof fn law_states_are_resolved_once(results: Seq<(Seq<char>, ResolutionView)>, j: int, k: int)
    requires
        0 <= j < k < grouped(results).len(),
    ensures
        grouped(results)[j].0 != grouped(results)[k].0,
    decreases results.len(),
{
    let before = results.drop_last();
    let list = grouped(before);
    lemma_place_bounds(list, results.last().0);
    if k < list.len() {
        law_states_are_resolved_once(before, j, k);
    } else {
        if list[j].0 == results.last().0 {
            lemma_has_place(list, j);
        }
    }
}

/// A name that stands in a list has a place in it.
proof fn lemma_has_place(list: Seq<(Seq<char>, ResolutionView)>, j: int)
    requires
        0 <= j < list.len(),
    ensures
        place(list, list[j].0) is Some,
    decreases list.len(),
{
    if list[0].0 != list[j].0 {
        lemma_has_place(list.drop_first(), j - 1);
    }
}

/// A sibling that is there keeps a shared state, whatever became of the others.
pub proof fn law_present_sibling_keeps_the_state(
    results: Seq<(Seq<char>, ResolutionView)>,
    i: int,
)
    requires
        0 <= i < results.len(),
        results[i].1 is Present,
    ensures
        ({
            let list = grouped(results);
            let at = place(list, results[i].0);
            at is Some && list[at->0].1 is Present
        }),
{
    law_merged_resolution_tells_most(results, i);
}

/// As long as a sibling's fate is open, the deletion of another one does not settle a shared
/// state: only the deletion of the master does, or a sibling that is there.
pub proof fn law_open_sibling_blocks_a_lone_deletion(
    results: Seq<(Seq<char>, ResolutionView)>,
    i: int,
)
    requires
        0 <= i < results.len(),
        !is_settled(results[i].1),
    ensures
        ({
            let list = grouped(results);
            let at = place(list, results[i].0);
            at is Some && !(list[at->0].1 matches ResolutionView::Deleted(_, false))
        }),
{
    law_merged_resolution_tells_most(results, i);
}

/// A record that the reply leaves out is not taken for deleted.
pub proof fn law_omitted_records_are_not_deleted(request: RequestView, replies: Seq<ReplyView>)
    requires
        reply_about(replies, request.master) is None,
        reply_about(replies, request.asset) is None,
    ensures
        resolution_of(request, replies) == ResolutionView::Unknown,
{
}

/// The last reply about a name is the last of those that carry it.
pub proof fn law_the_last_reply_counts(replies: Seq<ReplyView>, name: Seq<char>, i: int)
    requires
        0 <= i < replies.len(),
        text_of(member(replies[i].json, "recordName"@)) == Some(name),
        forall|j: int|
            i < j < replies.len() ==> text_of(member((#[trigger] replies[j]).json, "recordName"@))
                != Some(name),
    ensures
        reply_about(replies, name) == Some(replies[i]),
    decreases replies.len(),
{
    if i < replies.len() - 1 {
        assert(text_of(member(replies[replies.len() - 1].json, "recordName"@)) != Some(name));
        law_the_last_reply_counts(replies.drop_last(), name, i);
    }
}

/// Where no reply carries a name, there is none about it.
pub proof fn law_no_reply_about_a_name_that_none_carries(replies: Seq<ReplyView>, name: Seq<char>)
    requires
        forall|j: int|
            0 <= j < replies.len() ==> text_of(member((#[trigger] replies[j]).json, "recordName"@))
                != Some(name),
    ensures
        reply_about(replies, name) is None,
    decreases replies.len(),
{
    if replies.len() > 0 {
        assert(replies.last() == replies[replies.len() - 1]);
        law_no_reply_about_a_name_that_none_carries(replies.drop_last(), name);
    }
}

/// Whether a reply carries a sign that its record is gone: the code of an unknown record, that
/// of one that was not found, or the mark of a deletion.
pub open spec fn carries_a_deletion(reply: ReplyView) -> bool {
    ||| member(reply.json, "deleted"@) == Some(JsonView::Bool(true))
    ||| member(reply.json, "serverErrorCode"@) == Some(JsonView::Text("UNKNOWN_ITEM"@))
    ||| member(reply.json, "serverErrorCode"@) == Some(JsonView::Text("NOT_FOUND"@))
}

/// A request resolves to a deletion exactly where the last reply about its master or the last
/// one about its asset carries a sign of one. Where the master's does, the whole family is
/// gone; and only there.
pub proof fn law_a_deletion_is_what_a_reply_carries(request: RequestView, replies: Seq<ReplyView>)
    ensures
        ({
            let master = reply_about(replies, request.master);
            let asset = reply_about(replies, request.asset);
            let master_gone = master is Some && carries_a_deletion(master->0);
            let asset_gone = asset is Some && carries_a_deletion(asset->0);
            let resolution = resolution_of(request, replies);
            &&& resolution is Deleted <==> master_gone || asset_gone
            &&& resolution matches ResolutionView::Deleted(_, family) ==> family == master_gone
        }),
{
}

/// A request whose records both came as living ones of the right types resolves to the asset
/// that they make; where either did not come so, and neither is gone, nothing is known.
pub proof fn law_both_records_make_the_asset(request: RequestView, replies: Seq<ReplyView>)
    requires
        resolution_of(request, replies) !is Deleted,
    ensures
        ({
            let master = reply_about(replies, request.master);
            let asset = reply_about(replies, request.asset);
            let resolution = resolution_of(request, replies);
            if master is Some && asset is Some && master->0.record is Some
                && asset->0.record is Some && master->0.record->0.record_type == "CPLMaster"@
                && asset->0.record->0.record_type == "CPLAsset"@ {
                let made = asset_of(master->0.record->0, asset->0.record->0, None);
                &&& resolution is Present
                &&& resolution->Present_0.record_name == made.record_name
                &&& resolution->Present_0.asset_record_name == made.asset_record_name
                &&& resolution->Present_0.metadata == made.metadata
                &&& resolution->Present_0.versions == made.versions
                &&& resolution->Present_0.filename == made.filename
                &&& resolution->Present_0.item_type == made.item_type
                &&& resolution->Present_0.asset_date == made.asset_date
                &&& resolution->Present_0.added_date == made.added_date
                &&& resolution->Present_0.source_zone is None
                &&& (request.state_id == request.master ==> resolution->Present_0 == made)
                &&& (request.state_id != request.master
                    ==> resolution->Present_0.state_record_name == Some(request.state_id))
            } else {
                resolution is Unknown
            }
        }),
{
}

/// What a reply gives as the instant of a deletion, as it stands in the reply.
pub open spec fn said_instant(reply: Option<ReplyView>) -> Option<JsonView> {
    match reply {
        Some(reply) => member_of(
            member_of(member(reply.json, "fields"@), "deletedDate"@),
            "value"@,
        ),
        None => None,
    }
}

/// A deletion's instant is the master's `deletedDate`, else the asset's, each only where it is
/// an integer that a calendar date can hold.
pub proof fn law_a_deletions_instant_is_the_masters_first(
    request: RequestView,
    replies: Seq<ReplyView>,
)
    requires
        resolution_of(request, replies) is Deleted,
    ensures
        ({
            let at = resolution_of(request, replies)->Deleted_0;
            let of_master = signed_of(said_instant(reply_about(replies, request.master)));
            let of_asset = signed_of(said_instant(reply_about(replies, request.asset)));
            if of_master is Some && FIRST_MILLIS <= of_master->0 <= LAST_MILLIS {
                at == Some(of_master->0 as int)
            } else if of_asset is Some && FIRST_MILLIS <= of_asset->0 <= LAST_MILLIS {
                at == Some(of_asset->0 as int)
            } else {
                at is None
            }
        }),
{
}

/// Of two resolutions of one state, a record that is there beats everything; a master that is
/// gone beats what is open and what is gone alone; what is open beats what is gone alone. Of
/// two that tell as much, the earlier stays.
pub proof fn law_the_stronger_resolution_wins(existing: ResolutionView, incoming: ResolutionView)
    ensures
        existing is Present ==> merged(existing, incoming) == existing,
        incoming is Present && existing !is Present ==> merged(existing, incoming) == incoming,
        (existing matches ResolutionView::Deleted(_, true)) && incoming !is Present ==> merged(
            existing,
            incoming,
        ) == existing,
        (incoming matches ResolutionView::Deleted(_, true)) && (existing is Unknown
            || existing is TransientFailure || (existing matches ResolutionView::Deleted(_, false)))
            ==> merged(existing, incoming) == incoming,
        (existing is Unknown || existing is TransientFailure) && (incoming is Unknown
            || incoming is TransientFailure || (incoming matches ResolutionView::Deleted(_, false)))
            ==> merged(existing, incoming) == existing,
        (existing matches ResolutionView::Deleted(_, false)) && (incoming is Unknown
            || incoming is TransientFailure) ==> merged(existing, incoming) == incoming,
        (existing matches ResolutionView::Deleted(_, false)) && (
        incoming matches ResolutionView::Deleted(_, false)) ==> merged(existing, incoming)
            == existing,
{
}

/// A lookup is complete exactly where each state turned out to be there or to be gone.
pub proof fn law_only_settled_lookups_are_complete(results: Seq<(Seq<char>, ResolutionView)>)
    ensures
        all_settled(results) <==> forall|i: int|
            0 <= i < results.len() ==> (#[trigger] results[i]).1 !is Unknown
                && results[i].1 !is TransientFailure,
{
    assert forall|i: int| 0 <= i < results.len() implies is_settled(results[i].1) == (
    (#[trigger] results[i]).1 !is Unknown && results[i].1 !is TransientFailure) by {}
}

/// A lookup without a response tells of every request of its batch that nothing is known, and
/// why; one whose response has no records does too.
pub proof fn law_a_failed_lookup_settles_nothing(request: RequestView, error: LookupErrorView)
    ensures
        batch_resolution(request, BatchReplyView::Failure(error))
            == ResolutionView::TransientFailure(error),
        batch_resolution(request, BatchReplyView::Response(None)) matches
            ResolutionView::TransientFailure(LookupErrorView::Malformed(_)),
        !is_settled(batch_resolution(request, BatchReplyView::Failure(error))),
        !is_settled(batch_resolution(request, BatchReplyView::Response(None))),
{
}

/// A failed request is told by its status: an account that was refused, too many requests, or
/// neither; and one that never got a status is neither. The words are the error's own.
pub proof fn law_a_failed_request_is_told_by_its_status(error: ApiError)
    ensures
        match error {
            ApiError::Http(http) => {
                let refused = http.status == 401 || http.status == 403 || http.status == 421;
                let limited = http.status == 429 || http.status == 503;
                &&& lookup_error_of(error) is Authentication <==> refused
                &&& lookup_error_of(error) is RateLimited <==> limited
                &&& lookup_error_of(error) is Request <==> !refused && !limited
                &&& lookup_error_of(error) matches LookupErrorView::Authentication(status, words)
                    ==> status == http.status && words == api_error_text(error)
                &&& lookup_error_of(error) matches LookupErrorView::RateLimited(status, words)
                    ==> status == http.status && words == api_error_text(error)
            },
            _ => lookup_error_of(error) == LookupErrorView::Request(api_error_text(error)),
        },
{
}

/// The requests of the lookups are those of the list, in their order: each stands in exactly
/// one lookup, at the place that its number gives, and no lookup is empty or over its size.
pub proof fn law_each_request_is_in_one_lookup<A>(requests: Seq<A>, i: int)
    requires
        0 <= i < requests.len(),
    ensures
        ({
            let batch = i / RECORD_LOOKUP_BATCH_SIZE as int;
            &&& 0 <= batch < batch_count(requests.len() as int)
            &&& batch_of(requests, batch)[i - batch * RECORD_LOOKUP_BATCH_SIZE] == requests[i]
            &&& 0 <= i - batch * RECORD_LOOKUP_BATCH_SIZE < batch_of(requests, batch).len()
            &&& batch_of(requests, batch).len() <= RECORD_LOOKUP_BATCH_SIZE
        }),
        (batch_count(requests.len() as int) - 1) * RECORD_LOOKUP_BATCH_SIZE < requests.len()
            <= batch_count(requests.len() as int) * RECORD_LOOKUP_BATCH_SIZE,
{
}

/// Every record of a lookup is asked for once: the names of both records of each request are
/// there, no other name is, and none stands there twice.
pub proof fn law_each_record_is_asked_for_once(requests: Seq<RequestView>)
    ensures
        ({
            let names = each_once(asked_names(requests));
            &&& forall|i: int|
                0 <= i < requests.len() ==> names.contains((#[trigger] requests[i]).master)
                    && names.contains(requests[i].asset)
            &&& forall|k: int|
                #![trigger names[k]]
                0 <= k < names.len() ==> exists|i: int|
                    0 <= i < requests.len() && (names[k] == (#[trigger] requests[i]).master
                        || names[k] == requests[i].asset)
            &&& names.no_duplicates()
        }),
{
    let all = asked_names(requests);
    lemma_each_once(all);
    lemma_asked_names(requests);
    let names = each_once(all);
    assert forall|i: int| 0 <= i < requests.len() implies names.contains(
        (#[trigger] requests[i]).master,
    ) && names.contains(requests[i].asset) by {
        assert(all.contains(all[2 * i]));
        assert(all.contains(all[2 * i + 1]));
    }
    assert forall|k: int| #![trigger names[k]] 0 <= k < names.len() implies exists|i: int|
        0 <= i < requests.len() && (names[k] == (#[trigger] requests[i]).master || names[k]
            == requests[i].asset) by {
        assert(names.contains(names[k]));
        let j = choose|j: int| 0 <= j < all.len() && all[j] == names[k];
        let i = j / 2;
        assert(j == 2 * i || j == 2 * i + 1);
        assert(requests[i].master == names[k] || requests[i].asset == names[k]);
    }
}

/// Each request's names stand in their places.
proof fn lemma_asked_names(requests: Seq<RequestView>)
    ensures
        asked_names(requests).len() == 2 * requests.len(),
        forall|i: int|
            0 <= i < requests.len() ==> asked_names(requests)[2 * i] == (
            #[trigger] requests[i]).master && asked_names(requests)[2 * i + 1] == requests[i].asset,
    decreases requests.len(),
{
    if requests.len() > 0 {
        lemma_asked_names(requests.drop_last());
        assert forall|i: int| 0 <= i < requests.len() implies asked_names(requests)[2 * i] == (
        #[trigger] requests[i]).master && asked_names(requests)[2 * i + 1]
            == requests[i].asset by {
            if i < requests.len() - 1 {
                assert(requests.drop_last()[i] == requests[i]);
            }
        }
    }
}

/// What is listed once is what was listed, without repetition.
proof fn lemma_each_once(names: Seq<Seq<char>>)
    ensures
        forall|name: Seq<char>| #[trigger]
            each_once(names).contains(name) <==> names.contains(name),
        each_once(names).no_duplicates(),
    decreases names.len(),
{
    if names.len() > 0 {
        let front = names.drop_last();
        let before = each_once(front);
        lemma_each_once(front);
        let all = each_once(names);
        assert forall|name: Seq<char>| #[trigger] all.contains(name) <==> names.contains(name) by {
            assert(names.contains(name) <==> front.contains(name) || name == names.last()) by {
                if names.contains(name) {
                    let k = choose|k: int| 0 <= k < names.len() && names[k] == name;
                    if k < front.len() {
                        assert(front[k] == name);
                    }
                }
                if front.contains(name) {
                    let k = choose|k: int| 0 <= k < front.len() && front[k] == name;
                    assert(names[k] == name);
                }
                assert(names[names.len() - 1] == names.last());
            }
            assert(before.contains(name) <==> front.contains(name));
            if !front.contains(names.last()) {
                assert(all == before.push(names.last()));
                if all.contains(name) {
                    let k = choose|k: int| 0 <= k < all.len() && all[k] == name;
                    if k < before.len() {
                        assert(before[k] == name);
                    }
                }
                if before.contains(name) {
                    let k = choose|k: int| 0 <= k < before.len() && before[k] == name;
                    assert(all[k] == name);
                }
                assert(all[all.len() - 1] == names.last());
            }
        }
        if !front.contains(names.last()) {
            assert(!before.contains(names.last()));
            assert forall|i: int, j: int|
                0 <= i < j < all.len() implies all[i] != all[j] by {
                if j == before.len() {
                    assert(before.contains(before[i]));
                }
            }
        }
    }
}

/// A lookup's body asks for each record by its name, in the zone, with every field that is
/// read later.
pub proof fn law_a_lookup_asks_for_whole_records(requests: Seq<RequestView>, zone_id: JsonView)
    ensures
        ({
            let body = lookup_body_of(requests, zone_id);
            let names = each_once(asked_names(requests));
            let records = list_of(member(body, "records"@));
            &&& body is Object && body->Object_0.len() == 3
            &&& records is Some
            &&& records->0.len() == names.len()
            &&& forall|k: int|
                0 <= k < names.len() ==> text_of(
                    member(#[trigger] records->0[k], "recordName"@),
                ) == Some(names[k])
            &&& member(body, "zoneID"@) == Some(zone_id)
            &&& list_of(member(body, "desiredKeys"@)) == Some(desired_key_views())
        }),
{
    reveal_strlit("records");
    reveal_strlit("zoneID");
    reveal_strlit("desiredKeys");
    let members = lookup_body_of(requests, zone_id)->Object_0;
    assert("records"@.len() == 7 && "zoneID"@.len() == 6 && "desiredKeys"@.len() == 11);
    law_the_first_member_of_a_name_is_read(members, "records"@, 0);
    law_the_first_member_of_a_name_is_read(members, "zoneID"@, 1);
    law_the_first_member_of_a_name_is_read(members, "desiredKeys"@, 2);
    let names = each_once(asked_names(requests));
    let entries = name_entries(names);
    assert forall|k: int| 0 <= k < names.len() implies text_of(
        member(#[trigger] entries[k], "recordName"@),
    ) == Some(names[k]) by {
        law_the_first_member_of_a_name_is_read(entries[k]->Object_0, "recordName"@, 0);
    }
}

/// Each request is answered from its own lookup: the answers stand in the order of the
/// requests, each under its state's name, and each is what the reply to the lookup says that
/// the request was part of.
pub proof fn law_each_request_is_answered_from_its_own_lookup(
    requests: Seq<RequestView>,
    replies: Seq<BatchReplyView>,
    i: int,
)
    requires
        replies.len() == batch_count(requests.len() as int),
        0 <= i < requests.len(),
    ensures
        ({
            let answers = all_resolutions(requests, replies, replies.len() as int);
            &&& answers.len() == requests.len()
            &&& answers[i] == (
                requests[i].state_id,
                batch_resolution(requests[i], replies[i / RECORD_LOOKUP_BATCH_SIZE as int]),
            )
        }),
{
    lemma_answers(requests, replies, replies.len() as int);
}

/// The answers of the first lookups stand in the order of their requests.
proof fn lemma_answers(requests: Seq<RequestView>, replies: Seq<BatchReplyView>, n: int)
    requires
        replies.len() == batch_count(requests.len() as int),
        0 <= n <= replies.len(),
    ensures
        ({
            let answers = all_resolutions(requests, replies, n);
            let done = if n * RECORD_LOOKUP_BATCH_SIZE <= requests.len() {
                n * RECORD_LOOKUP_BATCH_SIZE
            } else {
                requests.len() as int
            };
            &&& answers.len() == done
            &&& forall|i: int|
                0 <= i < done ==> #[trigger] answers[i] == (
                    requests[i].state_id,
                    batch_resolution(requests[i], replies[i / RECORD_LOOKUP_BATCH_SIZE as int]),
                )
        }),
    decreases n,
{
    if n > 0 {
        lemma_answers(requests, replies, n - 1);
        let before = all_resolutions(requests, replies, n - 1);
        let batch = batch_of(requests, n - 1);
        let given = batch_resolutions(batch, replies[n - 1]);
        let answers = all_resolutions(requests, replies, n);
        let from = (n - 1) * RECORD_LOOKUP_BATCH_SIZE;
        assert(before.len() == from);
        assert forall|i: int| 0 <= i < answers.len() implies #[trigger] answers[i] == (
            requests[i].state_id,
            batch_resolution(requests[i], replies[i / RECORD_LOOKUP_BATCH_SIZE as int]),
        ) by {
            if i < from {
                assert(answers[i] == before[i]);
            } else {
                assert(answers[i] == given[i - from]);
                assert(batch[i - from] == requests[i]);
                assert(i / RECORD_LOOKUP_BATCH_SIZE as int == n - 1);
            }
        }
    }
}

/// What an error says ends with the words that it came with, and names the status where there
/// was one.
pub proof fn law_lookup_errors_end_with_their_words(status: u16, message: Seq<char>)
    ensures
        message.is_suffix_of(lookup_error_text(LookupErrorView::Authentication(status, message))),
        message.is_suffix_of(lookup_error_text(LookupErrorView::RateLimited(status, message))),
        message.is_suffix_of(lookup_error_text(LookupErrorView::Request(message))),
        message.is_suffix_of(lookup_error_text(LookupErrorView::Malformed(message))),
        contains_text(
            lookup_error_text(LookupErrorView::Authentication(status, message)),
            "authentication failed with HTTP "@ + decimal_text(status as nat),
        ),
        contains_text(
            lookup_error_text(LookupErrorView::RateLimited(status, message)),
            "rate limited with HTTP "@ + decimal_text(status as nat),
        ),
{
    let n = decimal_text(status as nat);
    let refused = lookup_error_text(LookupErrorView::Authentication(status, message));
    let limited = lookup_error_text(LookupErrorView::RateLimited(status, message));
    let request = lookup_error_text(LookupErrorView::Request(message));
    let malformed = lookup_error_text(LookupErrorView::Malformed(message));
    assert(refused.subrange(refused.len() - message.len(), refused.len() as int) =~= message);
    assert(limited.subrange(limited.len() - message.len(), limited.len() as int) =~= message);
    assert(request.subrange(request.len() - message.len(), request.len() as int) =~= message);
    assert(malformed.subrange(malformed.len() - message.len(), malformed.len() as int) =~= message);
    reveal_strlit("provider authentication failed with HTTP ");
    reveal_strlit("authentication failed with HTTP ");
    reveal_strlit("provider record lookup was rate limited with HTTP ");
    reveal_strlit("rate limited with HTTP ");
    let a = "authentication failed with HTTP "@ + n;
    let b = "rate limited with HTTP "@ + n;
    assert(refused.subrange(9, 9 + a.len() as int) =~= a);
    assert(occurs_at(refused, a, 9));
    assert(limited.subrange(27, 27 + b.len() as int) =~= b);
    assert(occurs_at(limited, b, 27));
}

/// A lookup asks for the records of at most a hundred requests, and so many lookups are made as
/// that takes.
pub proof fn law_a_hundred_requests_make_a_lookup<A>(requests: Seq<A>, i: int)
    requires
        0 <= i < batch_count(requests.len() as int),
    ensures
        batch_count(requests.len() as int) * 100 >= requests.len(),
        (batch_count(requests.len() as int) - 1) * 100 < requests.len(),
        batch_of(requests, i).len() <= 100,
        i < batch_count(requests.len() as int) - 1 ==> batch_of(requests, i).len() == 100,
{
}

} // verus!
