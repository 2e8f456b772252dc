//! CloudKit responses. A record's fields stay dynamic: Apple's schema varies by record
//! type and changes without notice.
use crate::json::{Json, JsonView};
use vstd::prelude::*;

verus! {

/// A CloudKit record.
#[derive(Debug)]
pub struct Record {
    pub record_name: String,
    /// Empty where the server sent none, as it does for purged records.
    pub record_type: String,
    pub fields: Json,
    pub deleted: Option<bool>,
}

/// A [`Record`] with its texts taken by their characters.
#[verifier::ext_equal]
pub struct RecordView {
    pub record_name: Seq<char>,
    pub record_type: Seq<char>,
    pub fields: JsonView,
    pub deleted: Option<bool>,
}

impl View for Record {
    type V = RecordView;

    open spec fn view(&self) -> RecordView {
        RecordView {
            record_name: self.record_name@,
            record_type: self.record_type@,
            fields: self.fields@,
            deleted: self.deleted,
        }
    }
}

/// The views of a list of records.
pub open spec fn record_views(records: Seq<Record>) -> Seq<RecordView> {
    records.map_values(|r: Record| r@)
}

/// The response to a query: a page of records.
#[derive(Debug)]
pub struct QueryResponse {
    pub records: Vec<Record>,
    pub sync_token: Option<String>,
    /// Present only where more records follow; the next request has to repeat it.
    pub continuation_marker: Option<String>,
}

/// What the change feed says of one zone.
#[derive(Debug)]
pub struct ChangesZoneResult {
    pub zone_name: String,
    pub sync_token: String,
    pub more_coming: bool,
    pub records: Vec<Record>,
    pub server_error_code: Option<String>,
    pub reason: Option<String>,
}

} // verus!
