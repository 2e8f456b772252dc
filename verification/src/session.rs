//! What CloudKit answers: errors in its responses, and what to do about them.
use crate::json::{
    lemma_list_views, list_of, list_views, member, option_str_view, text_of, Json, JsonView,
};
use crate::text::{
    ascii_lowered, contains, contains_text, decimal, decimal_text, eq_ignore_ascii_case,
    floor_boundary, lossy_text, occurs_at, option_view, str_eq, text_from_utf8_lossy, to_ascii_lowercase,
    truncate_str, utf8,
};
use crate::types::boxed;
use vstd::prelude::*;

verus! {

/// The longest wait, in seconds, that a server's hint is honoured for.
pub const RETRY_AFTER_MAX_SECS: u64 = 120;

/// How many bytes of an error response are kept.
pub const MAX_PRESERVED_BODY: usize = 1024;

/// How many bytes of an error response are read: a few more than are kept, so that the cut
/// can fall between two characters.
pub const BODY_READ_CAP: usize = 1040;

/// Codes of CloudKit errors that pass.
pub const RETRYABLE_SERVER_ERRORS: [&'static str; 4] = [
    "RETRY_LATER",
    "TRY_AGAIN_LATER",
    "CAS_OP_LOCK",
    "THROTTLED",
];

/// Codes of CloudKit errors that mean that the account does not let its photos be read.
pub const SERVICE_NOT_ACTIVATED_ERRORS: [&'static str; 3] = [
    "ZONE_NOT_FOUND",
    "AUTHENTICATION_FAILED",
    "ACCESS_DENIED",
];

/// An error that CloudKit reports inside a response.
#[derive(Debug)]
pub struct CloudKitServerError {
    pub code: Box<str>,
    pub reason: Box<str>,
    pub retryable: bool,
    /// The account does not let its photos be read: data protection is on, or its setup is
    /// not complete.
    pub service_not_activated: bool,
}

/// A [`CloudKitServerError`] with its texts taken by their characters.
#[verifier::ext_equal]
pub struct ServerErrorView {
    pub code: Seq<char>,
    pub reason: Seq<char>,
    pub retryable: bool,
    pub service_not_activated: bool,
}

impl View for CloudKitServerError {
    type V = ServerErrorView;

    open spec fn view(&self) -> ServerErrorView {
        ServerErrorView {
            code: self.code@,
            reason: self.reason@,
            retryable: self.retryable,
            service_not_activated: self.service_not_activated,
        }
    }
}

/// A response whose status is an error. The wait that the server asks for is in seconds.
#[derive(Debug)]
pub struct HttpStatusError {
    pub status: u16,
    pub url: String,
    pub retry_after: Option<u64>,
    pub body: Option<String>,
}

/// Why a request failed.
#[derive(Debug)]
pub enum ApiError {
    CloudKit(CloudKitServerError),
    Http(HttpStatusError),
    /// The request could not be sent or read; the status, where there was a response.
    Transport { status: Option<u16>, message: String },
    Other(String),
}

/// What to do after a failed request. A wait is in seconds.
#[derive(Debug, Clone, Copy, PartialEq, Eq, Structural)]
pub enum RetryAction {
    Retry,
    RetryAfter(u64),
    Abort,
}

/// Whether a code is one of a table, whatever its case.
pub open spec fn code_among(code: Seq<char>, table: Seq<&'static str>) -> bool {
    exists|i: int|
        0 <= i < table.len() && ascii_lowered((#[trigger] table[i])@) == ascii_lowered(code)
}

/// Whether a code means that the error passes.
pub open spec fn is_retryable_code(code: Seq<char>) -> bool {
    code_among(code, RETRYABLE_SERVER_ERRORS@)
}

/// Whether a code or a reason means that the account does not let its photos be read.
pub open spec fn is_not_activated(code: Seq<char>, reason: Seq<char>) -> bool {
    code_among(code, SERVICE_NOT_ACTIVATED_ERRORS@) || contains_text(
        ascii_lowered(reason),
        "private db access disabled"@,
    )
}

/// The error that a code and a reason make.
pub open spec fn server_error(code: Seq<char>, reason: Seq<char>) -> ServerErrorView {
    ServerErrorView {
        code,
        reason,
        retryable: is_retryable_code(code),
        service_not_activated: is_not_activated(code, reason),
    }
}

/// The text of a member, or the other one where there is none.
pub open spec fn text_or(text: Option<Seq<char>>, other: Seq<char>) -> Seq<char> {
    match text {
        Some(text) => text,
        None => other,
    }
}

/// The error that stands at the top of a response.
pub open spec fn top_error(response: JsonView) -> Option<ServerErrorView> {
    match text_of(member(response, "serverErrorCode"@)) {
        Some(code) => Some(
            server_error(
                code,
                text_or(
                    text_of(member(response, "reason"@)),
                    text_or(text_of(member(response, "serverErrorMessage"@)), "unknown"@),
                ),
            ),
        ),
        None => None,
    }
}

/// The error that stands in a record.
pub open spec fn record_error(record: JsonView) -> Option<ServerErrorView> {
    match text_of(member(record, "serverErrorCode"@)) {
        Some(code) => Some(
            server_error(code, text_or(text_of(member(record, "reason"@)), "unknown"@)),
        ),
        None => None,
    }
}

/// The first error among the records from place `i` on that passes, or that does not.
pub open spec fn first_record_error(records: Seq<JsonView>, retryable: bool, i: int) -> Option<
    ServerErrorView,
>
    decreases records.len() - i,
{
    if i < 0 || i >= records.len() {
        None
    } else {
        match record_error(records[i]) {
            Some(error) => if error.retryable == retryable {
                Some(error)
            } else {
                first_record_error(records, retryable, i + 1)
            },
            None => first_record_error(records, retryable, i + 1),
        }
    }
}

/// The first of two optional errors that is there.
pub open spec fn error_or(
    a: Option<ServerErrorView>,
    b: Option<ServerErrorView>,
) -> Option<ServerErrorView> {
    match a {
        Some(_) => a,
        None => b,
    }
}

/// The error that a response carries: one at its top, else one of its records, a passing one
/// before one that stays. A single record's error spoils the page, for a page without that
/// record would look complete.
pub open spec fn response_error(response: JsonView) -> Option<ServerErrorView> {
    error_or(
        top_error(response),
        match list_of(member(response, "records"@)) {
            Some(records) => error_or(
                first_record_error(records, true, 0),
                first_record_error(records, false, 0),
            ),
            None => None,
        },
    )
}

/// Whether a code is one of a table, whatever its case.
fn is_code_among(code: &str, table: &[&'static str]) -> (yes: bool)
    ensures
        yes == code_among(code@, table@),
{
    let mut i: usize = 0;
    while i < table.len()
        invariant
            i <= table@.len(),
            forall|j: int|
                0 <= j < i ==> ascii_lowered((#[trigger] table@[j])@) != ascii_lowered(code@),
        decreases table@.len() - i,
    {
        if eq_ignore_ascii_case(table[i], code) {
            assert(ascii_lowered(table@[i as int]@) == ascii_lowered(code@));
            return true;
        }
        i = i + 1;
    }
    false
}

/// Whether a code or a reason means that the account does not let its photos be read.
pub fn is_service_not_activated(code: &str, reason: &str) -> (yes: bool)
    ensures
        yes == is_not_activated(code@, reason@),
{
    let table = SERVICE_NOT_ACTIVATED_ERRORS;
    is_code_among(code, table.as_slice()) || contains(
        &to_ascii_lowercase(reason),
        "private db access disabled",
    )
}

/// The error that a code and a reason make.
fn make_server_error(code: &str, reason: &str) -> (error: CloudKitServerError)
    ensures
        error@ == server_error(code@, reason@),
{
    let table = RETRYABLE_SERVER_ERRORS;
    CloudKitServerError {
        code: boxed(code),
        reason: boxed(reason),
        retryable: is_code_among(code, table.as_slice()),
        service_not_activated: is_service_not_activated(code, reason),
    }
}

/// The view of an optional error.
pub open spec fn option_error_view(error: Option<CloudKitServerError>) -> Option<ServerErrorView> {
    match error {
        Some(error) => Some(error@),
        None => None,
    }
}

/// The error that stands at the top of a response.
fn find_top_error(response: &Json) -> (error: Option<CloudKitServerError>)
    ensures
        option_error_view(error) == top_error(response@),
{
    match response.get_str("serverErrorCode") {
        Some(code) => {
            let reason = match response.get_str("reason") {
                Some(reason) => reason,
                None => match response.get_str("serverErrorMessage") {
                    Some(message) => message,
                    None => "unknown",
                },
            };
            Some(make_server_error(code, reason))
        },
        None => None,
    }
}

/// The error that stands in a record.
fn find_record_error(record: &Json) -> (error: Option<CloudKitServerError>)
    ensures
        option_error_view(error) == record_error(record@),
{
    match record.get_str("serverErrorCode") {
        Some(code) => {
            let reason = match record.get_str("reason") {
                Some(reason) => reason,
                None => "unknown",
            };
            Some(make_server_error(code, reason))
        },
        None => None,
    }
}

/// The error that the records of a response carry.
fn find_records_error(records: &Vec<Json>) -> (error: Option<CloudKitServerError>)
    ensures
        option_error_view(error) == error_or(
            first_record_error(list_views(records@), true, 0),
            first_record_error(list_views(records@), false, 0),
        ),
{
    let ghost views = list_views(records@);
    let mut permanent: Option<CloudKitServerError> = None;
    let mut i: usize = 0;
    proof {
        lemma_list_views(records@);
    }
    while i < records.len()
        invariant
            i <= records.len(),
            views == list_views(records@),
            views.len() == records@.len(),
            first_record_error(views, true, 0) == first_record_error(views, true, i as int),
            first_record_error(views, false, 0) == error_or(
                option_error_view(permanent),
                first_record_error(views, false, i as int),
            ),
        decreases records.len() - i,
    {
        broadcast use lemma_list_views;

        assert(views[i as int] == records@[i as int]@);
        if let Some(error) = find_record_error(&records[i]) {
            if error.retryable {
                return Some(error);
            }
            if permanent.is_none() {
                permanent = Some(error);
            }
        }
        i = i + 1;
    }
    permanent
}

/// Look for errors in a response. Where there is none, the response is handed back.
pub fn check_cloudkit_errors(response: Json) -> (result: Result<Json, CloudKitServerError>)
    ensures
        match result {
            Ok(json) => json@ == response@ && response_error(response@) is None,
            Err(error) => response_error(response@) == Some(error@),
        },
{
    if let Some(error) = find_top_error(&response) {
        return Err(error);
    }
    if let Some(records) = response.get("records") {
        if let Some(records) = records.as_list() {
            if let Some(error) = find_records_error(records) {
                return Err(error);
            }
        }
    }
    Ok(response)
}

/// A response that passes has no error in any of its records: nothing of the page is missing.
pub proof fn law_checked_pages_are_whole(response: JsonView, records: Seq<JsonView>, i: int)
    requires
        response_error(response) is None,
        list_of(member(response, "records"@)) == Some(records),
        0 <= i < records.len(),
    ensures
        text_of(member(records[i], "serverErrorCode"@)) is None,
{
    if record_error(records[i]) is Some {
        lemma_record_error_found(records, record_error(records[i])->0.retryable, 0, i);
    }
}

/// An error in a record is found, or another one before it.
proof fn lemma_record_error_found(records: Seq<JsonView>, retryable: bool, from: int, i: int)
    requires
        0 <= from <= i < records.len(),
        record_error(records[i]) is Some,
        record_error(records[i])->0.retryable == retryable,
    ensures
        first_record_error(records, retryable, from) is Some,
    decreases i - from,
{
    if from < i {
        lemma_record_error_found(records, retryable, from + 1, i);
    }
}

/// Whether a status is that of a failure that passes.
pub open spec fn is_passing_status(status: u16) -> bool {
    status == 429 || status >= 500
}

/// What to do after a failed request.
pub open spec fn retry_action(error: ApiError) -> RetryAction {
    match error {
        ApiError::CloudKit(error) => if error.retryable {
            RetryAction::Retry
        } else {
            RetryAction::Abort
        },
        ApiError::Http(error) => if is_passing_status(error.status) {
            match error.retry_after {
                Some(seconds) => RetryAction::RetryAfter(seconds),
                None => RetryAction::Retry,
            }
        } else {
            RetryAction::Abort
        },
        ApiError::Transport { status, .. } => match status {
            Some(status) => if is_passing_status(status) {
                RetryAction::Retry
            } else {
                RetryAction::Abort
            },
            None => RetryAction::Retry,
        },
        ApiError::Other(_) => RetryAction::Abort,
    }
}

/// What to do after a failed request: trouble with the network and on the server's side
/// passes, a refusal does not.
pub fn classify_api_error(error: &ApiError) -> (action: RetryAction)
    ensures
        action == retry_action(*error),
{
    match error {
        ApiError::CloudKit(error) => if error.retryable {
            RetryAction::Retry
        } else {
            RetryAction::Abort
        },
        ApiError::Http(error) => if error.status == 429 || error.status >= 500 {
            match error.retry_after {
                Some(seconds) => RetryAction::RetryAfter(seconds),
                None => RetryAction::Retry,
            }
        } else {
            RetryAction::Abort
        },
        ApiError::Transport { status, .. } => match status {
            Some(status) => if *status == 429 || *status >= 500 {
                RetryAction::Retry
            } else {
                RetryAction::Abort
            },
            None => RetryAction::Retry,
        },
        ApiError::Other(_) => RetryAction::Abort,
    }
}

/// What is kept of the body of an error response: all of it, or its beginning and a mark.
pub open spec fn kept_body(body: Seq<char>) -> Seq<char> {
    if utf8(body).len() <= MAX_PRESERVED_BODY {
        body
    } else {
        vstd::utf8::decode_utf8(
            utf8(body).take(floor_boundary(utf8(body), MAX_PRESERVED_BODY as int)),
        ) + "\u{2026}"@
    }
}

/// Cut the body of an error response down to what is kept, between two characters.
pub fn truncate_body(body: &str) -> (kept: String)
    ensures
        kept@ == kept_body(body@),
{
    if body.as_bytes().len() <= MAX_PRESERVED_BODY {
        return body.to_owned();
    }
    let head = truncate_str(body, MAX_PRESERVED_BODY);
    proof {
        vstd::utf8::encode_utf8_decode_utf8(head@);
    }
    let mut kept = head.to_owned();
    kept.append("\u{2026}");
    kept
}

/// Add a chunk of the body of an error response to what was read of it, as far as that goes.
/// Gives whether more is wanted.
pub fn read_body_chunk(buffer: &mut Vec<u8>, chunk: &[u8]) -> (more: bool)
    requires
        old(buffer)@.len() <= BODY_READ_CAP,
    ensures
        final(buffer)@ == (old(buffer)@ + chunk@).take(
            if old(buffer)@.len() + chunk@.len() <= BODY_READ_CAP {
                (old(buffer)@.len() + chunk@.len()) as int
            } else {
                BODY_READ_CAP as int
            },
        ),
        more == (old(buffer)@.len() + chunk@.len() < BODY_READ_CAP),
{
    let ghost before = buffer@;
    let mut i: usize = 0;
    while i < chunk.len() && buffer.len() < BODY_READ_CAP
        invariant
            i <= chunk@.len(),
            buffer@.len() == before.len() + i,
            before.len() + i <= BODY_READ_CAP,
            buffer@ =~= (before + chunk@).take((before.len() + i) as int),
        decreases chunk@.len() - i,
    {
        buffer.push(chunk[i]);
        i = i + 1;
    }
    buffer.len() < BODY_READ_CAP
}

impl HttpStatusError {
    /// The error that a response with an error status makes. An empty body counts as none.
    pub fn from_response(status: u16, url: &str, retry_after: Option<u64>, body: &str) -> (error: Self)
        ensures
            error.status == status,
            error.url@ == url@,
            error.retry_after == retry_after,
            option_view(error.body) == (if body@.len() == 0 {
                None
            } else {
                Some(kept_body(body@))
            }),
    {
        proof {
            reveal_strlit("");
            assert(body@.len() == 0 ==> body@ =~= ""@);
        }
        HttpStatusError {
            status,
            url: url.to_owned(),
            retry_after,
            body: if str_eq(body, "") {
                None
            } else {
                Some(truncate_body(body))
            },
        }
    }

    /// The error that a response with an error status makes, from what was read of its body.
    pub fn from_read(status: u16, url: &str, retry_after: Option<u64>, read: &[u8]) -> (error: Self)
        ensures
            error.status == status,
            error.url@ == url@,
            error.retry_after == retry_after,
            option_view(error.body) == (if lossy_text(read@).len() == 0 {
                None
            } else {
                Some(kept_body(lossy_text(read@)))
            }),
    {
        let body = text_from_utf8_lossy(read);
        HttpStatusError::from_response(status, url, retry_after, &body)
    }

    /// The error in words.
    pub fn message(&self) -> (text: String)
        ensures
            text@ == "Apple returned HTTP "@ + decimal_text(self.status as nat) + " for "@
                + self.url@,
    {
        let mut text = "Apple returned HTTP ".to_owned();
        text.append(&decimal(self.status as u64));
        text.append(" for ");
        text.append(&self.url);
        text
    }
}

impl CloudKitServerError {
    /// The error in words.
    pub fn message(&self) -> (text: String)
        ensures
            text@ == "Apple CloudKit reported "@ + self@.code + ": "@ + self@.reason,
    {
        let mut text = "Apple CloudKit reported ".to_owned();
        text.append(&self.code);
        text.append(": ");
        text.append(&self.reason);
        text
    }
}

/// What an error says.
pub open spec fn api_error_text(error: ApiError) -> Seq<char> {
    match error {
        ApiError::CloudKit(error) => "Apple CloudKit reported "@ + error@.code + ": "@
            + error@.reason,
        ApiError::Http(error) => "Apple returned HTTP "@ + decimal_text(error.status as nat)
            + " for "@ + error.url@,
        ApiError::Transport { message, .. } => message@,
        ApiError::Other(message) => message@,
    }
}

impl ApiError {
    /// The error in words.
    pub fn message(&self) -> (text: String)
        ensures
            text@ == api_error_text(*self),
    {
        match self {
            ApiError::CloudKit(error) => error.message(),
            ApiError::Http(error) => error.message(),
            ApiError::Transport { message, .. } => message.clone(),
            ApiError::Other(message) => message.clone(),
        }
    }
}

/// Why the change feed of a zone cannot be followed.
#[derive(Debug)]
pub enum SyncTokenError {
    /// The token is of no use: everything has to be enumerated again.
    InvalidToken { reason: Box<str> },
    /// The zone is gone.
    ZoneNotFound { zone_name: Box<str> },
    /// Any other error of the zone. It passes; the token must not move on.
    UnexpectedZoneError { zone_name: Box<str>, error_code: Box<str> },
}

/// A [`SyncTokenError`] with its texts taken by their characters.
#[verifier::ext_equal]
pub enum TokenErrorView {
    InvalidToken(Seq<char>),
    ZoneNotFound(Seq<char>),
    UnexpectedZoneError(Seq<char>, Seq<char>),
}

impl View for SyncTokenError {
    type V = TokenErrorView;

    open spec fn view(&self) -> TokenErrorView {
        match self {
            SyncTokenError::InvalidToken { reason } => TokenErrorView::InvalidToken(reason@),
            SyncTokenError::ZoneNotFound { zone_name } => TokenErrorView::ZoneNotFound(zone_name@),
            SyncTokenError::UnexpectedZoneError { zone_name, error_code } => {
                TokenErrorView::UnexpectedZoneError(zone_name@, error_code@)
            },
        }
    }
}

/// What an error says.
pub open spec fn token_error_text(error: TokenErrorView) -> Seq<char> {
    match error {
        TokenErrorView::InvalidToken(reason) => {
            "The saved iCloud sync token is no longer valid: "@ + reason
        },
        TokenErrorView::ZoneNotFound(zone_name) => {
            "Apple no longer reports iCloud Photos zone "@ + zone_name
        },
        TokenErrorView::UnexpectedZoneError(zone_name, error_code) => {
            "Apple returned an unexpected iCloud Photos zone error for "@ + zone_name + ": "@
                + error_code
        },
    }
}

/// The error that a zone's code means.
pub open spec fn zone_error(
    server_error_code: Option<Seq<char>>,
    reason: Option<Seq<char>>,
    zone_name: Seq<char>,
) -> Option<TokenErrorView> {
    match server_error_code {
        Some(code) => Some(
            if code == "BAD_REQUEST"@ {
                TokenErrorView::InvalidToken(text_or(reason, "Unknown sync continuation type"@))
            } else if code == "ZONE_NOT_FOUND"@ {
                TokenErrorView::ZoneNotFound(zone_name)
            } else {
                TokenErrorView::UnexpectedZoneError(zone_name, code)
            },
        ),
        None => None,
    }
}

/// The error of a check, where it found one.
pub open spec fn token_error_of(result: Result<(), SyncTokenError>) -> Option<TokenErrorView> {
    match result {
        Ok(()) => None,
        Err(error) => Some(error@),
    }
}

impl SyncTokenError {
    /// Whether everything has to be enumerated again. An error that passes is no reason for
    /// that.
    pub fn should_fallback_to_full(&self) -> (yes: bool)
        ensures
            yes == !(self@ is UnexpectedZoneError),
    {
        match self {
            SyncTokenError::InvalidToken { .. } => true,
            SyncTokenError::ZoneNotFound { .. } => true,
            SyncTokenError::UnexpectedZoneError { .. } => false,
        }
    }

    /// The error in words.
    pub fn message(&self) -> (text: String)
        ensures
            text@ == token_error_text(self@),
    {
        match self {
            SyncTokenError::InvalidToken { reason } => {
                let mut text = "The saved iCloud sync token is no longer valid: ".to_owned();
                text.append(reason);
                text
            },
            SyncTokenError::ZoneNotFound { zone_name } => {
                let mut text = "Apple no longer reports iCloud Photos zone ".to_owned();
                text.append(zone_name);
                text
            },
            SyncTokenError::UnexpectedZoneError { zone_name, error_code } => {
                let mut text =
                    "Apple returned an unexpected iCloud Photos zone error for ".to_owned();
                text.append(zone_name);
                text.append(": ");
                text.append(error_code);
                text
            },
        }
    }
}

/// Look for an error of a zone in its change feed.
pub fn check_changes_zone_error(
    server_error_code: Option<&str>,
    reason: Option<&str>,
    zone_name: &str,
) -> (result: Result<(), SyncTokenError>)
    ensures
        token_error_of(result) == zone_error(
            option_str_view(server_error_code),
            option_str_view(reason),
            zone_name@,
        ),
{
    match server_error_code {
        Some(code) => if str_eq(code, "BAD_REQUEST") {
            Err(
                SyncTokenError::InvalidToken {
                    reason: match reason {
                        Some(reason) => boxed(reason),
                        None => boxed("Unknown sync continuation type"),
                    },
                },
            )
        } else if str_eq(code, "ZONE_NOT_FOUND") {
            Err(SyncTokenError::ZoneNotFound { zone_name: boxed(zone_name) })
        } else {
            Err(
                SyncTokenError::UnexpectedZoneError {
                    zone_name: boxed(zone_name),
                    error_code: boxed(code),
                },
            )
        },
        None => Ok(()),
    }
}

/// What follows a failed attempt.
#[derive(Debug, Clone, Copy, PartialEq, Eq, Structural)]
pub enum RetryStep {
    /// The error stands.
    GiveUp,
    /// Try again, after the wait in seconds that the server asked for.
    Again(Option<u64>),
}

/// What follows an attempt that failed. `retries` are the attempts after the first one so far.
pub fn retry_step(error: &ApiError, retries: u32, max_retries: u32) -> (step: RetryStep)
    ensures
        step == (if retries >= max_retries {
            RetryStep::GiveUp
        } else {
            match retry_action(*error) {
                RetryAction::Retry => RetryStep::Again(None),
                RetryAction::RetryAfter(seconds) => RetryStep::Again(Some(seconds)),
                RetryAction::Abort => RetryStep::GiveUp,
            }
        }),
{
    if retries >= max_retries {
        return RetryStep::GiveUp;
    }
    match classify_api_error(error) {
        RetryAction::Retry => RetryStep::Again(None),
        RetryAction::RetryAfter(seconds) => RetryStep::Again(Some(seconds)),
        RetryAction::Abort => RetryStep::GiveUp,
    }
}

/// An error's code decides whether it passes: one of the four that ask for another try later
/// does, in whatever case it is written, and no other.
pub proof fn law_codes_that_ask_for_patience_pass(code: Seq<char>, reason: Seq<char>)
    ensures
        server_error(code, reason).code == code,
        server_error(code, reason).reason == reason,
        server_error(code, reason).retryable <==> (ascii_lowered(code) == ascii_lowered(
            "RETRY_LATER"@,
        ) || ascii_lowered(code) == ascii_lowered("TRY_AGAIN_LATER"@) || ascii_lowered(code)
            == ascii_lowered("CAS_OP_LOCK"@) || ascii_lowered(code) == ascii_lowered("THROTTLED"@)),
{
    let table = RETRYABLE_SERVER_ERRORS@;
    assert(table[0]@ == "RETRY_LATER"@);
    assert(table[1]@ == "TRY_AGAIN_LATER"@);
    assert(table[2]@ == "CAS_OP_LOCK"@);
    assert(table[3]@ == "THROTTLED"@);
}

/// An account does not let its photos be read where the code says that the zone is missing or
/// that access was refused, or where the reason says that the private database is closed,
/// either in whatever case.
pub proof fn law_refused_accounts_are_recognised(code: Seq<char>, reason: Seq<char>)
    ensures
        server_error(code, reason).service_not_activated <==> (ascii_lowered(code) == ascii_lowered(
            "ZONE_NOT_FOUND"@,
        ) || ascii_lowered(code) == ascii_lowered("AUTHENTICATION_FAILED"@) || ascii_lowered(code)
            == ascii_lowered("ACCESS_DENIED"@) || contains_text(
            ascii_lowered(reason),
            "private db access disabled"@,
        )),
{
    let table = SERVICE_NOT_ACTIVATED_ERRORS@;
    assert(table[0]@ == "ZONE_NOT_FOUND"@);
    assert(table[1]@ == "AUTHENTICATION_FAILED"@);
    assert(table[2]@ == "ACCESS_DENIED"@);
}

/// An error at the top of a response stands for the response, whatever its records say. Its
/// reason is the one given, else the message, else that it is unknown.
pub proof fn law_an_error_at_the_top_stands_for_the_response(response: JsonView, code: Seq<char>)
    requires
        member(response, "serverErrorCode"@) == Some(JsonView::Text(code)),
    ensures
        ({
            let error = response_error(response);
            let reason = text_of(member(response, "reason"@));
            let message = text_of(member(response, "serverErrorMessage"@));
            &&& error is Some
            &&& error->0.code == code
            &&& reason is Some ==> error->0.reason == reason->0
            &&& reason is None && message is Some ==> error->0.reason == message->0
            &&& reason is None && message is None ==> error->0.reason == "unknown"@
        }),
{
}

/// Without an error at the top, the error of a response is that of a record: the first that
/// passes, for then the page may be asked for again, else the first of all.
pub proof fn law_a_records_error_spoils_the_page(
    response: JsonView,
    records: Seq<JsonView>,
    i: int,
)
    requires
        text_of(member(response, "serverErrorCode"@)) is None,
        member(response, "records"@) == Some(JsonView::List(records)),
        0 <= i < records.len(),
        record_error(records[i]) is Some,
    ensures
        (record_error(records[i])->0.retryable && forall|j: int|
            0 <= j < i ==> !(record_error(#[trigger] records[j]) is Some && record_error(
                records[j],
            )->0.retryable)) ==> response_error(response) == record_error(records[i]),
        ((forall|j: int|
            0 <= j < records.len() ==> !(record_error(#[trigger] records[j]) is Some
                && record_error(records[j])->0.retryable)) && forall|j: int|
            0 <= j < i ==> record_error(#[trigger] records[j]) is None) ==> response_error(response)
            == record_error(records[i]),
{
    if record_error(records[i])->0.retryable && forall|j: int|
        0 <= j < i ==> !(record_error(#[trigger] records[j]) is Some && record_error(
            records[j],
        )->0.retryable) {
        lemma_first_of_its_kind(records, true, 0, i);
    }
    if (forall|j: int|
        0 <= j < records.len() ==> !(record_error(#[trigger] records[j]) is Some && record_error(
            records[j],
        )->0.retryable)) && forall|j: int|
        0 <= j < i ==> record_error(#[trigger] records[j]) is None {
        assert(!record_error(records[i])->0.retryable);
        lemma_first_of_its_kind(records, false, 0, i);
        lemma_none_of_its_kind(records, true, 0);
    }
}

/// A record's error has the record's code, and its reason or that it is unknown.
pub proof fn law_a_records_error_is_its_own(record: JsonView)
    ensures
        match member(record, "serverErrorCode"@) {
            Some(JsonView::Text(code)) => {
                &&& record_error(record) is Some
                &&& record_error(record)->0.code == code
                &&& record_error(record)->0.reason == match member(record, "reason"@) {
                    Some(JsonView::Text(reason)) => reason,
                    _ => "unknown"@,
                }
            },
            _ => record_error(record) is None,
        },
{
}

/// The first error of a kind is found.
proof fn lemma_first_of_its_kind(records: Seq<JsonView>, retryable: bool, from: int, i: int)
    requires
        0 <= from <= i < records.len(),
        record_error(records[i]) is Some,
        record_error(records[i])->0.retryable == retryable,
        forall|j: int|
            from <= j < i ==> !(record_error(#[trigger] records[j]) is Some && record_error(
                records[j],
            )->0.retryable == retryable),
    ensures
        first_record_error(records, retryable, from) == record_error(records[i]),
    decreases i - from,
{
    if from < i {
        assert(!(record_error(records[from]) is Some && record_error(records[from])->0.retryable
            == retryable));
        lemma_first_of_its_kind(records, retryable, from + 1, i);
    }
}

/// Where no error is of a kind, none of it is found.
proof fn lemma_none_of_its_kind(records: Seq<JsonView>, retryable: bool, from: int)
    requires
        0 <= from <= records.len(),
        forall|j: int|
            from <= j < records.len() ==> !(record_error(#[trigger] records[j]) is Some
                && record_error(records[j])->0.retryable == retryable),
    ensures
        first_record_error(records, retryable, from) is None,
    decreases records.len() - from,
{
    if from < records.len() {
        assert(!(record_error(records[from]) is Some && record_error(records[from])->0.retryable
            == retryable));
        lemma_none_of_its_kind(records, retryable, from + 1);
    }
}

/// A failed request is tried again where the failure passes: CloudKit says so; the status is
/// that of too many requests or of trouble on the server's side; or there was no response. Only
/// a status carries a wait. Everything else stands.
pub proof fn law_only_passing_failures_are_tried_again(error: ApiError)
    ensures
        match error {
            ApiError::CloudKit(error) => retry_action(ApiError::CloudKit(error)) == if error.retryable {
                RetryAction::Retry
            } else {
                RetryAction::Abort
            },
            ApiError::Http(http) => {
                let passes = http.status == 429 || 500 <= http.status;
                &&& retry_action(error) == RetryAction::Abort <==> !passes
                &&& passes && http.retry_after is Some ==> retry_action(error)
                    == RetryAction::RetryAfter(http.retry_after->0)
                &&& passes && http.retry_after is None ==> retry_action(error) == RetryAction::Retry
            },
            ApiError::Transport { status, message } => retry_action(error) == match status {
                None => RetryAction::Retry,
                Some(status) => if status == 429 || 500 <= status {
                    RetryAction::Retry
                } else {
                    RetryAction::Abort
                },
            },
            ApiError::Other(_) => retry_action(error) == RetryAction::Abort,
        },
{
}

/// A short body of an error response is kept whole; of a long one the beginning is kept, no
/// more than a kibibyte of it, cut between two characters, with a mark behind it.
pub proof fn law_bodies_are_kept_short(body: Seq<char>)
    ensures
        utf8(body).len() <= 1024 ==> kept_body(body) == body,
        utf8(body).len() > 1024 ==> kept_body(body).last() == '\u{2026}' && kept_body(body).len()
            > 0 && kept_body(body).drop_last() == vstd::utf8::decode_utf8(
            utf8(body).take(floor_boundary(utf8(body), 1024)),
        ),
{
    reveal_strlit("\u{2026}");
    if utf8(body).len() > 1024 {
        let head = vstd::utf8::decode_utf8(utf8(body).take(floor_boundary(utf8(body), 1024)));
        assert(kept_body(body).drop_last() =~= head);
    }
}

/// A zone whose change feed carries no code is followed on. A bad request means that the token
/// is of no use, a zone that was not found that it is gone, and any other code that something
/// else went wrong with the zone.
pub proof fn law_a_zones_code_says_what_went_wrong(
    code: Seq<char>,
    reason: Option<Seq<char>>,
    zone_name: Seq<char>,
)
    ensures
        zone_error(None, reason, zone_name) is None,
        zone_error(Some("BAD_REQUEST"@), reason, zone_name) is Some,
        zone_error(Some("BAD_REQUEST"@), Some(code), zone_name) == Some(
            TokenErrorView::InvalidToken(code),
        ),
        zone_error(Some("BAD_REQUEST"@), None, zone_name) matches Some(
            TokenErrorView::InvalidToken(_),
        ),
        zone_error(Some("ZONE_NOT_FOUND"@), reason, zone_name) == Some(
            TokenErrorView::ZoneNotFound(zone_name),
        ),
        code != "BAD_REQUEST"@ && code != "ZONE_NOT_FOUND"@ ==> zone_error(
            Some(code),
            reason,
            zone_name,
        ) == Some(TokenErrorView::UnexpectedZoneError(zone_name, code)),
{
    reveal_strlit("BAD_REQUEST");
    reveal_strlit("ZONE_NOT_FOUND");
    assert("BAD_REQUEST"@.len() == 11 && "ZONE_NOT_FOUND"@.len() == 14);
}

/// What errors say names what went wrong: the code and the reason, the status and the URL, or
/// the message as it came.
pub proof fn law_errors_say_what_went_wrong(error: ApiError)
    ensures
        match error {
            ApiError::CloudKit(server) => exists|before: Seq<char>, between: Seq<char>|
                api_error_text(error) == #[trigger] (before + server@.code) + #[trigger] (between
                    + server@.reason),
            ApiError::Http(http) => exists|before: Seq<char>, between: Seq<char>|
                api_error_text(error) == #[trigger] (before + decimal_text(http.status as nat))
                    + #[trigger] (between + http.url@),
            ApiError::Transport { message, .. } => api_error_text(error) == message@,
            ApiError::Other(message) => api_error_text(error) == message@,
        },
{
    match error {
        ApiError::CloudKit(server) => {
            let before = "Apple CloudKit reported "@;
            let between = ": "@;
            assert(api_error_text(error) =~= (before + server@.code) + (between + server@.reason));
        },
        ApiError::Http(http) => {
            let before = "Apple returned HTTP "@;
            let between = " for "@;
            assert(api_error_text(error) =~= (before + decimal_text(http.status as nat)) + (between
                + http.url@));
        },
        _ => {},
    }
}

/// What is said of a zone's error names the reason, the zone, or both the zone and the code.
pub proof fn law_token_errors_name_what_went_wrong(a: Seq<char>, b: Seq<char>)
    ensures
        a.is_suffix_of(token_error_text(TokenErrorView::InvalidToken(a))),
        a.is_suffix_of(token_error_text(TokenErrorView::ZoneNotFound(a))),
        (a + ": "@ + b).is_suffix_of(token_error_text(TokenErrorView::UnexpectedZoneError(a, b))),
        contains_text(token_error_text(TokenErrorView::InvalidToken(a)), "no longer valid"@),
        contains_text(token_error_text(TokenErrorView::ZoneNotFound(a)), "no longer reports"@),
{
    let invalid = token_error_text(TokenErrorView::InvalidToken(a));
    assert(invalid.subrange(invalid.len() - a.len(), invalid.len() as int) =~= a);
    let gone = token_error_text(TokenErrorView::ZoneNotFound(a));
    assert(gone.subrange(gone.len() - a.len(), gone.len() as int) =~= a);
    let other = token_error_text(TokenErrorView::UnexpectedZoneError(a, b));
    let end = a + ": "@ + b;
    assert(other.subrange(other.len() - end.len(), other.len() as int) =~= end);
    reveal_strlit("The saved iCloud sync token is no longer valid: ");
    reveal_strlit("no longer valid");
    assert(invalid.subrange(31, 46) =~= "no longer valid"@);
    assert(occurs_at(invalid, "no longer valid"@, 31));
    reveal_strlit("Apple no longer reports iCloud Photos zone ");
    reveal_strlit("no longer reports");
    assert(gone.subrange(6, 23) =~= "no longer reports"@);
    assert(occurs_at(gone, "no longer reports"@, 6));
}

/// More of an error response is read than is kept, by a few characters, so that the cut falls
/// between two; and no hint of a server makes kei wait for more than two minutes.
pub proof fn law_what_is_read_and_waited_for_is_bounded()
    ensures
        MAX_PRESERVED_BODY == 1024,
        MAX_PRESERVED_BODY + 4 <= BODY_READ_CAP <= MAX_PRESERVED_BODY + 16,
        RETRY_AFTER_MAX_SECS == 2 * 60,
{
}

/// A response without a code at its top or in any of its records carries no error.
pub proof fn law_a_response_without_codes_passes(response: JsonView)
    requires
        text_of(member(response, "serverErrorCode"@)) is None,
        member(response, "records"@) matches Some(JsonView::List(records)) ==> forall|i: int|
            0 <= i < records.len() ==> text_of(
                member(#[trigger] records[i], "serverErrorCode"@),
            ) is None,
    ensures
        response_error(response) is None,
{
    if let Some(JsonView::List(records)) = member(response, "records"@) {
        assert forall|i: int| 0 <= i < records.len() implies record_error(
            #[trigger] records[i],
        ) is None by {
            assert(text_of(member(records[i], "serverErrorCode"@)) is None);
        }
        lemma_none_of_its_kind(records, true, 0);
        lemma_none_of_its_kind(records, false, 0);
    }
}

} // verus!
