//! Scripts that are told of what happens while nobody watches: a sync that ended, a code that
//! is needed, a session that expired.
use crate::text::{bool_string, bool_text, decimal, decimal_text, decimal_usize};
use vstd::prelude::*;

verus! {

/// What a script is told of.
#[derive(Debug, Clone, Copy, PartialEq, Eq, Structural)]
pub enum Event {
    /// A code is needed: the session expired and nobody is there to type one.
    TwoFaRequired,
    /// A sync is about to run.
    SyncStarted,
    /// A sync ended well.
    SyncComplete,
    /// A sync had failures.
    SyncFailed,
    /// The session expired and signing in again failed.
    SessionExpired,
}

/// The name that a script knows an event by.
pub open spec fn event_name(event: Event) -> Seq<char> {
    match event {
        Event::TwoFaRequired => "2fa_required"@,
        Event::SyncStarted => "sync_started"@,
        Event::SyncComplete => "sync_complete"@,
        Event::SyncFailed => "sync_failed"@,
        Event::SessionExpired => "session_expired"@,
    }
}

impl Event {
    /// The name that a script knows the event by.
    pub fn as_str(self) -> (name: &'static str)
        ensures
            name@ == event_name(self),
    {
        match self {
            Event::TwoFaRequired => "2fa_required",
            Event::SyncStarted => "sync_started",
            Event::SyncComplete => "sync_complete",
            Event::SyncFailed => "sync_failed",
            Event::SessionExpired => "session_expired",
        }
    }
}

/// Numbers about a sync, for the script.
#[derive(Debug)]
pub struct SyncNotificationData {
    pub assets_seen: u64,
    pub downloaded: usize,
    pub failed: usize,
    pub skipped: usize,
    pub bytes_downloaded: u64,
    pub disk_bytes_written: u64,
    /// How many seconds the sync took, written with one digit behind the point.
    pub elapsed_secs: String,
    pub interrupted: bool,
    pub exif_failures: usize,
    pub state_write_failures: usize,
    pub enumeration_errors: usize,
    pub pagination_shortfall_warnings: usize,
    pub pagination_shortfall_assets: u64,
    pub sync_token_blocked: bool,
    pub sync_token_blocked_reason: Option<&'static str>,
    pub skipped_by_state: usize,
    pub skipped_on_disk: usize,
    pub skipped_by_media_type: usize,
    pub skipped_by_date_range: usize,
    pub skipped_by_live_photo: usize,
    pub skipped_by_filename: usize,
    pub skipped_by_excluded_album: usize,
    pub skipped_live_photo_variant: usize,
    pub skipped_duplicates: usize,
    pub skipped_retry_exhausted: usize,
    pub skipped_retry_only: usize,
}

impl Default for SyncNotificationData {
    fn default() -> (data: Self)
        ensures
            data == (SyncNotificationData {
                assets_seen: 0,
                downloaded: 0,
                failed: 0,
                skipped: 0,
                bytes_downloaded: 0,
                disk_bytes_written: 0,
                elapsed_secs: data.elapsed_secs,
                interrupted: false,
                exif_failures: 0,
                state_write_failures: 0,
                enumeration_errors: 0,
                pagination_shortfall_warnings: 0,
                pagination_shortfall_assets: 0,
                sync_token_blocked: false,
                sync_token_blocked_reason: None,
                skipped_by_state: 0,
                skipped_on_disk: 0,
                skipped_by_media_type: 0,
                skipped_by_date_range: 0,
                skipped_by_live_photo: 0,
                skipped_by_filename: 0,
                skipped_by_excluded_album: 0,
                skipped_live_photo_variant: 0,
                skipped_duplicates: 0,
                skipped_retry_exhausted: 0,
                skipped_retry_only: 0,
            }),
            data.elapsed_secs@ == "0.0"@,
    {
        SyncNotificationData {
            assets_seen: 0,
            downloaded: 0,
            failed: 0,
            skipped: 0,
            bytes_downloaded: 0,
            disk_bytes_written: 0,
            elapsed_secs: "0.0".to_owned(),
            interrupted: false,
            exif_failures: 0,
            state_write_failures: 0,
            enumeration_errors: 0,
            pagination_shortfall_warnings: 0,
            pagination_shortfall_assets: 0,
            sync_token_blocked: false,
            sync_token_blocked_reason: None,
            skipped_by_state: 0,
            skipped_on_disk: 0,
            skipped_by_media_type: 0,
            skipped_by_date_range: 0,
            skipped_by_live_photo: 0,
            skipped_by_filename: 0,
            skipped_by_excluded_album: 0,
            skipped_live_photo_variant: 0,
            skipped_duplicates: 0,
            skipped_retry_exhausted: 0,
            skipped_retry_only: 0,
        }
    }
}

// The script's environment.

/// The variables that every script gets.
pub open spec fn event_env(
    event: Seq<char>,
    message: Seq<char>,
    username: Seq<char>,
) -> Seq<(Seq<char>, Seq<char>)> {
    seq![
        ("KEI_EVENT"@, event),
        ("KEI_MESSAGE"@, message),
        ("KEI_ICLOUD_USERNAME"@, username),
    ]
}

/// The variables that tell how a sync went.
pub open spec fn outcome_env(d: SyncNotificationData) -> Seq<(Seq<char>, Seq<char>)> {
    seq![
        ("KEI_ASSETS_SEEN"@, decimal_text(d.assets_seen as nat)),
        ("KEI_DOWNLOADED"@, decimal_text(d.downloaded as nat)),
        ("KEI_FAILED"@, decimal_text(d.failed as nat)),
        ("KEI_SKIPPED"@, decimal_text(d.skipped as nat)),
        ("KEI_INTERRUPTED"@, bool_text(d.interrupted)),
        ("KEI_BYTES_DOWNLOADED"@, decimal_text(d.bytes_downloaded as nat)),
        ("KEI_DISK_BYTES"@, decimal_text(d.disk_bytes_written as nat)),
        ("KEI_ELAPSED_SECS"@, d.elapsed_secs@),
        ("KEI_EXIF_FAILURES"@, decimal_text(d.exif_failures as nat)),
        ("KEI_STATE_WRITE_FAILURES"@, decimal_text(d.state_write_failures as nat)),
        ("KEI_ENUMERATION_ERRORS"@, decimal_text(d.enumeration_errors as nat)),
        (
            "KEI_PAGINATION_SHORTFALL_WARNINGS"@,
            decimal_text(d.pagination_shortfall_warnings as nat),
        ),
        ("KEI_PAGINATION_SHORTFALL_ASSETS"@, decimal_text(d.pagination_shortfall_assets as nat)),
        ("KEI_SYNC_TOKEN_BLOCKED"@, bool_text(d.sync_token_blocked)),
    ]
}

/// The variables that tell why assets were skipped.
pub open spec fn skip_env(d: SyncNotificationData) -> Seq<(Seq<char>, Seq<char>)> {
    seq![
        ("KEI_SKIPPED_BY_STATE"@, decimal_text(d.skipped_by_state as nat)),
        ("KEI_SKIPPED_ON_DISK"@, decimal_text(d.skipped_on_disk as nat)),
        ("KEI_SKIPPED_BY_MEDIA_TYPE"@, decimal_text(d.skipped_by_media_type as nat)),
        ("KEI_SKIPPED_BY_DATE_RANGE"@, decimal_text(d.skipped_by_date_range as nat)),
        ("KEI_SKIPPED_BY_LIVE_PHOTO"@, decimal_text(d.skipped_by_live_photo as nat)),
        ("KEI_SKIPPED_BY_FILENAME"@, decimal_text(d.skipped_by_filename as nat)),
        ("KEI_SKIPPED_BY_EXCLUDED_ALBUM"@, decimal_text(d.skipped_by_excluded_album as nat)),
        ("KEI_SKIPPED_LIVE_PHOTO_VARIANT"@, decimal_text(d.skipped_live_photo_variant as nat)),
        ("KEI_SKIPPED_DUPLICATES"@, decimal_text(d.skipped_duplicates as nat)),
        ("KEI_SKIPPED_RETRY_EXHAUSTED"@, decimal_text(d.skipped_retry_exhausted as nat)),
        ("KEI_SKIPPED_RETRY_ONLY"@, decimal_text(d.skipped_retry_only as nat)),
    ]
}

/// The variables that the numbers about a sync make. The reason why the token was kept back
/// is told only where there is one.
pub open spec fn data_env(d: SyncNotificationData) -> Seq<(Seq<char>, Seq<char>)> {
    let told = outcome_env(d) + skip_env(d);
    match d.sync_token_blocked_reason {
        Some(reason) => told.push(("KEI_SYNC_TOKEN_BLOCK_REASON"@, reason@)),
        None => told,
    }
}

/// The variables that a script gets.
pub open spec fn env_of(
    event: Seq<char>,
    message: Seq<char>,
    username: Seq<char>,
    data: Option<SyncNotificationData>,
) -> Seq<(Seq<char>, Seq<char>)> {
    match data {
        Some(d) => event_env(event, message, username) + data_env(d),
        None => event_env(event, message, username),
    }
}

/// The views of variables.
pub open spec fn env_views(env: Seq<(&'static str, String)>) -> Seq<(Seq<char>, Seq<char>)> {
    env.map_values(|v: (&'static str, String)| (v.0@, v.1@))
}

/// The variables that tell how a sync went.
fn outcome_variables(d: &SyncNotificationData) -> (env: Vec<(&'static str, String)>)
    ensures
        env_views(env@) == outcome_env(*d),
{
    let env = vec![
        ("KEI_ASSETS_SEEN", decimal(d.assets_seen)),
        ("KEI_DOWNLOADED", decimal_usize(d.downloaded)),
        ("KEI_FAILED", decimal_usize(d.failed)),
        ("KEI_SKIPPED", decimal_usize(d.skipped)),
        ("KEI_INTERRUPTED", bool_string(d.interrupted)),
        ("KEI_BYTES_DOWNLOADED", decimal(d.bytes_downloaded)),
        ("KEI_DISK_BYTES", decimal(d.disk_bytes_written)),
        ("KEI_ELAPSED_SECS", d.elapsed_secs.clone()),
        ("KEI_EXIF_FAILURES", decimal_usize(d.exif_failures)),
        ("KEI_STATE_WRITE_FAILURES", decimal_usize(d.state_write_failures)),
        ("KEI_ENUMERATION_ERRORS", decimal_usize(d.enumeration_errors)),
        ("KEI_PAGINATION_SHORTFALL_WARNINGS", decimal_usize(d.pagination_shortfall_warnings)),
        ("KEI_PAGINATION_SHORTFALL_ASSETS", decimal(d.pagination_shortfall_assets)),
        ("KEI_SYNC_TOKEN_BLOCKED", bool_string(d.sync_token_blocked)),
    ];
    assert(env_views(env@) =~= outcome_env(*d));
    env
}

/// The variables that tell why assets were skipped.
fn skip_variables(d: &SyncNotificationData) -> (env: Vec<(&'static str, String)>)
    ensures
        env_views(env@) == skip_env(*d),
{
    let env = vec![
        ("KEI_SKIPPED_BY_STATE", decimal_usize(d.skipped_by_state)),
        ("KEI_SKIPPED_ON_DISK", decimal_usize(d.skipped_on_disk)),
        ("KEI_SKIPPED_BY_MEDIA_TYPE", decimal_usize(d.skipped_by_media_type)),
        ("KEI_SKIPPED_BY_DATE_RANGE", decimal_usize(d.skipped_by_date_range)),
        ("KEI_SKIPPED_BY_LIVE_PHOTO", decimal_usize(d.skipped_by_live_photo)),
        ("KEI_SKIPPED_BY_FILENAME", decimal_usize(d.skipped_by_filename)),
        ("KEI_SKIPPED_BY_EXCLUDED_ALBUM", decimal_usize(d.skipped_by_excluded_album)),
        ("KEI_SKIPPED_LIVE_PHOTO_VARIANT", decimal_usize(d.skipped_live_photo_variant)),
        ("KEI_SKIPPED_DUPLICATES", decimal_usize(d.skipped_duplicates)),
        ("KEI_SKIPPED_RETRY_EXHAUSTED", decimal_usize(d.skipped_retry_exhausted)),
        ("KEI_SKIPPED_RETRY_ONLY", decimal_usize(d.skipped_retry_only)),
    ];
    assert(env_views(env@) =~= skip_env(*d));
    env
}

/// The variables that a script gets.
pub fn script_env(
    event: &str,
    message: &str,
    username: &str,
    data: Option<&SyncNotificationData>,
) -> (env: Vec<(&'static str, String)>)
    ensures
        env_views(env@) == env_of(
            event@,
            message@,
            username@,
            match data {
                Some(d) => Some(*d),
                None => None,
            },
        ),
{
    let mut env = vec![
        ("KEI_EVENT", event.to_owned()),
        ("KEI_MESSAGE", message.to_owned()),
        ("KEI_ICLOUD_USERNAME", username.to_owned()),
    ];
    let ghost first = event_env(event@, message@, username@);
    assert(env_views(env@) =~= first);
    if let Some(d) = data {
        let mut outcome = outcome_variables(d);
        let mut skips = skip_variables(d);
        let ghost outcome_seq = outcome@;
        let ghost skips_seq = skips@;
        env.append(&mut outcome);
        env.append(&mut skips);
        proof {
            assert(env_views(outcome_seq) == outcome_env(*d));
            assert(env_views(skips_seq) == skip_env(*d));
            assert(env_views(env@) =~= first + (outcome_env(*d) + skip_env(*d)));
        }
        if let Some(reason) = d.sync_token_blocked_reason {
            let ghost before = env_views(env@);
            env.push(("KEI_SYNC_TOKEN_BLOCK_REASON", reason.to_owned()));
            proof {
                assert(env_views(env@) =~= before.push(
                    ("KEI_SYNC_TOKEN_BLOCK_REASON"@, reason@),
                ));
                assert(env_views(env@) =~= first + data_env(*d));
            }
        }
    }
    env
}

// When a script runs.

/// How many seconds a script may run.
pub const SCRIPT_TIMEOUT_SECS: u64 = 30;

/// How many scripts may run at once. Events come at the bounds of a sync, so a few are plenty;
/// a script that hangs cannot pile up others behind it.
pub const NOTIFIER_MAX_INFLIGHT: usize = 8;

/// What is said of a script that ran for too long.
pub fn timeout_text() -> (text: String)
    ensures
        text@ == "notification script timed out after "@ + decimal_text(
            SCRIPT_TIMEOUT_SECS as nat,
        ) + "s"@,
{
    let mut text = "notification script timed out after ".to_owned();
    text.append(&decimal(SCRIPT_TIMEOUT_SECS));
    text.append("s");
    text
}

/// What becomes of an event.
#[derive(Debug, Clone, Copy, PartialEq, Eq, Structural)]
pub enum NotifyStep {
    /// No script is configured.
    NoScript,
    /// The script does not exist.
    Missing,
    /// As many scripts run as may: the event is dropped.
    Saturated,
    /// The script is to be run.
    Fire,
}

/// Which script is told of events, and how many of its runs have not ended.
#[derive(Debug)]
pub struct Notifier {
    script: Option<String>,
    in_flight: usize,
}

/// A [`Notifier`] with its script taken by its characters.
#[verifier::ext_equal]
pub struct NotifierView {
    pub script: Option<Seq<char>>,
    pub in_flight: int,
}

impl View for Notifier {
    type V = NotifierView;

    closed spec fn view(&self) -> NotifierView {
        NotifierView {
            script: crate::text::option_view(self.script),
            in_flight: self.in_flight as int,
        }
    }
}

/// What becomes of an event.
pub open spec fn notify_step(notifier: NotifierView, exists: bool) -> NotifyStep {
    if notifier.script is None {
        NotifyStep::NoScript
    } else if !exists {
        NotifyStep::Missing
    } else if notifier.in_flight >= NOTIFIER_MAX_INFLIGHT {
        NotifyStep::Saturated
    } else {
        NotifyStep::Fire
    }
}

impl Notifier {
    #[verifier::type_invariant]
    spec fn inv(self) -> bool {
        self.in_flight <= NOTIFIER_MAX_INFLIGHT
    }

    /// Tell a script of events. Scripts run through a shell that Windows lacks, so none is
    /// kept there.
    pub fn new(script: Option<String>, windows: bool) -> (notifier: Notifier)
        ensures
            notifier@ == (NotifierView {
                script: if windows {
                    None
                } else {
                    crate::text::option_view(script)
                },
                in_flight: 0,
            }),
    {
        if windows {
            return Notifier { script: None, in_flight: 0 };
        }
        Notifier { script, in_flight: 0 }
    }

    /// The script that is told of events.
    pub fn script(&self) -> (script: Option<&str>)
        ensures
            crate::json::option_str_view(script) == self@.script,
    {
        match &self.script {
            Some(script) => Some(script.as_str()),
            None => None,
        }
    }

    /// How many more scripts may run.
    pub fn available(&self) -> (permits: usize)
        ensures
            permits == NOTIFIER_MAX_INFLIGHT - self@.in_flight,
    {
        proof {
            use_type_invariant(self);
        }
        NOTIFIER_MAX_INFLIGHT - self.in_flight
    }

    /// Decide on an event, given whether the script exists. An event that comes while as many
    /// scripts run as may is dropped, not kept for later.
    pub fn notify(&mut self, exists: bool) -> (step: NotifyStep)
        ensures
            step == notify_step(old(self)@, exists),
            final(self)@ == (NotifierView {
                script: old(self)@.script,
                in_flight: if step == NotifyStep::Fire {
                    old(self)@.in_flight + 1
                } else {
                    old(self)@.in_flight
                },
            }),
            final(self)@.in_flight <= NOTIFIER_MAX_INFLIGHT,
    {
        proof {
            use_type_invariant(&*self);
        }
        if self.script.is_none() {
            return NotifyStep::NoScript;
        }
        if !exists {
            return NotifyStep::Missing;
        }
        if self.in_flight >= NOTIFIER_MAX_INFLIGHT {
            return NotifyStep::Saturated;
        }
        self.in_flight = self.in_flight + 1;
        NotifyStep::Fire
    }

    /// Take note that a run of the script ended.
    pub fn finished(&mut self)
        requires
            old(self)@.in_flight > 0,
        ensures
            final(self)@ == (NotifierView {
                script: old(self)@.script,
                in_flight: old(self)@.in_flight - 1,
            }),
    {
        proof {
            use_type_invariant(&*self);
        }
        self.in_flight = self.in_flight - 1;
    }
}

// Laws.

/// Two events never have the same name.
pub proof fn law_event_names_are_distinct(a: Event, b: Event)
    requires
        a != b,
    ensures
        event_name(a) != event_name(b),
{
    reveal_strlit("2fa_required");
    reveal_strlit("sync_started");
    reveal_strlit("sync_complete");
    reveal_strlit("sync_failed");
    reveal_strlit("session_expired");
    assert("2fa_required"@[0] == '2' && "2fa_required"@.len() == 12);
    assert("sync_started"@[0] == 's' && "sync_started"@.len() == 12);
    assert("sync_complete"@.len() == 13);
    assert("sync_failed"@.len() == 11);
    assert("session_expired"@.len() == 15);
}

/// A script that is told nothing about a sync gets exactly the variables of the event, and
/// numbers about a sync come behind them.
pub proof fn law_event_comes_first(
    event: Seq<char>,
    message: Seq<char>,
    username: Seq<char>,
    data: Option<SyncNotificationData>,
)
    ensures
        env_of(event, message, username, data).take(3) == event_env(event, message, username),
        data is None ==> env_of(event, message, username, data).len() == 3,
{
    assert(env_of(event, message, username, data).take(3) =~= event_env(event, message, username));
}

/// Every event goes by its own name.
pub proof fn law_events_go_by_their_names()
    ensures
        event_name(Event::TwoFaRequired) == "2fa_required"@,
        event_name(Event::SyncStarted) == "sync_started"@,
        event_name(Event::SyncComplete) == "sync_complete"@,
        event_name(Event::SyncFailed) == "sync_failed"@,
        event_name(Event::SessionExpired) == "session_expired"@,
{
}

/// The event, its message and the account are told under their own names.
pub proof fn law_the_event_is_told_under_its_own_names(
    event: Seq<char>,
    message: Seq<char>,
    username: Seq<char>,
    data: Option<SyncNotificationData>,
)
    ensures
        ({
            let env = env_of(event, message, username, data);
            &&& env.len() >= 3
            &&& env[0] == ("KEI_EVENT"@, event)
            &&& env[1] == ("KEI_MESSAGE"@, message)
            &&& env[2] == ("KEI_ICLOUD_USERNAME"@, username)
        }),
{
}

/// Each number about a sync is told under its own name.
pub proof fn law_outcomes_are_told_under_their_own_names(
    event: Seq<char>,
    message: Seq<char>,
    username: Seq<char>,
    d: SyncNotificationData,
)
    ensures
        ({
            let env = env_of(event, message, username, Some(d));
            &&& env.contains(("KEI_ASSETS_SEEN"@, decimal_text(d.assets_seen as nat)))
            &&& env.contains(("KEI_DOWNLOADED"@, decimal_text(d.downloaded as nat)))
            &&& env.contains(("KEI_FAILED"@, decimal_text(d.failed as nat)))
            &&& env.contains(("KEI_SKIPPED"@, decimal_text(d.skipped as nat)))
            &&& env.contains(("KEI_INTERRUPTED"@, bool_text(d.interrupted)))
            &&& env.contains(("KEI_BYTES_DOWNLOADED"@, decimal_text(d.bytes_downloaded as nat)))
            &&& env.contains(("KEI_DISK_BYTES"@, decimal_text(d.disk_bytes_written as nat)))
            &&& env.contains(("KEI_ELAPSED_SECS"@, d.elapsed_secs@))
            &&& env.contains(("KEI_EXIF_FAILURES"@, decimal_text(d.exif_failures as nat)))
            &&& env.contains(
                ("KEI_STATE_WRITE_FAILURES"@, decimal_text(d.state_write_failures as nat)),
            )
            &&& env.contains(("KEI_ENUMERATION_ERRORS"@, decimal_text(d.enumeration_errors as nat)))
            &&& env.contains(
                (
                    "KEI_PAGINATION_SHORTFALL_WARNINGS"@,
                    decimal_text(d.pagination_shortfall_warnings as nat),
                ),
            )
            &&& env.contains(
                (
                    "KEI_PAGINATION_SHORTFALL_ASSETS"@,
                    decimal_text(d.pagination_shortfall_assets as nat),
                ),
            )
            &&& env.contains(("KEI_SYNC_TOKEN_BLOCKED"@, bool_text(d.sync_token_blocked)))
        }),
{
    let env = env_of(event, message, username, Some(d));
    let told = outcome_env(d);
    assert forall|i: int| 0 <= i < 14 implies env.contains(#[trigger] told[i]) by {
        assert(env[3 + i] == told[i]);
    }
    assert(env.contains(told[0]) && env.contains(told[1]) && env.contains(told[2]));
    assert(env.contains(told[3]) && env.contains(told[4]) && env.contains(told[5]));
    assert(env.contains(told[6]) && env.contains(told[7]) && env.contains(told[8]));
    assert(env.contains(told[9]) && env.contains(told[10]) && env.contains(told[11]));
    assert(env.contains(told[12]) && env.contains(told[13]));
}

/// Each reason for which assets were skipped is counted under its own name.
pub proof fn law_skips_are_told_under_their_own_names(
    event: Seq<char>,
    message: Seq<char>,
    username: Seq<char>,
    d: SyncNotificationData,
)
    ensures
        ({
            let env = env_of(event, message, username, Some(d));
            &&& env.contains(("KEI_SKIPPED_BY_STATE"@, decimal_text(d.skipped_by_state as nat)))
            &&& env.contains(("KEI_SKIPPED_ON_DISK"@, decimal_text(d.skipped_on_disk as nat)))
            &&& env.contains(
                ("KEI_SKIPPED_BY_MEDIA_TYPE"@, decimal_text(d.skipped_by_media_type as nat)),
            )
            &&& env.contains(
                ("KEI_SKIPPED_BY_DATE_RANGE"@, decimal_text(d.skipped_by_date_range as nat)),
            )
            &&& env.contains(
                ("KEI_SKIPPED_BY_LIVE_PHOTO"@, decimal_text(d.skipped_by_live_photo as nat)),
            )
            &&& env.contains(("KEI_SKIPPED_BY_FILENAME"@, decimal_text(d.skipped_by_filename as nat)))
            &&& env.contains(
                ("KEI_SKIPPED_BY_EXCLUDED_ALBUM"@, decimal_text(d.skipped_by_excluded_album as nat)),
            )
            &&& env.contains(
                (
                    "KEI_SKIPPED_LIVE_PHOTO_VARIANT"@,
                    decimal_text(d.skipped_live_photo_variant as nat),
                ),
            )
            &&& env.contains(("KEI_SKIPPED_DUPLICATES"@, decimal_text(d.skipped_duplicates as nat)))
            &&& env.contains(
                ("KEI_SKIPPED_RETRY_EXHAUSTED"@, decimal_text(d.skipped_retry_exhausted as nat)),
            )
            &&& env.contains(("KEI_SKIPPED_RETRY_ONLY"@, decimal_text(d.skipped_retry_only as nat)))
        }),
{
    let env = env_of(event, message, username, Some(d));
    let told = skip_env(d);
    assert forall|i: int| 0 <= i < 11 implies env.contains(#[trigger] told[i]) by {
        assert(env[17 + i] == told[i]);
    }
    assert(env.contains(told[0]) && env.contains(told[1]) && env.contains(told[2]));
    assert(env.contains(told[3]) && env.contains(told[4]) && env.contains(told[5]));
    assert(env.contains(told[6]) && env.contains(told[7]) && env.contains(told[8]));
    assert(env.contains(told[9]) && env.contains(told[10]));
}

/// Nothing else is told of a sync but the reason why the token was kept back, and that only
/// where there is one.
pub proof fn law_a_reason_is_told_where_there_is_one(
    event: Seq<char>,
    message: Seq<char>,
    username: Seq<char>,
    d: SyncNotificationData,
)
    ensures
        ({
            let env = env_of(event, message, username, Some(d));
            match d.sync_token_blocked_reason {
                Some(reason) => env.len() == 29 && env.last() == (
                    "KEI_SYNC_TOKEN_BLOCK_REASON"@,
                    reason@,
                ),
                None => env.len() == 28,
            }
        }),
{
}

/// A script is run exactly where one is configured and exists, and fewer than eight run; an
/// event is dropped for the first of these that fails.
pub proof fn law_a_script_is_run_where_it_can_be(notifier: NotifierView, exists: bool)
    ensures
        notify_step(notifier, exists) == NotifyStep::Fire <==> notifier.script is Some && exists
            && notifier.in_flight < 8,
        notify_step(notifier, exists) == NotifyStep::NoScript <==> notifier.script is None,
        notify_step(notifier, exists) == NotifyStep::Missing <==> notifier.script is Some && !exists,
        notify_step(notifier, exists) == NotifyStep::Saturated <==> notifier.script is Some
            && exists && notifier.in_flight >= 8,
{
}

} // verus!
