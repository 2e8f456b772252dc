//! Scripts that are told of what happens.
use kei::notifications::{
    script_env, timeout_text, Event, Notifier, NotifyStep, SyncNotificationData,
    NOTIFIER_MAX_INFLIGHT,
};

/// The value of a variable, or "unset".
fn var<'a>(env: &'a [(&'static str, String)], name: &str) -> &'a str {
    env.iter().find(|(key, _)| *key == name).map_or("unset", |(_, value)| value.as_str())
}

#[test]
fn event_as_str() {
    assert_eq!(Event::TwoFaRequired.as_str(), "2fa_required");
    assert_eq!(Event::SyncStarted.as_str(), "sync_started");
    assert_eq!(Event::SyncComplete.as_str(), "sync_complete");
    assert_eq!(Event::SyncFailed.as_str(), "sync_failed");
    assert_eq!(Event::SessionExpired.as_str(), "session_expired");
}

#[test]
fn notifier_drops_script_on_windows() {
    let notifier = Notifier::new(Some("C:/does/not/matter.sh".to_string()), true);
    assert!(notifier.script().is_none());
}

#[test]
fn notifier_none_is_noop() {
    let mut notifier = Notifier::new(None, false);
    assert!(notifier.script().is_none());
    assert_eq!(notifier.notify(true), NotifyStep::NoScript);
}

#[test]
fn notify_with_nonexistent_script() {
    let mut notifier =
        Notifier::new(Some("/tmp/codex/kei/nonexistent_notify.sh".to_string()), false);
    assert_eq!(notifier.script(), Some("/tmp/codex/kei/nonexistent_notify.sh"));
    assert_eq!(notifier.notify(false), NotifyStep::Missing);
    assert_eq!(notifier.available(), NOTIFIER_MAX_INFLIGHT);
}

#[test]
fn notifier_semaphore_caps_concurrent_inflight() {
    let mut notifier = Notifier::new(Some("/tmp/codex/kei/unused-notify.sh".to_string()), false);
    for _ in 0..NOTIFIER_MAX_INFLIGHT {
        assert_eq!(notifier.notify(true), NotifyStep::Fire);
    }
    assert_eq!(notifier.available(), 0);
    assert_eq!(notifier.notify(true), NotifyStep::Saturated);
    for _ in 0..NOTIFIER_MAX_INFLIGHT {
        notifier.finished();
    }
    assert_eq!(notifier.available(), NOTIFIER_MAX_INFLIGHT);
}

#[test]
fn notifier_drops_events_when_saturated() {
    let mut notifier = Notifier::new(Some("notify.sh".to_string()), false);
    for _ in 0..NOTIFIER_MAX_INFLIGHT {
        notifier.notify(true);
    }
    assert_eq!(notifier.notify(true), NotifyStep::Saturated);
    assert_eq!(notifier.available(), 0, "a dropped event must not consume or leak a permit");
    notifier.finished();
    assert_eq!(notifier.notify(true), NotifyStep::Fire);
}

#[test]
fn notify_runs_script_with_env_vars() {
    let env = script_env(
        Event::TwoFaRequired.as_str(),
        "Need 2FA code",
        "test@example.com",
        None,
    );
    assert_eq!(
        format!(
            "{}|{}|{}",
            var(&env, "KEI_EVENT"),
            var(&env, "KEI_MESSAGE"),
            var(&env, "KEI_ICLOUD_USERNAME")
        ),
        "2fa_required|Need 2FA code|test@example.com"
    );
}

#[test]
fn notify_with_sync_data_sets_extended_env_vars() {
    let data = SyncNotificationData {
        downloaded: 42,
        failed: 3,
        skipped: 100,
        bytes_downloaded: 1_500_000,
        skipped_by_state: 80,
        ..SyncNotificationData::default()
    };
    let env = script_env(Event::SyncComplete.as_str(), "test", "user@example.com", Some(&data));
    assert_eq!(
        format!(
            "{}|{}|{}|{}|{}",
            var(&env, "KEI_DOWNLOADED"),
            var(&env, "KEI_FAILED"),
            var(&env, "KEI_SKIPPED"),
            var(&env, "KEI_BYTES_DOWNLOADED"),
            var(&env, "KEI_SKIPPED_BY_STATE")
        ),
        "42|3|100|1500000|80"
    );
    assert_eq!(env.len(), 28);
    assert_eq!(var(&env, "KEI_INTERRUPTED"), "false");
    assert_eq!(var(&env, "KEI_ELAPSED_SECS"), "0.0");
    assert_eq!(var(&env, "KEI_SYNC_TOKEN_BLOCK_REASON"), "unset");
}

#[test]
fn a_blocked_token_is_told_with_its_reason() {
    let data = SyncNotificationData {
        sync_token_blocked: true,
        sync_token_blocked_reason: Some("enumeration_errors"),
        elapsed_secs: "12.5".to_string(),
        ..SyncNotificationData::default()
    };
    let env = script_env("sync_failed", "m", "u", Some(&data));
    assert_eq!(var(&env, "KEI_SYNC_TOKEN_BLOCKED"), "true");
    assert_eq!(var(&env, "KEI_SYNC_TOKEN_BLOCK_REASON"), "enumeration_errors");
    assert_eq!(var(&env, "KEI_ELAPSED_SECS"), "12.5");
    assert_eq!(env.len(), 29);
}

#[test]
fn notify_without_data_omits_extended_vars() {
    let env = script_env(Event::SyncComplete.as_str(), "test", "user@example.com", None);
    assert_eq!(
        format!("{}|{}", var(&env, "KEI_DOWNLOADED"), var(&env, "KEI_FAILED")),
        "unset|unset"
    );
    assert_eq!(env.len(), 3);
}

#[test]
fn a_script_that_hangs_is_told_of_with_its_time() {
    assert_eq!(timeout_text(), "notification script timed out after 30s");
}
