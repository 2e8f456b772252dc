//! What can go wrong between kei and iCloud.
use kei::error::ICloudError;

#[test]
fn connection_display_contains_message() {
    let err = ICloudError::Connection("timeout reached".into());
    let display = err.message();
    assert!(
        display.contains("timeout reached"),
        "expected display to contain the message, got: {display}"
    );
}

#[test]
fn service_not_activated_display_mentions_code_reason_and_adp() {
    let err = ICloudError::ServiceNotActivated {
        code: "ZONE_NOT_FOUND".into(),
        reason: "service unavailable".into(),
    };
    let display = err.message();
    assert!(
        display.contains("ZONE_NOT_FOUND"),
        "expected display to contain the code, got: {display}"
    );
    assert!(
        display.contains("service unavailable"),
        "expected display to contain the reason, got: {display}"
    );
    assert!(
        display.contains("Advanced Data Protection"),
        "expected display to mention Advanced Data Protection, got: {display}"
    );
}

#[test]
fn from_io_error_creates_io_variant() {
    let io_err = std::io::Error::new(std::io::ErrorKind::NotFound, "file missing");
    let err: ICloudError = io_err.into();
    assert!(
        matches!(err, ICloudError::Io(_)),
        "expected Io variant, got: {err:?}"
    );
}

#[test]
fn from_serde_json_error_creates_json_variant() {
    let json_err = serde_json::from_str::<serde_json::Value>("not valid json").unwrap_err();
    let err: ICloudError = json_err.into();
    assert!(
        matches!(err, ICloudError::Json(_)),
        "expected Json variant, got: {err:?}"
    );
}

#[test]
fn misdirected_request_is_distinct_variant() {
    let err = ICloudError::MisdirectedRequest;
    assert!(
        matches!(err, ICloudError::MisdirectedRequest),
        "dedicated variant so callers can reset pool and retry"
    );
    let display = err.message();
    assert!(display.contains("421"), "display mentions 421: {display}");
}

#[test]
fn session_expired_is_distinct_variant() {
    let err = ICloudError::SessionExpired { status: 401 };
    assert!(
        matches!(err, ICloudError::SessionExpired { .. }),
        "dedicated variant so callers can trigger SRP re-auth"
    );
    let display = err.message();
    assert!(display.contains("401"), "display mentions 401: {display}");
}

#[test]
fn session_expired_display_renders_actual_status() {
    let err = ICloudError::SessionExpired { status: 403 };
    assert!(
        err.message().contains("HTTP 403"),
        "403 must render as HTTP 403, not HTTP 401: {err:?}"
    );
}

#[test]
fn is_session_error_true_for_session_expired_and_misdirected() {
    assert!(ICloudError::SessionExpired { status: 401 }.is_session_error());
    assert!(ICloudError::SessionExpired { status: 403 }.is_session_error());
    assert!(ICloudError::MisdirectedRequest.is_session_error());
}

#[test]
fn is_session_error_false_for_other_variants() {
    assert!(!ICloudError::Connection("x".into()).is_session_error());
    assert!(
        !ICloudError::ServiceNotActivated {
            code: "ADP".into(),
            reason: "y".into()
        }
        .is_session_error()
    );
}
