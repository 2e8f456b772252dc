//! The process: its log, its exit codes, its PID file, its disk and how it starts.
use std::io::Write;

use kei::disk::{check_min_disk_space, free_bytes, MIN_FREE_BYTES};
use kei::exit::{
    classify_exit_error, AuthError, ExitClassification, FatalError, PartialSyncError, EXIT_AUTH,
    EXIT_PARTIAL, EXIT_TERMINAL_AUTH,
};
use kei::migration::{
    copies_entry, migrate_legacy_paths, plan_migration, startup_failure, LegacyPaths,
    MigrationPlan, DEPRECATED,
};
use kei::pid_file::{check_recorded_pid, recorded_pid};
use kei::redact::{redact, redact_text};
use kei::secret::Secret;
use kei::startup::{
    db_file_name, effective_log_level, is_config_explicit, log_filter, requested_log_level,
    Action, Command, ConfigFacts, Event, LogLevel, LoggingPlan, Phase, Startup,
};

/// A writer that keeps the password out of what it hands on.
struct RedactingWriter<'a> {
    inner: &'a mut Vec<u8>,
    password: Option<Secret>,
}

impl Write for RedactingWriter<'_> {
    fn write(&mut self, buf: &[u8]) -> std::io::Result<usize> {
        self.inner.write_all(&redact(buf, self.password.as_ref()))?;
        Ok(buf.len())
    }

    fn flush(&mut self) -> std::io::Result<()> {
        self.inner.flush()
    }
}

/// What a writer with a password hands on.
fn written(password: Option<&str>, bytes: &[u8]) -> Vec<u8> {
    let mut buf = Vec::new();
    let mut writer = RedactingWriter {
        inner: &mut buf,
        password: password.map(|password| Secret::new(password.to_string())),
    };
    writer.write_all(bytes).unwrap();
    buf
}

#[test]
fn redacting_writer_replaces_password() {
    let output = String::from_utf8(written(Some("s3cret"), b"Login with s3cret ok")).unwrap();
    assert!(!output.contains("s3cret"));
    assert!(output.contains("********"));
    assert_eq!(output, "Login with ******** ok");
}

#[test]
fn redacting_writer_no_password_passthrough() {
    let output = String::from_utf8(written(None, b"normal log line")).unwrap();
    assert_eq!(output, "normal log line");
}

#[test]
fn redacting_writer_empty_password_passthrough() {
    let output = String::from_utf8(written(Some(""), b"normal log line")).unwrap();
    assert_eq!(output, "normal log line");
}

#[test]
fn redacting_writer_short_buffer_passthrough() {
    let output = String::from_utf8(written(Some("longpassword"), b"short")).unwrap();
    assert_eq!(output, "short");
}

#[test]
fn redacting_writer_flush() {
    let mut buf = Vec::new();
    let mut writer = RedactingWriter { inner: &mut buf, password: None };
    writer.flush().unwrap();
}

#[test]
fn redacting_writer_password_absent_passthrough() {
    let line = b"long line of trace output without any sensitive value";
    let output = String::from_utf8(written(Some("s3cret"), line)).unwrap();
    assert_eq!(output, "long line of trace output without any sensitive value");
}

#[test]
fn redacting_writer_non_utf8_passthrough_preserves_bytes() {
    let bytes: Vec<u8> = vec![0xff, 0xfe, 0xfd, b'o', b'k', 0x00, 0x80];
    assert_eq!(written(Some("s3cret"), &bytes), bytes);
}

#[test]
fn redacting_writer_non_utf8_with_password_redacts() {
    let mut bytes: Vec<u8> = b"prefix s3cret suffix ".to_vec();
    bytes.push(0xff);
    let output = String::from_utf8_lossy(&written(Some("s3cret"), &bytes)).into_owned();
    assert!(!output.contains("s3cret"));
    assert!(output.contains("********"));
    assert_eq!(output, "prefix ******** suffix \u{fffd}");
}

#[test]
fn every_occurrence_is_replaced_from_left_to_right() {
    assert_eq!(redact_text("aaa", "aa"), "********a");
    assert_eq!(redact_text("xabyabz", "ab"), "x********y********z");
    assert_eq!(redact_text("abc", ""), "abc");
    assert_eq!(redact_text("grüße grüße", "grüße"), "******** ********");
    let long = format!("{}{}{}", "x".repeat(200), "hunter2", "y".repeat(200));
    assert!(!String::from_utf8(written(Some("hunter2"), long.as_bytes())).unwrap().contains("hunter2"));
}

#[test]
fn run_sync_low_disk_space_aborts_before_auth() {
    let dir = "/tmp/codex/kei/cg-20-disk";
    for &low in &[0u64, 1023 * 1024 * 1024] {
        let r = check_min_disk_space(low, dir);
        assert!(r.is_err(), "{low} bytes is below 1 GiB; check_min_disk_space must bail");
        let msg = r.expect_err("expected Err");
        assert!(
            msg.contains("Insufficient disk space"),
            "error message must call out the disk-space reason; got: {msg}"
        );
        assert!(
            msg.contains("minimum 1 GiB"),
            "error message must state the minimum so operators know what to free; got: {msg}"
        );
    }
    for &ok in &[MIN_FREE_BYTES, 10 * 1024 * 1024 * 1024] {
        assert!(
            check_min_disk_space(ok, dir).is_ok(),
            "{ok} bytes is at or above 1 GiB; check_min_disk_space must succeed"
        );
    }
    assert_eq!(
        check_min_disk_space(1023 * 1024 * 1024, dir).unwrap_err(),
        "Insufficient disk space: only 1023 MiB available in /tmp/codex/kei/cg-20-disk (minimum 1 GiB)"
    );
}

#[test]
fn check_min_disk_space_threshold_is_one_gib() {
    assert_eq!(MIN_FREE_BYTES, 1_073_741_824);
    assert_eq!(MIN_FREE_BYTES, 1024 * 1024 * 1024);
    assert_eq!(free_bytes(262_144, 4096), MIN_FREE_BYTES);
}

#[test]
fn classify_exit_error_two_factor_required_is_suppressed_success() {
    let e = FatalError::Auth(AuthError::TwoFactorRequired);
    let c = classify_exit_error(&e);
    assert_eq!(c, ExitClassification::TwoFactorRequired);
    assert_eq!(c.exit_code(), 0);
    assert!(
        !c.should_log(),
        "2FA-required must not emit a final error log; that path is the success branch"
    );
}

#[test]
fn classify_exit_error_partial_sync_uses_exit_partial() {
    let e = FatalError::Partial(PartialSyncError(7));
    let c = classify_exit_error(&e);
    assert_eq!(c, ExitClassification::Partial);
    assert_eq!(c.exit_code(), EXIT_PARTIAL);
    assert_eq!(c.exit_code(), 2);
    assert!(c.should_log());
    assert_eq!(PartialSyncError(7).message(), "7 downloads failed");
}

#[test]
fn classify_exit_error_auth_non_2fa_uses_exit_auth() {
    let e = FatalError::Auth(AuthError::FailedLogin("bad password".into()));
    let c = classify_exit_error(&e);
    assert_eq!(c, ExitClassification::Auth);
    assert_eq!(c.exit_code(), EXIT_AUTH);
    assert_eq!(c.exit_code(), 3);
    assert!(c.should_log());
}

#[test]
fn classify_exit_error_terminal_auth_uses_exit_terminal_auth() {
    let e = FatalError::Auth(AuthError::TerminalAppleAuth {
        code: -20209,
        message: "Account locked".into(),
    });
    let c = classify_exit_error(&e);
    assert_eq!(c, ExitClassification::TerminalAuth);
    assert_eq!(c.exit_code(), EXIT_TERMINAL_AUTH);
    assert_eq!(c.exit_code(), 4);
    assert!(c.should_log());
}

#[test]
fn classify_exit_error_generic_uses_failure() {
    let e = FatalError::Other("disk on fire".to_string());
    let c = classify_exit_error(&e);
    assert_eq!(c, ExitClassification::Other);
    assert_eq!(c.exit_code(), 1);
    assert!(c.should_log());
}

#[test]
fn classify_exit_error_walks_anyhow_context() {
    let e = FatalError::Auth(AuthError::TwoFactorRequired)
        .context("while validating session")
        .context("during startup");
    assert_eq!(
        classify_exit_error(&e),
        ExitClassification::TwoFactorRequired,
        "AuthError wrapped in a context must still classify as 2FA-required; \
         otherwise context-wrapping at any call site silently flips exit 0 -> exit 1"
    );
    match e {
        FatalError::Context { context, .. } => assert_eq!(context, "during startup"),
        other => panic!("expected a context, got {other:?}"),
    }

    let e = FatalError::Partial(PartialSyncError(3)).context("after final retry pass");
    assert_eq!(classify_exit_error(&e), ExitClassification::Partial);

    let e = FatalError::Auth(AuthError::TerminalAppleAuth {
        code: -20209,
        message: "Account locked".to_string(),
    })
    .context("while completing SRP login")
    .context("during startup");
    assert_eq!(classify_exit_error(&e), ExitClassification::TerminalAuth);

    let e = FatalError::Other("disk on fire".to_string()).context("during startup");
    assert_eq!(classify_exit_error(&e), ExitClassification::Other);
}

#[test]
fn classify_exit_error_codes_are_distinct() {
    let codes = [
        ExitClassification::TwoFactorRequired.exit_code(),
        ExitClassification::Partial.exit_code(),
        ExitClassification::Auth.exit_code(),
        ExitClassification::TerminalAuth.exit_code(),
        ExitClassification::Other.exit_code(),
    ];
    let mut sorted: Vec<u8> = codes.to_vec();
    sorted.sort_unstable();
    sorted.dedup();
    assert_eq!(
        sorted.len(),
        codes.len(),
        "every exit classification must map to a distinct code; got {codes:?}"
    );
}

#[test]
fn a_pid_file_names_a_positive_number() {
    assert_eq!(recorded_pid("1234"), Some(1234));
    assert_eq!(recorded_pid(" 1234\n"), Some(1234));
    assert_eq!(recorded_pid("+7"), Some(7));
    assert_eq!(recorded_pid("007"), Some(7));
    assert_eq!(recorded_pid("2147483646"), Some(i32::MAX - 1));
    assert_eq!(recorded_pid("2147483648"), None);
    assert_eq!(recorded_pid("99999999999999999999999999"), None);
    assert_eq!(recorded_pid("not a pid"), None);
    assert_eq!(recorded_pid("0"), None);
    assert_eq!(recorded_pid("-5"), None);
    assert_eq!(recorded_pid("+"), None);
    assert_eq!(recorded_pid(""), None);
    assert_eq!(recorded_pid(&4242.to_string()), Some(4242));
}

#[test]
fn pid_file_guard_refuses_when_existing_pid_alive() {
    let err = check_recorded_pid("kei.pid", Some(77), true).expect_err("should refuse");
    assert_eq!(
        err,
        "PID file kei.pid refers to running process 77; refusing to start a second instance"
    );
}

#[test]
fn pid_file_guard_overwrites_when_existing_pid_dead() {
    assert!(check_recorded_pid("kei.pid", Some(i32::MAX - 1), false).is_ok());
}

#[test]
fn pid_file_guard_overwrites_when_existing_contents_garbage() {
    assert!(check_recorded_pid("kei.pid", recorded_pid("not a pid"), true).is_ok());
}

fn paths() -> LegacyPaths {
    LegacyPaths {
        new_config: "/home/u/.config/kei/config.toml".to_string(),
        new_cookie_dir: "/home/u/.config/kei/cookies".to_string(),
        old_config: "/home/u/.config/icloudpd-rs/config.toml".to_string(),
        old_cookie_dir: "/home/u/.icloudpd-rs".to_string(),
    }
}

#[test]
fn migrate_legacy_paths_migrates_config_and_cookie_files_from_home() {
    let plan = plan_migration(false, true, true).expect("legacy paths should migrate");
    let report = migrate_legacy_paths(&paths(), plan, &Ok(true), &Ok(2)).unwrap();
    assert!(report.config_migrated);
    assert!(report.cookies_migrated);
    assert_eq!(
        report.warnings,
        vec![
            "Migrated config from /home/u/.config/icloudpd-rs/config.toml to /home/u/.config/kei/config.toml".to_string(),
            "Migrated 2 files from /home/u/.icloudpd-rs to /home/u/.config/kei/cookies".to_string(),
            DEPRECATED.to_string(),
        ]
    );
    assert!(
        report.warnings.iter().any(|line| line.contains("deprecated")),
        "migration report should tell users to move off old paths: {report:?}"
    );
}

#[test]
fn migrate_legacy_paths_skips_when_new_config_exists() {
    assert!(plan_migration(true, true, true).is_none());
}

#[test]
fn migrate_legacy_paths_returns_none_without_legacy_inputs() {
    assert!(plan_migration(false, false, false).is_none());
}

#[test]
fn a_second_migration_copies_and_reports_nothing() {
    let old = [("old.session", true), ("old.db", true), ("subdirectory", false)];
    let mut new: Vec<&str> = Vec::new();
    let mut copy = || {
        let plan = plan_migration(false, false, true).unwrap();
        assert!(!plan.config);
        let mut count = 0;
        for (name, is_file) in old {
            if copies_entry(is_file, new.contains(&name)) {
                new.push(name);
                count += 1;
            }
        }
        (count, migrate_legacy_paths(&paths(), plan, &Ok(false), &Ok(count)))
    };
    let (count, report) = copy();
    assert_eq!(count, 2);
    let report = report.unwrap();
    assert!(report.cookies_migrated && !report.config_migrated);
    assert!(report.warnings.iter().all(|line| !line.starts_with("Failed")));
    let (count, report) = copy();
    assert_eq!(count, 0);
    assert!(report.is_none());
}

#[test]
fn a_migration_that_copied_nothing_is_not_reported() {
    let plan = MigrationPlan { config: true, cookies: true };
    assert!(migrate_legacy_paths(&paths(), plan, &Ok(false), &Ok(0)).is_none());
    assert!(migrate_legacy_paths(&paths(), plan, &Err("full".to_string()), &Ok(0)).is_none());
    let report =
        migrate_legacy_paths(&paths(), plan, &Err("disk full".to_string()), &Ok(1)).unwrap();
    assert!(!report.config_migrated);
    assert_eq!(
        report.warnings[0],
        "Failed to migrate config from /home/u/.config/icloudpd-rs/config.toml: disk full. Using old path as fallback."
    );
}

#[test]
fn a_copy_that_failed_keeps_kei_from_starting() {
    let plan = MigrationPlan { config: true, cookies: true };
    assert_eq!(startup_failure(plan, &Ok(true), &Ok(3)), None);
    assert_eq!(
        startup_failure(plan, &Err("first".to_string()), &Err("second".to_string())).as_deref(),
        Some("first")
    );
    assert_eq!(
        startup_failure(plan, &Ok(true), &Err("second".to_string())).as_deref(),
        Some("second")
    );
    let cookies_only = MigrationPlan { config: false, cookies: true };
    assert_eq!(startup_failure(cookies_only, &Err("unplanned".to_string()), &Ok(0)), None);
}

#[test]
fn plain_files_are_copied_where_none_stands() {
    assert!(copies_entry(true, false));
    assert!(!copies_entry(true, true));
    assert!(!copies_entry(false, false));
}

fn sync() -> Command {
    Command::Sync { no_progress_bar: true, only_print_filenames: false, retry_failed: false }
}

/// Drive a start up to the plan for its log.
fn start_logging(
    config: &str,
    exists: bool,
    docker_exists: bool,
    command: Command,
) -> (Startup, LoggingPlan) {
    let (mut start, action) = Startup::new(config.to_string(), None, false, None, command);
    assert!(matches!(action, Action::Validate));
    assert!(matches!(start.on_event(Event::Validated(Ok(()))), Action::MigrateLegacyPaths));
    assert!(matches!(start.on_event(Event::Migrated(Ok(()))), Action::Locate));
    let located =
        Event::Located { expanded: "/home/u/kei.toml".to_string(), exists, docker_exists };
    assert!(matches!(start.on_event(located), Action::Check(_)));
    let checked = Event::Checked { exists: true, parent_is_dir: true };
    assert!(matches!(start.on_event(checked), Action::Load { .. }));
    let facts = ConfigFacts {
        log_level: Some(LogLevel::Warn),
        report_json: true,
        friendly: Some(false),
    };
    match start.on_event(Event::Loaded(Ok(facts))) {
        Action::StartLogging(plan) => (start, plan),
        other => panic!("expected StartLogging, got {other:?}"),
    }
}

#[test]
fn a_sync_is_started_with_its_configuration() {
    let (mut start, plan) = start_logging("~/.config/kei/config.toml", true, true, sync());
    assert_eq!(start.config_path(), "/home/u/kei.toml");
    assert!(!start.config_explicitly_set());
    assert_eq!(plan.filter, "warn");
    assert!(plan.no_progress_bar);
    assert!(plan.report_json);
    assert!(!plan.level_is_explicit);
    assert_eq!(plan.friendly, Some(false));
    assert!(!plan.used_docker_fallback);
    match start.on_event(Event::LoggingStarted) {
        Action::RunSync { one_shot, service_mode } => {
            assert!(!one_shot);
            assert!(!service_mode);
        }
        other => panic!("expected RunSync, got {other:?}"),
    }
    assert_eq!(start.phase(), Phase::Done);
}

#[test]
fn the_containers_configuration_is_the_last_resort() {
    let (start, plan) = start_logging("~/.config/kei/config.toml", false, true, sync());
    assert_eq!(start.config_path(), "/config/config.toml");
    assert!(plan.used_docker_fallback);
    let (start, plan) = start_logging("/etc/kei.toml", false, true, sync());
    assert_eq!(start.config_path(), "/home/u/kei.toml");
    assert!(!plan.used_docker_fallback);
    assert!(start.config_explicitly_set());
    assert!(!is_config_explicit("/config/config.toml"));
}

#[test]
fn a_named_configuration_has_to_exist_unless_it_can_be_created() {
    let required = |config: &str, exists: bool, parent_is_dir: bool| {
        let (mut start, _) = Startup::new(config.to_string(), None, false, None, Command::Status);
        start.on_event(Event::Validated(Ok(())));
        start.on_event(Event::Migrated(Ok(())));
        start.on_event(Event::Located {
            expanded: config.to_string(),
            exists,
            docker_exists: false,
        });
        match start.on_event(Event::Checked { exists, parent_is_dir }) {
            Action::Load { required, .. } => required,
            other => panic!("expected Load, got {other:?}"),
        }
    };
    assert!(required("/etc/kei.toml", true, true));
    assert!(required("/etc/kei.toml", false, false));
    assert!(!required("/etc/kei.toml", false, true));
    assert!(!required("~/.config/kei/config.toml", false, false));
}

#[test]
fn errors_end_the_start() {
    let fail = |action: Action| match action {
        Action::Fail(message) => message,
        other => panic!("expected Fail, got {other:?}"),
    };
    let new = || Startup::new("c".to_string(), None, false, None, Command::Status).0;
    let mut start = new();
    assert_eq!(fail(start.on_event(Event::Validated(Err("bad flag".to_string())))), "bad flag");
    let mut start = new();
    start.on_event(Event::Validated(Ok(())));
    assert_eq!(fail(start.on_event(Event::Migrated(Err("copy".to_string())))), "copy");
    assert_eq!(start.phase(), Phase::Done);
}

#[test]
fn the_wizard_may_be_followed_by_one_sync() {
    let setup = Command::ConfigSetup { output: None };
    let (mut start, plan) = start_logging("~/.config/kei/config.toml", true, false, setup);
    assert!(!plan.report_json);
    match start.on_event(Event::LoggingStarted) {
        Action::RunSetup(path) => assert_eq!(path, "/home/u/kei.toml"),
        other => panic!("expected RunSetup, got {other:?}"),
    }
    match start.on_event(Event::SetupEnded(Some("/home/u/new.toml".to_string()))) {
        Action::Load { path, required } => {
            assert_eq!(path, "/home/u/new.toml");
            assert!(required);
        }
        other => panic!("expected Load, got {other:?}"),
    }
    let facts = ConfigFacts { log_level: None, report_json: false, friendly: None };
    match start.on_event(Event::Loaded(Ok(facts))) {
        Action::RunSync { one_shot, service_mode } => {
            assert!(one_shot);
            assert!(!service_mode);
        }
        other => panic!("expected RunSync, got {other:?}"),
    }

    let named = Command::ConfigSetup { output: Some("/tmp/kei.toml".to_string()) };
    let (mut start, _) = start_logging("~/.config/kei/config.toml", true, false, named);
    match start.on_event(Event::LoggingStarted) {
        Action::RunSetup(path) => assert_eq!(path, "/tmp/kei.toml"),
        other => panic!("expected RunSetup, got {other:?}"),
    }
    assert!(matches!(start.on_event(Event::SetupEnded(None)), Action::Finish));
}

#[test]
fn the_service_and_other_commands_are_told_apart() {
    let config = "~/.config/kei/config.toml";
    let (mut start, plan) = start_logging(config, true, false, Command::ServiceRun);
    assert!(plan.service_run);
    assert!(plan.report_json);
    match start.on_event(Event::LoggingStarted) {
        Action::RunSync { one_shot, service_mode } => {
            assert!(!one_shot);
            assert!(service_mode);
        }
        other => panic!("expected RunSync, got {other:?}"),
    }
    let retry =
        Command::Sync { no_progress_bar: false, only_print_filenames: true, retry_failed: true };
    let (mut start, plan) = start_logging(config, true, false, retry);
    assert!(plan.only_print_filenames);
    assert!(matches!(
        start.on_event(Event::LoggingStarted),
        Action::RunSync { one_shot: true, service_mode: false }
    ));
    let (mut start, plan) = start_logging(config, true, false, Command::Verify);
    assert!(!plan.service_run && !plan.report_json);
    assert!(matches!(start.on_event(Event::LoggingStarted), Action::RunCommand));
    assert!(matches!(start.command(), Command::Verify));
}

#[test]
fn levels_on_the_command_line_come_first() {
    assert_eq!(requested_log_level(Some(LogLevel::Error), true), Some(LogLevel::Error));
    assert_eq!(requested_log_level(None, true), Some(LogLevel::Info));
    assert_eq!(requested_log_level(None, false), None);
    assert_eq!(effective_log_level(Some(LogLevel::Debug), Some(LogLevel::Warn)), LogLevel::Debug);
    assert_eq!(effective_log_level(None, Some(LogLevel::Warn)), LogLevel::Warn);
    assert_eq!(effective_log_level(None, None), LogLevel::Info);
    assert_eq!(log_filter(LogLevel::Debug), "kei=debug,info");
    assert_eq!(log_filter(LogLevel::Info), "kei=info");
    assert_eq!(log_filter(LogLevel::Warn), "warn");
    assert_eq!(log_filter(LogLevel::Error), "error");
}

#[test]
fn a_database_belongs_to_a_user() {
    assert_eq!(db_file_name("u@example.com", "u_example_com").unwrap(), "u_example_com.db");
    assert_eq!(
        db_file_name("", "").unwrap_err(),
        "username is required (set ICLOUD_USERNAME or [auth].username)"
    );
}

#[test]
fn the_command_that_was_asked_for_is_the_one_that_runs() {
    let config = "~/.config/kei/config.toml";
    let commands = [
        Command::Status,
        Command::ResetState,
        Command::ResetSyncToken,
        Command::Verify,
        Command::Reconcile,
        Command::ImportExisting,
        Command::Login,
        Command::Password,
        Command::List,
        Command::ConfigShow,
        Command::Install,
        Command::Uninstall,
        Command::ServiceStatus,
    ];
    for command in commands {
        let asked = format!("{command:?}");
        let (mut start, _) = start_logging(config, true, false, command);
        assert!(matches!(start.on_event(Event::LoggingStarted), Action::RunCommand));
        assert_eq!(format!("{:?}", start.command()), asked);
    }
}
