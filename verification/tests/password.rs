//! Where passwords come from, and what is made of what was read there.
use kei::password::{
    build_password_source, check_command_support, check_password_file_mode, command_timeout_text,
    decide_save_password_action, read_password_command, read_password_file,
    strip_trailing_newline, CommandEnd, CommandWait, FileWarnings, PasswordSource,
    PasswordSourceKind, ResolveStep, SavePasswordAction, WaitStep, NO_PASSWORD,
};
use kei::secret::Secret;

fn secret(text: &str) -> Secret {
    Secret::new(text.to_string())
}

#[test]
fn read_password_file_normal() {
    assert_eq!(
        read_password_file("pw.txt", Some("my_secret\n")).unwrap().expose_secret(),
        "my_secret"
    );
}

#[test]
fn read_password_file_no_newline() {
    assert_eq!(
        read_password_file("pw.txt", Some("my_secret")).unwrap().expose_secret(),
        "my_secret"
    );
}

#[test]
fn read_password_file_crlf() {
    assert_eq!(
        read_password_file("pw.txt", Some("my_secret\r\n")).unwrap().expose_secret(),
        "my_secret"
    );
}

#[test]
fn read_password_file_empty() {
    let err = read_password_file("pw.txt", Some("")).unwrap_err();
    assert!(err.contains("empty"), "{err}");
}

#[test]
fn read_password_file_only_newline() {
    let err = read_password_file("pw.txt", Some("\n")).unwrap_err();
    assert!(err.contains("empty"), "{err}");
}

#[test]
fn read_password_file_missing() {
    let err = read_password_file("nonexistent.txt", None).unwrap_err();
    assert!(err.contains("Failed to read"), "{err}");
}

#[test]
fn run_password_command_echo() {
    let end = CommandEnd::Printed(b"hunter2\n".to_vec());
    assert_eq!(
        read_password_command("echo hunter2", end).unwrap().expose_secret(),
        "hunter2"
    );
}

#[test]
fn run_password_command_failure() {
    let end = CommandEnd::Failed("exit status: 1".to_string());
    let err = read_password_command("false", end).unwrap_err();
    assert!(err.contains("exited with status"), "{err}");
    assert_eq!(err, "Password command exited with status exit status: 1: false");
}

#[test]
fn run_password_command_empty() {
    let err = read_password_command("printf ''", CommandEnd::Printed(Vec::new())).unwrap_err();
    assert!(err.contains("empty"), "{err}");
}

#[test]
fn run_password_command_rejects_non_utf8_stdout() {
    let end = CommandEnd::Printed(vec![0o377, 0o376]);
    let err = read_password_command("printf '\\377\\376'", end).unwrap_err();
    assert!(err.contains("not valid UTF-8"), "expected invalid UTF-8 error; got: {err}");
}

#[test]
fn run_password_command_strips_newline() {
    let end = CommandEnd::Printed(b"secret_value\n".to_vec());
    assert_eq!(
        read_password_command("echo secret_value", end).unwrap().expose_secret(),
        "secret_value"
    );
}

#[test]
fn run_password_command_times_out_and_kills_hung_process() {
    let timeout = 100_000_000;
    let mut wait = CommandWait::new();
    let mut elapsed = 0;
    let mut slept = Vec::new();
    loop {
        match wait.on_running(elapsed, timeout) {
            WaitStep::Sleep(time) => {
                elapsed += time;
                slept.push(time / 1_000_000);
            }
            WaitStep::Kill => break,
        }
    }
    assert_eq!(slept, vec![5, 10, 20, 40, 25], "the last wait ends at the deadline");
    assert_eq!(elapsed, timeout);
    let message = command_timeout_text("sleep 30", timeout);
    assert!(message.contains("timed out"), "expected timeout error; got: {message}");
    assert_eq!(
        command_timeout_text("sleep 60", 30_000_000_000),
        "password command timed out after 30s: sleep 60"
    );
}

#[test]
fn run_password_command_completes_before_timeout() {
    let mut wait = CommandWait::new();
    assert_eq!(wait.on_running(0, 5_000_000_000), WaitStep::Sleep(5_000_000));
    let end = CommandEnd::Printed(b"fast\n".to_vec());
    assert_eq!(read_password_command("echo fast", end).unwrap().expose_secret(), "fast");
}

#[test]
fn waits_between_looks_double_up_to_the_cap() {
    let mut wait = CommandWait::new();
    let mut slept = Vec::new();
    for _ in 0..6 {
        match wait.on_running(0, 1_000_000_000) {
            WaitStep::Sleep(time) => slept.push(time / 1_000_000),
            WaitStep::Kill => panic!("the deadline has not come"),
        }
    }
    assert_eq!(slept, vec![5, 10, 20, 40, 50, 50]);
}

#[test]
fn password_source_direct_resolve() {
    let source = PasswordSource::Direct(secret("direct_pw"));
    match source.resolve(false) {
        ResolveStep::Password(password) => assert_eq!(password.expose_secret(), "direct_pw"),
        other => panic!("expected a password, got {other:?}"),
    }
}

#[test]
fn password_source_command_resolve() {
    let source = PasswordSource::Command("echo cmd_pw".to_string());
    match source.resolve(false) {
        ResolveStep::RunCommand(command) => {
            assert_eq!(command, "echo cmd_pw");
            let end = CommandEnd::Printed(b"cmd_pw\n".to_vec());
            assert_eq!(read_password_command(command, end).unwrap().expose_secret(), "cmd_pw");
        }
        other => panic!("expected a command, got {other:?}"),
    }
}

#[test]
fn password_source_file_resolve() {
    let source = PasswordSource::File("pw_source.txt".to_string());
    match source.resolve(false) {
        ResolveStep::ReadFile(path) => {
            assert_eq!(path, "pw_source.txt");
            let read = read_password_file(path, Some("file_pw\n"));
            assert_eq!(read.unwrap().expose_secret(), "file_pw");
        }
        other => panic!("expected a file, got {other:?}"),
    }
}

#[test]
fn the_user_is_asked_only_at_a_terminal() {
    assert!(matches!(PasswordSource::Interactive.resolve(true), ResolveStep::Prompt));
    match PasswordSource::Interactive.resolve(false) {
        ResolveStep::Fail(message) => assert_eq!(message, NO_PASSWORD),
        other => panic!("expected a failure, got {other:?}"),
    }
    assert!(matches!(PasswordSource::Store.resolve(false), ResolveStep::AskStore));
}

#[test]
fn kind_maps_each_variant() {
    assert_eq!(PasswordSource::Direct(secret("x")).kind(), PasswordSourceKind::Direct);
    assert_eq!(
        PasswordSource::Command("echo x".to_string()).kind(),
        PasswordSourceKind::Command
    );
    assert_eq!(PasswordSource::File("/x".to_string()).kind(), PasswordSourceKind::File);
    assert_eq!(PasswordSource::Interactive.kind(), PasswordSourceKind::Interactive);
    assert_eq!(PasswordSource::Store.kind(), PasswordSourceKind::Store);
}

#[test]
fn sources_are_chosen_in_order() {
    let password = secret("pw");
    let kind = |password: Option<&Secret>, command, file, stored| {
        build_password_source(password, command, file, stored).kind()
    };
    assert_eq!(kind(Some(&password), Some("c"), Some("f"), true), PasswordSourceKind::Direct);
    assert_eq!(kind(None, Some("c"), Some("f"), true), PasswordSourceKind::Command);
    assert_eq!(kind(None, None, Some("f"), true), PasswordSourceKind::File);
    assert_eq!(kind(None, None, None, true), PasswordSourceKind::Store);
    assert_eq!(kind(None, None, None, false), PasswordSourceKind::Interactive);
}

#[test]
fn a_secret_is_not_printed() {
    let printed = format!("{:?}", secret("hunter2"));
    assert!(!printed.contains("hunter2"), "{printed}");
    assert_eq!(secret("hunter2").expose_secret(), "hunter2");
}

#[test]
fn password_file_permission_warning_not_cached_before_violation() {
    let path = "later_permissive_pw.txt";
    let mut warnings = FileWarnings::new();
    assert_eq!(warnings.on_file(path, None), None);
    assert_eq!(warnings.on_file(path, Some(0o600)), None);
    let message = warnings.on_file(path, Some(0o644)).expect("the file became permissive");
    assert_eq!(
        message,
        "password file later_permissive_pw.txt is readable by other users (mode 0644); run `chmod 600 later_permissive_pw.txt` to restrict it"
    );
    assert_eq!(warnings.on_file(path, Some(0o644)), None, "each file is warned of once");
    assert!(warnings.on_file("another.txt", Some(0o604)).is_some());
}

#[test]
fn strip_trailing_newline_lf() {
    assert_eq!(strip_trailing_newline("password\n"), "password");
}

#[test]
fn strip_trailing_newline_crlf() {
    assert_eq!(strip_trailing_newline("password\r\n"), "password");
}

#[test]
fn strip_trailing_newline_none() {
    assert_eq!(strip_trailing_newline("password"), "password");
}

#[test]
fn strip_trailing_newline_only_one() {
    assert_eq!(strip_trailing_newline("password\n\n"), "password\n");
}

#[test]
fn decide_save_direct_saves() {
    assert_eq!(
        decide_save_password_action(PasswordSourceKind::Direct),
        SavePasswordAction::Save
    );
}

#[test]
fn decide_save_file_skips_with_bootstrap_hint() {
    match decide_save_password_action(PasswordSourceKind::File) {
        SavePasswordAction::SkipWithWarning(msg) => {
            assert!(msg.contains("--password-file"), "{msg}");
            assert!(msg.contains("kei password set"), "{msg}");
        }
        other => panic!("expected SkipWithWarning, got {other:?}"),
    }
}

#[test]
fn decide_save_command_skips_with_rotation_hint() {
    match decide_save_password_action(PasswordSourceKind::Command) {
        SavePasswordAction::SkipWithWarning(msg) => {
            assert!(msg.contains("--password-command"), "{msg}");
            assert!(msg.contains("rotating"), "{msg}");
        }
        other => panic!("expected SkipWithWarning, got {other:?}"),
    }
}

#[test]
fn decide_save_store_skips_as_redundant() {
    match decide_save_password_action(PasswordSourceKind::Store) {
        SavePasswordAction::SkipWithWarning(msg) => {
            assert!(msg.contains("already in the credential store"), "{msg}");
        }
        other => panic!("expected SkipWithWarning, got {other:?}"),
    }
}

#[test]
fn decide_save_interactive_points_at_password_set() {
    match decide_save_password_action(PasswordSourceKind::Interactive) {
        SavePasswordAction::SkipWithWarning(msg) => {
            assert!(msg.contains("kei password set"), "{msg}");
            assert!(msg.contains("interactive"), "{msg}");
        }
        other => panic!("expected SkipWithWarning, got {other:?}"),
    }
}

#[test]
fn check_mode_owner_read_only_ok() {
    let path = "/home/user/icloud_pw";
    assert!(check_password_file_mode(path, 0o600).is_none());
    assert!(check_password_file_mode(path, 0o400).is_none());
}

#[test]
fn check_mode_group_readable_warns() {
    let path = "/home/user/icloud_pw";
    let msg = check_password_file_mode(path, 0o640).unwrap();
    assert!(msg.contains("0640"), "mode should appear in message: {msg}");
    assert!(msg.contains("chmod 600"), "fix hint missing: {msg}");
}

#[test]
fn check_mode_world_readable_warns() {
    let path = "/home/user/icloud_pw";
    let msg = check_password_file_mode(path, 0o644).unwrap();
    assert!(msg.contains("0644"));
    assert!(msg.contains(path));
}

#[test]
fn check_mode_group_exec_only_warns() {
    let path = "/home/user/icloud_pw";
    assert!(check_password_file_mode(path, 0o610).is_some());
    assert!(check_password_file_mode(path, 0o601).is_some());
}

#[test]
fn check_mode_masks_setuid_setgid_sticky() {
    let path = "/home/user/icloud_pw";
    assert!(check_password_file_mode(path, 0o4644).is_some());
    assert!(check_password_file_mode(path, 0o2600).is_none());
}

#[test]
fn check_mode_docker_secrets_exempted() {
    let path = "/run/secrets/icloud_password";
    assert!(check_password_file_mode(path, 0o444).is_none());
    assert!(check_password_file_mode(path, 0o644).is_none());
}

#[test]
fn check_mode_k8s_secrets_exempted() {
    let path = "/var/run/secrets/icloud/password";
    assert!(check_password_file_mode(path, 0o644).is_none());
}

#[test]
fn check_mode_secrets_prefix_must_match_path_segment() {
    let path = "/run/secretsharing/pw";
    assert!(check_password_file_mode(path, 0o644).is_some());
}

#[test]
fn run_password_command_errors_on_non_unix() {
    let msg = check_command_support(false).unwrap_err();
    assert!(msg.contains("not supported on Windows"), "{msg}");
    assert!(msg.contains("--password-file"), "{msg}");
    assert_eq!(check_command_support(true), Ok(()));
}
