//! Where passwords come from, and what is made of what was read there.
//!
//! A source says where a password is to be had, not what it is: it is asked anew for each
//! attempt to sign in, so that a password that changes is followed and none stays in memory
//! in between.
use crate::enc::{text_from_utf8, utf8_decoded};
use crate::json::option_str_view;
use crate::secret::{secret_ref_view, Secret};
use crate::text::{
    contains_text, decimal, decimal_text, digit_char, ends_with, from_chars, occurs_at, option_view,
    starts_with, str_eq, text_views, to_chars,
};
use vstd::prelude::*;

verus! {

/// Where a password is to be had.
#[derive(Debug)]
pub enum PasswordSource {
    /// It is in memory already.
    Direct(Secret),
    /// A shell command prints it.
    Command(String),
    /// A file holds it.
    File(String),
    /// The credential store holds it.
    Store,
    /// The user is asked for it.
    Interactive,
}

/// The kind of a source, without what it holds.
#[derive(Debug, Clone, Copy, PartialEq, Eq, Structural)]
pub enum PasswordSourceKind {
    Direct,
    Command,
    File,
    Store,
    Interactive,
}

/// What becomes of a request to save the password.
#[derive(Debug, PartialEq, Eq)]
pub enum SavePasswordAction {
    /// It is written to the credential store.
    Save,
    /// It is kept elsewhere already; the user is told.
    SkipWithWarning(&'static str),
}

/// A [`PasswordSource`] with its texts taken by their characters.
pub enum SourceView {
    Direct(Seq<char>),
    Command(Seq<char>),
    File(Seq<char>),
    Store,
    Interactive,
}

impl View for PasswordSource {
    type V = SourceView;

    open spec fn view(&self) -> SourceView {
        match self {
            PasswordSource::Direct(secret) => SourceView::Direct(secret@),
            PasswordSource::Command(command) => SourceView::Command(command@),
            PasswordSource::File(path) => SourceView::File(path@),
            PasswordSource::Store => SourceView::Store,
            PasswordSource::Interactive => SourceView::Interactive,
        }
    }
}

/// The kind of a source.
pub open spec fn source_kind(source: SourceView) -> PasswordSourceKind {
    match source {
        SourceView::Direct(_) => PasswordSourceKind::Direct,
        SourceView::Command(_) => PasswordSourceKind::Command,
        SourceView::File(_) => PasswordSourceKind::File,
        SourceView::Store => PasswordSourceKind::Store,
        SourceView::Interactive => PasswordSourceKind::Interactive,
    }
}

// Saving.

/// What is said where the user is asked for the password.
pub const SKIP_INTERACTIVE: &'static str =
    "--save-password with an interactive password prompt is not supported. Use `kei password set` to save a prompted password to the credential store, then re-run without --save-password.";

/// What is said where a file holds the password.
pub const SKIP_FILE: &'static str =
    "--save-password skipped: the password is already persistent in a file (`--password-file` / `[auth] password_file`). Remove --save-password, or use `kei password set` to bootstrap the credential store from the file.";

/// What is said where a command prints the password.
pub const SKIP_COMMAND: &'static str =
    "--save-password skipped: the password comes from an external command (`--password-command` / `[auth] password_command`). Remove --save-password to avoid storing a stale copy of a rotating secret.";

/// What is said where the credential store holds the password.
pub const SKIP_STORE: &'static str =
    "--save-password skipped: the password is already in the credential store. Remove --save-password from your invocation.";

/// Decide on a request to save the password. Only one that is in memory is saved: every other
/// source keeps it, or asks for it, elsewhere.
#[must_use]
pub fn decide_save_password_action(kind: PasswordSourceKind) -> (action: SavePasswordAction)
    ensures
        action == (match kind {
            PasswordSourceKind::Direct => SavePasswordAction::Save,
            PasswordSourceKind::Interactive => SavePasswordAction::SkipWithWarning(
                SKIP_INTERACTIVE,
            ),
            PasswordSourceKind::File => SavePasswordAction::SkipWithWarning(SKIP_FILE),
            PasswordSourceKind::Command => SavePasswordAction::SkipWithWarning(SKIP_COMMAND),
            PasswordSourceKind::Store => SavePasswordAction::SkipWithWarning(SKIP_STORE),
        }),
{
    match kind {
        PasswordSourceKind::Direct => SavePasswordAction::Save,
        PasswordSourceKind::Interactive => SavePasswordAction::SkipWithWarning(SKIP_INTERACTIVE),
        PasswordSourceKind::File => SavePasswordAction::SkipWithWarning(SKIP_FILE),
        PasswordSourceKind::Command => SavePasswordAction::SkipWithWarning(SKIP_COMMAND),
        PasswordSourceKind::Store => SavePasswordAction::SkipWithWarning(SKIP_STORE),
    }
}

// Choosing a source.

/// The source that the configuration names: a password before a command, a command before a
/// file, a file before the credential store, and the user where there is nothing else.
pub open spec fn chosen_source(
    password: Option<Seq<char>>,
    command: Option<Seq<char>>,
    file: Option<Seq<char>>,
    stored: bool,
) -> SourceView {
    match (password, command, file) {
        (Some(password), _, _) => SourceView::Direct(password),
        (None, Some(command), _) => SourceView::Command(command),
        (None, None, Some(file)) => SourceView::File(file),
        (None, None, None) => if stored {
            SourceView::Store
        } else {
            SourceView::Interactive
        },
    }
}

/// Choose the source that the configuration names.
pub fn build_password_source(
    password: Option<&Secret>,
    password_command: Option<&str>,
    password_file: Option<&str>,
    store_has_credential: bool,
) -> (source: PasswordSource)
    ensures
        source@ == chosen_source(
            secret_ref_view(password),
            option_str_view(password_command),
            option_str_view(password_file),
            store_has_credential,
        ),
{
    if let Some(password) = password {
        PasswordSource::Direct(password.duplicate())
    } else if let Some(command) = password_command {
        PasswordSource::Command(command.to_owned())
    } else if let Some(file) = password_file {
        PasswordSource::File(file.to_owned())
    } else if store_has_credential {
        PasswordSource::Store
    } else {
        PasswordSource::Interactive
    }
}

/// What is said where the user cannot be asked.
pub const NO_PASSWORD: &'static str =
    "No password configured and stdin is not a terminal. Set a password with one of:\n  - ICLOUD_PASSWORD environment variable\n  - kei password set (OS keyring or encrypted file)\n  - --password-command or [auth] password_command (external secret manager)\n  - --password-file or [auth] password_file (Docker secret, etc.)";

/// How a source gives its password.
#[derive(Debug)]
pub enum ResolveStep<'a> {
    Password(Secret),
    RunCommand(&'a str),
    ReadFile(&'a str),
    AskStore,
    Prompt,
    Fail(&'static str),
}

/// A [`ResolveStep`] with its texts taken by their characters.
pub enum ResolveView {
    Password(Seq<char>),
    RunCommand(Seq<char>),
    ReadFile(Seq<char>),
    AskStore,
    Prompt,
    Fail(Seq<char>),
}

/// What stands for a step.
pub open spec fn resolve_view(step: ResolveStep<'_>) -> ResolveView {
    match step {
        ResolveStep::Password(secret) => ResolveView::Password(secret@),
        ResolveStep::RunCommand(command) => ResolveView::RunCommand(command@),
        ResolveStep::ReadFile(path) => ResolveView::ReadFile(path@),
        ResolveStep::AskStore => ResolveView::AskStore,
        ResolveStep::Prompt => ResolveView::Prompt,
        ResolveStep::Fail(message) => ResolveView::Fail(message@),
    }
}

impl PasswordSource {
    /// The kind of the source.
    pub fn kind(&self) -> (kind: PasswordSourceKind)
        ensures
            kind == source_kind(self@),
    {
        match self {
            PasswordSource::Direct(_) => PasswordSourceKind::Direct,
            PasswordSource::Command(_) => PasswordSourceKind::Command,
            PasswordSource::File(_) => PasswordSourceKind::File,
            PasswordSource::Store => PasswordSourceKind::Store,
            PasswordSource::Interactive => PasswordSourceKind::Interactive,
        }
    }

    /// How the source gives its password. The user is asked only at a terminal.
    pub fn resolve(&self, at_terminal: bool) -> (step: ResolveStep<'_>)
        ensures
            resolve_view(step) == (match self@ {
                SourceView::Direct(password) => ResolveView::Password(password),
                SourceView::Command(command) => ResolveView::RunCommand(command),
                SourceView::File(path) => ResolveView::ReadFile(path),
                SourceView::Store => ResolveView::AskStore,
                SourceView::Interactive => if at_terminal {
                    ResolveView::Prompt
                } else {
                    ResolveView::Fail(NO_PASSWORD@)
                },
            }),
    {
        match self {
            PasswordSource::Direct(secret) => ResolveStep::Password(secret.duplicate()),
            PasswordSource::Command(command) => ResolveStep::RunCommand(command.as_str()),
            PasswordSource::File(path) => ResolveStep::ReadFile(path.as_str()),
            PasswordSource::Store => ResolveStep::AskStore,
            PasswordSource::Interactive => if at_terminal {
                ResolveStep::Prompt
            } else {
                ResolveStep::Fail(NO_PASSWORD)
            },
        }
    }
}

// Reading what a source gave.

/// A text without one line break at its end.
pub open spec fn without_newline(s: Seq<char>) -> Seq<char> {
    if seq!['\r', '\n'].is_suffix_of(s) {
        s.take(s.len() - 2)
    } else if seq!['\n'].is_suffix_of(s) {
        s.take(s.len() - 1)
    } else {
        s
    }
}

/// Take one line break off the end of a text.
pub fn strip_trailing_newline(s: &str) -> (stripped: String)
    ensures
        stripped@ == without_newline(s@),
{
    proof {
        reveal_strlit("\r\n");
        reveal_strlit("\n");
        assert("\r\n"@ =~= seq!['\r', '\n']);
        assert("\n"@ =~= seq!['\n']);
    }
    let chars = to_chars(s);
    let len: usize = chars.len();
    if ends_with(s, "\r\n") {
        let stripped = from_chars(&chars, 0, len - 2);
        assert(stripped@ =~= s@.take(len - 2));
        return stripped;
    }
    if ends_with(s, "\n") {
        let stripped = from_chars(&chars, 0, len - 1);
        assert(stripped@ =~= s@.take(len - 1));
        return stripped;
    }
    s.to_owned()
}

/// The view of a password or of why there is none.
pub open spec fn read_view(read: Result<Secret, String>) -> Result<Seq<char>, Seq<char>> {
    match read {
        Ok(secret) => Ok(secret@),
        Err(message) => Err(message@),
    }
}

/// A message with something behind it.
fn told(message: &str, of: &str) -> (text: String)
    ensures
        text@ == message@ + of@,
{
    let mut text = message.to_owned();
    text.append(of);
    text
}

/// The password that a file holds: what is in it, without a line break at its end.
pub open spec fn file_read(path: Seq<char>, contents: Option<Seq<char>>) -> Result<
    Seq<char>,
    Seq<char>,
> {
    match contents {
        None => Err("Failed to read password file: "@ + path),
        Some(contents) => if without_newline(contents).len() == 0 {
            Err("Password file is empty: "@ + path)
        } else {
            Ok(without_newline(contents))
        },
    }
}

/// The password that a file holds, given what was read of it.
pub fn read_password_file(path: &str, contents: Option<&str>) -> (read: Result<Secret, String>)
    ensures
        read_view(read) == file_read(path@, option_str_view(contents)),
{
    let contents = match contents {
        Some(contents) => contents,
        None => {
            return Err(told("Failed to read password file: ", path));
        },
    };
    let password = strip_trailing_newline(contents);
    proof {
        reveal_strlit("");
        assert(password@.len() == 0 ==> password@ =~= ""@);
    }
    if str_eq(&password, "") {
        return Err(told("Password file is empty: ", path));
    }
    Ok(Secret::new(password))
}

/// What a command did.
pub enum CommandEnd {
    /// It failed, with a status in words.
    Failed(String),
    /// It succeeded and printed this.
    Printed(Vec<u8>),
}

/// The password that a command prints: its output, without a line break at its end.
pub open spec fn command_read(command: Seq<char>, end: CommandEnd) -> Result<
    Seq<char>,
    Seq<char>,
> {
    match end {
        CommandEnd::Failed(status) => Err(
            "Password command exited with status "@ + status@ + ": "@ + command,
        ),
        CommandEnd::Printed(bytes) => match utf8_decoded(bytes@) {
            None => Err("Password command output is not valid UTF-8"@),
            Some(output) => if without_newline(output).len() == 0 {
                Err("Password command produced empty output: "@ + command)
            } else {
                Ok(without_newline(output))
            },
        },
    }
}

/// The password that a command prints, given how it ended.
pub fn read_password_command(command: &str, end: CommandEnd) -> (read: Result<Secret, String>)
    ensures
        read_view(read) == command_read(command@, end),
{
    let output = match end {
        CommandEnd::Failed(status) => {
            let mut message = told("Password command exited with status ", &status);
            message.append(": ");
            message.append(command);
            return Err(message);
        },
        CommandEnd::Printed(bytes) => text_from_utf8(bytes),
    };
    let output = match output {
        Some(output) => output,
        None => {
            return Err("Password command output is not valid UTF-8".to_owned());
        },
    };
    let password = strip_trailing_newline(&output);
    proof {
        reveal_strlit("");
        assert(password@.len() == 0 ==> password@ =~= ""@);
    }
    if str_eq(&password, "") {
        return Err(told("Password command produced empty output: ", command));
    }
    Ok(Secret::new(password))
}

/// What is said of a command where there is no shell to run it.
pub const NO_SHELL: &'static str =
    "`--password-command` / `[auth] password_command` is not supported on Windows: kei runs commands via `sh -c`, which isn't on the stock Windows PATH. Use `--password-file` / `[auth] password_file`, or run kei under WSL.";

/// Whether a command can be run: only Unix is sure to have a shell.
pub fn check_command_support(unix: bool) -> (result: Result<(), &'static str>)
    ensures
        match result {
            Ok(()) => unix,
            Err(message) => !unix && message@ == NO_SHELL@,
        },
{
    if unix {
        Ok(())
    } else {
        Err(NO_SHELL)
    }
}

// Waiting for a command.

/// How many seconds a command may run.
pub const PASSWORD_COMMAND_TIMEOUT_SECS: u64 = 30;

/// The first wait between two looks at a command, in nanoseconds.
pub const FIRST_POLL: u64 = 5_000_000;

/// The longest wait between two looks at a command, in nanoseconds.
pub const POLL_CAP: u64 = 50_000_000;

/// What is said of a command that ran for too long. The time is in nanoseconds.
pub fn command_timeout_text(command: &str, timeout: u64) -> (text: String)
    ensures
        text@ == "password command timed out after "@ + decimal_text(
            (timeout / 1_000_000_000) as nat,
        ) + "s: "@ + command@,
{
    let mut text = "password command timed out after ".to_owned();
    text.append(&decimal(timeout / 1_000_000_000));
    text.append("s: ");
    text.append(command);
    text
}

/// What to do while a command runs. A wait is in nanoseconds.
#[derive(Debug, Clone, Copy, PartialEq, Eq, Structural)]
pub enum WaitStep {
    Sleep(u64),
    Kill,
}

/// The wait for a command to end.
#[derive(Debug)]
pub struct CommandWait {
    poll: u64,
}

/// The smaller of two numbers.
pub open spec fn least(a: int, b: int) -> int {
    if a <= b {
        a
    } else {
        b
    }
}

/// The wait between two looks, after `n` of them: it doubles up to the longest.
pub open spec fn poll_after(n: nat) -> int
    decreases n,
{
    if n == 0 {
        FIRST_POLL as int
    } else {
        least(2 * poll_after((n - 1) as nat), POLL_CAP as int)
    }
}

impl CommandWait {
    /// The wait between the next two looks, in nanoseconds.
    pub closed spec fn poll(&self) -> int {
        self.poll as int
    }

    #[verifier::type_invariant]
    spec fn inv(self) -> bool {
        FIRST_POLL <= self.poll <= POLL_CAP
    }

    /// Begin to wait.
    pub fn new() -> (wait: CommandWait)
        ensures
            wait.poll() == poll_after(0),
    {
        CommandWait { poll: FIRST_POLL }
    }

    /// The command has not ended: sleep, but never past the deadline, or kill it once the
    /// deadline has come. Times are in nanoseconds.
    pub fn on_running(&mut self, elapsed: u64, timeout: u64) -> (step: WaitStep)
        ensures
            step == (if elapsed >= timeout {
                WaitStep::Kill
            } else {
                WaitStep::Sleep(least(old(self).poll(), timeout - elapsed) as u64)
            }),
            final(self).poll() == (if elapsed >= timeout {
                old(self).poll()
            } else {
                least(2 * old(self).poll(), POLL_CAP as int)
            }),
            step matches WaitStep::Sleep(time) ==> 0 < time && elapsed + time <= timeout,
    {
        proof {
            use_type_invariant(&*self);
        }
        if elapsed >= timeout {
            return WaitStep::Kill;
        }
        let remaining: u64 = timeout - elapsed;
        let time: u64 = if self.poll <= remaining {
            self.poll
        } else {
            remaining
        };
        let doubled: u64 = self.poll * 2;
        self.poll = if doubled <= POLL_CAP {
            doubled
        } else {
            POLL_CAP
        };
        WaitStep::Sleep(time)
    }
}

/// The wait between two looks at a command never shrinks, and never exceeds its cap.
pub proof fn law_polls_grow_to_the_cap(n: nat)
    ensures
        FIRST_POLL <= poll_after(n) <= poll_after(n + 1) <= POLL_CAP,
    decreases n,
{
    if n > 0 {
        law_polls_grow_to_the_cap((n - 1) as nat);
    }
    assert(poll_after(n + 1) == least(2 * poll_after(n), POLL_CAP as int));
}

// Permissions of a password file.

/// The access that everybody but a file's owner has, of its mode.
pub open spec fn others_access(mode: u32) -> int {
    (mode % 64) as int
}

/// Whether a path lies where containers mount secrets. Those files can be read by everybody,
/// for the mount keeps others away.
pub open spec fn is_mounted_secret(path: Seq<char>) -> bool {
    "/run/secrets/"@.is_prefix_of(path) || "/var/run/secrets/"@.is_prefix_of(path)
}

/// The permissions of a mode, in four octal digits.
pub open spec fn mode_text(mode: u32) -> Seq<char> {
    let low = mode % 512;
    seq![
        '0',
        digit_char((low / 64) as nat),
        digit_char((low / 8 % 8) as nat),
        digit_char((low % 8) as nat),
    ]
}

/// What is said of a password file that others can get at.
pub open spec fn mode_warning(path: Seq<char>, mode: u32) -> Option<Seq<char>> {
    if is_mounted_secret(path) || others_access(mode) == 0 {
        None
    } else {
        Some(
            "password file "@ + path + " is readable by other users (mode "@ + mode_text(mode)
                + "); run `chmod 600 "@ + path + "` to restrict it"@,
        )
    }
}

/// The octal digit of a number below eight.
fn octal_digit(d: u32) -> (c: char)
    requires
        d < 8,
    ensures
        c == digit_char(d as nat),
{
    match d {
        0 => '0',
        1 => '1',
        2 => '2',
        3 => '3',
        4 => '4',
        5 => '5',
        6 => '6',
        _ => '7',
    }
}

/// What is said of a password file that others can get at, given its mode.
pub fn check_password_file_mode(path: &str, mode: u32) -> (warning: Option<String>)
    ensures
        option_view(warning) == mode_warning(path@, mode),
{
    if starts_with(path, "/run/secrets/") || starts_with(path, "/var/run/secrets/") {
        return None;
    }
    assert(mode & 0o777 == mode % 512) by (bit_vector);
    let low: u32 = mode & 0o777;
    assert(low & 0o077 == low % 64) by (bit_vector);
    assert(low % 64 == mode % 64) by (bit_vector)
        requires
            low == mode % 512,
    ;
    if low & 0o077 == 0 {
        return None;
    }
    let mut text = "password file ".to_owned();
    text.append(path);
    text.append(" is readable by other users (mode ");
    let mut digits = String::new();
    digits.push('0');
    digits.push(octal_digit(low / 64));
    digits.push(octal_digit(low / 8 % 8));
    digits.push(octal_digit(low % 8));
    assert(digits@ =~= mode_text(mode));
    text.append(&digits);
    text.append("); run `chmod 600 ");
    text.append(path);
    text.append("` to restrict it");
    Some(text)
}

/// The password files that the user was warned of.
#[derive(Debug)]
pub struct FileWarnings {
    warned: Vec<String>,
}

impl View for FileWarnings {
    type V = Seq<Seq<char>>;

    closed spec fn view(&self) -> Seq<Seq<char>> {
        text_views(self.warned@)
    }
}

/// What is said of a file, given what was said before. Each file is warned of once; one whose
/// mode cannot be read, or that others cannot get at, is not remembered.
pub open spec fn warning_of(
    warned: Seq<Seq<char>>,
    path: Seq<char>,
    mode: Option<u32>,
) -> Option<Seq<char>> {
    match mode {
        Some(mode) => if warned.contains(path) {
            None
        } else {
            mode_warning(path, mode)
        },
        None => None,
    }
}

impl FileWarnings {
    /// No file was warned of.
    pub fn new() -> (warnings: FileWarnings)
        ensures
            warnings@.len() == 0,
    {
        FileWarnings { warned: Vec::new() }
    }

    /// What is said of a file, given its mode where it could be read.
    pub fn on_file(&mut self, path: &str, mode: Option<u32>) -> (warning: Option<String>)
        ensures
            option_view(warning) == warning_of(old(self)@, path@, mode),
            final(self)@ == (if warning is Some {
                old(self)@.push(path@)
            } else {
                old(self)@
            }),
    {
        let mode = match mode {
            Some(mode) => mode,
            None => {
                return None;
            },
        };
        let warning = match check_password_file_mode(path, mode) {
            Some(warning) => warning,
            None => {
                return None;
            },
        };
        let ghost views = text_views(self.warned@);
        let mut i: usize = 0;
        while i < self.warned.len()
            invariant
                i <= self.warned@.len(),
                views == text_views(self.warned@),
                self@ == views,
                old(self)@ == views,
                forall|j: int| 0 <= j < i ==> (#[trigger] views[j]) != path@,
                mode_warning(path@, mode) is Some,
            decreases self.warned@.len() - i,
        {
            if str_eq(&self.warned[i], path) {
                assert(views[i as int] == path@);
                return None;
            }
            i = i + 1;
        }
        assert(!views.contains(path@));
        self.warned.push(path.to_owned());
        assert(text_views(self.warned@) =~= views.push(path@));
        Some(warning)
    }
}

/// A file that was warned of is not warned of again, whatever its mode becomes.
pub proof fn law_files_are_warned_of_once(
    warned: Seq<Seq<char>>,
    path: Seq<char>,
    mode: Option<u32>,
)
    requires
        warned.contains(path),
    ensures
        warning_of(warned, path, mode) is None,
{
}

/// Who may do what to a file beyond its permissions changes nothing: the bits in front of the
/// last nine are not looked at.
pub proof fn law_special_bits_do_not_matter(path: Seq<char>, mode: u32, special: u32)
    requires
        mode < 512,
        special < 8,
    ensures
        mode_warning(path, (special * 512 + mode) as u32) == mode_warning(path, mode),
{
    assert((special * 512 + mode) % 512 == mode);
    assert((special * 512 + mode) % 64 == mode % 64);
}

/// A password that is given is used before a command, a command before a file, a file before
/// the credential store, and the user is asked where there is none of them.
pub proof fn law_sources_are_tried_in_order(
    password: Seq<char>,
    command: Seq<char>,
    file: Seq<char>,
    any_command: Option<Seq<char>>,
    any_file: Option<Seq<char>>,
    stored: bool,
)
    ensures
        chosen_source(Some(password), any_command, any_file, stored) == SourceView::Direct(password),
        chosen_source(None, Some(command), any_file, stored) == SourceView::Command(command),
        chosen_source(None, None, Some(file), stored) == SourceView::File(file),
        chosen_source(None, None, None, true) == SourceView::Store,
        chosen_source(None, None, None, false) == SourceView::Interactive,
{
}

/// A source's kind is that of what it holds.
pub proof fn law_a_sources_kind_is_its_own(text: Seq<char>)
    ensures
        source_kind(SourceView::Direct(text)) == PasswordSourceKind::Direct,
        source_kind(SourceView::Command(text)) == PasswordSourceKind::Command,
        source_kind(SourceView::File(text)) == PasswordSourceKind::File,
        source_kind(SourceView::Store) == PasswordSourceKind::Store,
        source_kind(SourceView::Interactive) == PasswordSourceKind::Interactive,
{
}

/// One line break is taken off the end, whichever way it is written, and nothing else: white
/// space and further line breaks belong to the password.
pub proof fn law_one_line_break_is_taken_off(s: Seq<char>)
    ensures
        without_newline(s + seq!['\r', '\n']) == s,
        s.len() == 0 || s.last() != '\r' ==> without_newline(s + seq!['\n']) == s,
        s.len() == 0 || s.last() != '\n' ==> without_newline(s) == s,
{
    let windows = s + seq!['\r', '\n'];
    let n = windows.len() as int;
    assert(windows.subrange(n - 2, n) =~= seq!['\r', '\n']);
    assert(windows.take(n - 2) =~= s);
    let unix = s + seq!['\n'];
    let m = unix.len() as int;
    assert(unix.subrange(m - 1, m) =~= seq!['\n']);
    assert(unix.take(m - 1) =~= s);
    if seq!['\r', '\n'].is_suffix_of(unix) {
        assert(unix.subrange(m - 2, m)[0] == '\r');
        assert(unix[m - 2] == '\r');
        assert(s[s.len() - 1] == '\r');
    }
    if s.len() == 0 || s.last() != '\n' {
        let k = s.len() as int;
        if seq!['\r', '\n'].is_suffix_of(s) {
            assert(s.subrange(k - 2, k)[1] == '\n');
        }
        if seq!['\n'].is_suffix_of(s) {
            assert(s.subrange(k - 1, k)[0] == '\n');
        }
    }
}

/// A file gives the password that it holds; one that cannot be read, or that holds nothing but
/// a line break, gives none, and what is said of it names it.
pub proof fn law_a_file_gives_what_it_holds(path: Seq<char>, contents: Seq<char>)
    ensures
        file_read(path, None) is Err,
        path.is_suffix_of(file_read(path, None)->Err_0),
        file_read(path, Some(contents)) is Ok <==> without_newline(contents).len() > 0,
        file_read(path, Some(contents)) is Ok ==> file_read(path, Some(contents))->Ok_0
            == without_newline(contents),
        file_read(path, Some(contents)) is Err ==> path.is_suffix_of(
            file_read(path, Some(contents))->Err_0,
        ),
{
    let failed = "Failed to read password file: "@ + path;
    assert(failed.subrange(failed.len() - path.len(), failed.len() as int) =~= path);
    let empty = "Password file is empty: "@ + path;
    assert(empty.subrange(empty.len() - path.len(), empty.len() as int) =~= path);
}

/// A command gives the password that it prints, where it succeeds and prints text; a failure,
/// bytes that are no text and nothing but a line break give none.
pub proof fn law_a_command_gives_what_it_prints(
    command: Seq<char>,
    status: String,
    printed: Vec<u8>,
)
    ensures
        command_read(command, CommandEnd::Failed(status)) is Err,
        command_read(command, CommandEnd::Printed(printed)) is Ok <==> vstd::utf8::valid_utf8(
            printed@,
        ) && without_newline(vstd::utf8::decode_utf8(printed@)).len() > 0,
        command_read(command, CommandEnd::Printed(printed)) is Ok ==> command_read(
            command,
            CommandEnd::Printed(printed),
        )->Ok_0 == without_newline(vstd::utf8::decode_utf8(printed@)),
{
}

/// The waits between two looks double from five milliseconds on, up to fifty.
pub proof fn law_waits_double_up_to_the_cap(n: nat)
    ensures
        poll_after(0) == 5_000_000,
        poll_after(n) <= 25_000_000 ==> poll_after(n + 1) == 2 * poll_after(n),
        poll_after(n) > 25_000_000 ==> poll_after(n + 1) == 50_000_000,
{
    law_polls_grow_to_the_cap(n);
    assert(poll_after(n + 1) == least(2 * poll_after(n), POLL_CAP as int));
}

/// A password file is warned of exactly where its mode lets others do anything to it, unless it
/// lies where containers mount secrets. What is said names the file.
pub proof fn law_open_password_files_are_warned_of(path: Seq<char>, mode: u32)
    ensures
        mode_warning(path, mode) is Some <==> mode % 64 != 0 && !"/run/secrets/"@.is_prefix_of(path)
            && !"/var/run/secrets/"@.is_prefix_of(path),
        mode_warning(path, mode) is Some ==> contains_text(mode_warning(path, mode)->0, path)
            && contains_text(mode_warning(path, mode)->0, mode_text(mode)),
{
    if mode_warning(path, mode) is Some {
        let text = mode_warning(path, mode)->0;
        let at = "password file "@.len() as int;
        assert(text.subrange(at, at + path.len()) =~= path);
        assert(occurs_at(text, path, at));
        let mode_at = at + path.len() + " is readable by other users (mode "@.len();
        assert(text.subrange(mode_at, mode_at + 4) =~= mode_text(mode));
        assert(occurs_at(text, mode_text(mode), mode_at));
    }
}

/// A mode is written by its permissions in octal: a zero, and a digit each for the owner, the
/// group and the others, which together are the last nine bits.
pub proof fn law_modes_are_written_in_octal(mode: u32)
    ensures
        ({
            let text = mode_text(mode);
            &&& text.len() == 4
            &&& text[0] == '0'
            &&& forall|i: int| 0 <= i < 4 ==> '0' <= #[trigger] text[i] <= '7'
            &&& (text[1] as int - '0' as int) * 64 + (text[2] as int - '0' as int) * 8 + (
            text[3] as int - '0' as int) == mode as int % 512
        }),
{
    let low = mode % 512;
    assert(low / 64 < 8);
    assert(low / 8 % 8 < 8);
    assert(low % 8 < 8);
    assert(low == (low / 64) * 64 + (low / 8 % 8) * 8 + low % 8);
}

/// A file that was not warned of is warned of where its mode is known and calls for it.
pub proof fn law_unwarned_files_are_judged_by_their_mode(
    warned: Seq<Seq<char>>,
    path: Seq<char>,
    mode: u32,
)
    requires
        !warned.contains(path),
    ensures
        warning_of(warned, path, Some(mode)) == mode_warning(path, mode),
        warning_of(warned, path, None) is None,
{
}

} // verus!
