//! From the command line to the command that runs: which configuration is read, how much is
//! logged, and what is done then.
//!
//! [`Startup`] decides; whoever drives it does what each [`Action`] says and hands back the
//! [`Event`] that came of it.
use crate::text::{option_view, str_eq};
use vstd::prelude::*;

verus! {

/// Where the configuration is looked for where nothing else is said.
pub const DEFAULT_CONFIG: &'static str = "~/.config/kei/config.toml";

/// Where the configuration is in a container.
pub const DOCKER_FALLBACK_CONFIG: &'static str = "/config/config.toml";

/// How much is logged.
#[derive(Debug, Clone, Copy, PartialEq, Eq, Structural)]
pub enum LogLevel {
    Debug,
    Info,
    Warn,
    Error,
}

/// A command.
#[derive(Debug)]
pub enum Command {
    Sync { no_progress_bar: bool, only_print_filenames: bool, retry_failed: bool },
    Status,
    ResetState,
    ResetSyncToken,
    Verify,
    Reconcile,
    ImportExisting,
    Login,
    Password,
    List,
    ConfigShow,
    /// The setup wizard writes to the output, or to the configuration where none is named.
    ConfigSetup { output: Option<String> },
    Install,
    Uninstall,
    ServiceStatus,
    ServiceRun,
}

/// A [`Command`] with its texts taken by their characters.
pub enum CommandView {
    Sync { no_progress_bar: bool, only_print_filenames: bool, retry_failed: bool },
    Status,
    ResetState,
    ResetSyncToken,
    Verify,
    Reconcile,
    ImportExisting,
    Login,
    Password,
    List,
    ConfigShow,
    ConfigSetup { output: Option<Seq<char>> },
    Install,
    Uninstall,
    ServiceStatus,
    ServiceRun,
}

impl View for Command {
    type V = CommandView;

    open spec fn view(&self) -> CommandView {
        match self {
            Command::Sync { no_progress_bar, only_print_filenames, retry_failed } =>
                CommandView::Sync {
                    no_progress_bar: *no_progress_bar,
                    only_print_filenames: *only_print_filenames,
                    retry_failed: *retry_failed,
                },
            Command::ConfigSetup { output } => CommandView::ConfigSetup {
                output: option_view(*output),
            },
            Command::Status => CommandView::Status,
            Command::ResetState => CommandView::ResetState,
            Command::ResetSyncToken => CommandView::ResetSyncToken,
            Command::Verify => CommandView::Verify,
            Command::Reconcile => CommandView::Reconcile,
            Command::ImportExisting => CommandView::ImportExisting,
            Command::Login => CommandView::Login,
            Command::Password => CommandView::Password,
            Command::List => CommandView::List,
            Command::ConfigShow => CommandView::ConfigShow,
            Command::Install => CommandView::Install,
            Command::Uninstall => CommandView::Uninstall,
            Command::ServiceStatus => CommandView::ServiceStatus,
            Command::ServiceRun => CommandView::ServiceRun,
        }
    }
}

// The configuration.

/// Whether a configuration was asked for by name.
pub open spec fn is_explicit(config: Seq<char>) -> bool {
    config != DEFAULT_CONFIG@ && config != DOCKER_FALLBACK_CONFIG@
}

/// Whether a configuration was asked for by name.
pub fn is_config_explicit(config: &str) -> (yes: bool)
    ensures
        yes == is_explicit(config@),
{
    !str_eq(config, DEFAULT_CONFIG) && !str_eq(config, DOCKER_FALLBACK_CONFIG)
}

/// Whether the container's configuration is read: none was asked for by name, the usual one
/// does not exist, and the container's does.
pub open spec fn falls_back(config: Seq<char>, exists: bool, docker_exists: bool) -> bool {
    !is_explicit(config) && !exists && docker_exists
}

/// Whether a configuration has to exist. One that was asked for by name has to, unless it can
/// be created where it was named.
pub open spec fn must_exist(config: Seq<char>, exists: bool, parent_is_dir: bool) -> bool {
    is_explicit(config) && !(!exists && parent_is_dir)
}

// Logging.

/// The level that was asked for on the command line: a level before `--verbose`.
pub open spec fn requested_level(log_level: Option<LogLevel>, verbose: bool) -> Option<LogLevel> {
    match log_level {
        Some(_) => log_level,
        None => if verbose {
            Some(LogLevel::Info)
        } else {
            None
        },
    }
}

/// The level that is logged at: what the command line asks for before what the configuration
/// does.
pub open spec fn level_of(requested: Option<LogLevel>, configured: Option<LogLevel>) -> LogLevel {
    match (requested, configured) {
        (Some(level), _) => level,
        (None, Some(level)) => level,
        (None, None) => LogLevel::Info,
    }
}

/// The filter of a level. Other crates stay quieter than kei.
pub open spec fn filter_of(level: LogLevel) -> Seq<char> {
    match level {
        LogLevel::Debug => "kei=debug,info"@,
        LogLevel::Info => "kei=info"@,
        LogLevel::Warn => "warn"@,
        LogLevel::Error => "error"@,
    }
}

/// The level that was asked for on the command line.
pub fn requested_log_level(log_level: Option<LogLevel>, verbose: bool) -> (level: Option<LogLevel>)
    ensures
        level == requested_level(log_level, verbose),
{
    match log_level {
        Some(level) => Some(level),
        None => if verbose {
            Some(LogLevel::Info)
        } else {
            None
        },
    }
}

/// The level that is logged at.
pub fn effective_log_level(requested: Option<LogLevel>, configured: Option<LogLevel>) -> (level:
    LogLevel)
    ensures
        level == level_of(requested, configured),
{
    match requested {
        Some(level) => level,
        None => match configured {
            Some(level) => level,
            None => LogLevel::Info,
        },
    }
}

/// The filter of a level.
pub fn log_filter(level: LogLevel) -> (filter: &'static str)
    ensures
        filter@ == filter_of(level),
{
    match level {
        LogLevel::Debug => "kei=debug,info",
        LogLevel::Info => "kei=info",
        LogLevel::Warn => "warn",
        LogLevel::Error => "error",
    }
}

/// What the configuration says about logging and output.
#[derive(Debug, Clone, Copy, PartialEq, Eq, Structural)]
pub struct ConfigFacts {
    pub log_level: Option<LogLevel>,
    /// Whether a report in JSON is asked for.
    pub report_json: bool,
    pub friendly: Option<bool>,
}

/// What the log and the output are set up by.
#[derive(Debug, Clone, Copy)]
pub struct LoggingPlan {
    pub filter: &'static str,
    pub no_progress_bar: bool,
    pub only_print_filenames: bool,
    pub report_json: bool,
    /// Whether a level was asked for on the command line.
    pub level_is_explicit: bool,
    pub service_run: bool,
    pub friendly_on_command_line: Option<bool>,
    pub friendly_in_config: Option<bool>,
    /// What the user asks for, the command line before the configuration.
    pub friendly: Option<bool>,
    /// Whether the container's configuration was read.
    pub used_docker_fallback: bool,
}

/// A [`LoggingPlan`] with its filter taken by its characters.
#[verifier::ext_equal]
pub struct LoggingView {
    pub filter: Seq<char>,
    pub no_progress_bar: bool,
    pub only_print_filenames: bool,
    pub report_json: bool,
    pub level_is_explicit: bool,
    pub service_run: bool,
    pub friendly_on_command_line: Option<bool>,
    pub friendly_in_config: Option<bool>,
    pub friendly: Option<bool>,
    pub used_docker_fallback: bool,
}

impl View for LoggingPlan {
    type V = LoggingView;

    open spec fn view(&self) -> LoggingView {
        LoggingView {
            filter: self.filter@,
            no_progress_bar: self.no_progress_bar,
            only_print_filenames: self.only_print_filenames,
            report_json: self.report_json,
            level_is_explicit: self.level_is_explicit,
            service_run: self.service_run,
            friendly_on_command_line: self.friendly_on_command_line,
            friendly_in_config: self.friendly_in_config,
            friendly: self.friendly,
            used_docker_fallback: self.used_docker_fallback,
        }
    }
}

/// What the log and the output are set up by. Only a sync and the service look at the
/// configuration's report; every other command prints for itself.
pub open spec fn logging_of(
    command: CommandView,
    log_level: Option<LogLevel>,
    verbose: bool,
    friendly: Option<bool>,
    facts: ConfigFacts,
    used_docker_fallback: bool,
) -> LoggingView {
    let requested = requested_level(log_level, verbose);
    let (no_progress_bar, only_print_filenames, report_json, service_run) = match command {
        CommandView::Sync { no_progress_bar, only_print_filenames, .. } => (
            no_progress_bar,
            only_print_filenames,
            facts.report_json,
            false,
        ),
        CommandView::ServiceStatus | CommandView::ServiceRun => (
            false,
            false,
            facts.report_json,
            true,
        ),
        _ => (false, false, false, false),
    };
    LoggingView {
        filter: filter_of(level_of(requested, facts.log_level)),
        no_progress_bar,
        only_print_filenames,
        report_json,
        level_is_explicit: requested is Some,
        service_run,
        friendly_on_command_line: friendly,
        friendly_in_config: facts.friendly,
        friendly: if friendly is Some {
            friendly
        } else {
            facts.friendly
        },
        used_docker_fallback,
    }
}

// The steps.

/// What is waited for.
#[derive(Debug, Clone, Copy, PartialEq, Eq, Structural)]
pub enum Phase {
    Validate,
    Migrate,
    Locate,
    Check,
    Load,
    Log,
    SetUp,
    Reload,
    Done,
}

/// What came of an action.
#[derive(Debug)]
pub enum Event {
    /// The command line was looked through for flags that the command does not take.
    Validated(Result<(), String>),
    /// The old paths were copied.
    Migrated(Result<(), String>),
    /// The usual configuration was looked for, and the container's.
    Located { expanded: String, exists: bool, docker_exists: bool },
    /// The chosen configuration was looked for, and its directory.
    Checked { exists: bool, parent_is_dir: bool },
    /// The configuration was read.
    Loaded(Result<ConfigFacts, String>),
    LoggingStarted,
    /// The wizard ended; where to sync from, if the user wants to.
    SetupEnded(Option<String>),
}

/// What to do next.
#[derive(Debug)]
pub enum Action {
    Validate,
    MigrateLegacyPaths,
    Locate,
    Check(String),
    Load { path: String, required: bool },
    StartLogging(LoggingPlan),
    /// Run the command, whatever it is, and end.
    RunCommand,
    RunSetup(String),
    RunSync { one_shot: bool, service_mode: bool },
    Finish,
    Fail(String),
}

/// An [`Action`] with its texts taken by their characters.
pub enum ActionView {
    Validate,
    MigrateLegacyPaths,
    Locate,
    Check(Seq<char>),
    Load { path: Seq<char>, required: bool },
    StartLogging(LoggingView),
    RunCommand,
    RunSetup(Seq<char>),
    RunSync { one_shot: bool, service_mode: bool },
    Finish,
    Fail(Seq<char>),
}

impl View for Action {
    type V = ActionView;

    open spec fn view(&self) -> ActionView {
        match self {
            Action::Validate => ActionView::Validate,
            Action::MigrateLegacyPaths => ActionView::MigrateLegacyPaths,
            Action::Locate => ActionView::Locate,
            Action::Check(path) => ActionView::Check(path@),
            Action::Load { path, required } => ActionView::Load {
                path: path@,
                required: *required,
            },
            Action::StartLogging(plan) => ActionView::StartLogging(plan@),
            Action::RunCommand => ActionView::RunCommand,
            Action::RunSetup(path) => ActionView::RunSetup(path@),
            Action::RunSync { one_shot, service_mode } => ActionView::RunSync {
                one_shot: *one_shot,
                service_mode: *service_mode,
            },
            Action::Finish => ActionView::Finish,
            Action::Fail(message) => ActionView::Fail(message@),
        }
    }
}

/// A start that is under way.
#[derive(Debug)]
pub struct Startup {
    phase: Phase,
    config: String,
    log_level: Option<LogLevel>,
    verbose: bool,
    friendly: Option<bool>,
    command: Command,
    path: String,
    used_docker_fallback: bool,
}

/// A [`Startup`] with its texts taken by their characters.
#[verifier::ext_equal]
pub struct StartupView {
    pub phase: Phase,
    pub config: Seq<char>,
    pub log_level: Option<LogLevel>,
    pub verbose: bool,
    pub friendly: Option<bool>,
    pub command: CommandView,
    /// The configuration that was chosen.
    pub path: Seq<char>,
    pub used_docker_fallback: bool,
}

impl View for Startup {
    type V = StartupView;

    closed spec fn view(&self) -> StartupView {
        StartupView {
            phase: self.phase,
            config: self.config@,
            log_level: self.log_level,
            verbose: self.verbose,
            friendly: self.friendly,
            command: self.command@,
            path: self.path@,
            used_docker_fallback: self.used_docker_fallback,
        }
    }
}

/// Whether an event is the one that is waited for.
pub open spec fn awaited(phase: Phase, event: Event) -> bool {
    match event {
        Event::Validated(_) => phase == Phase::Validate,
        Event::Migrated(_) => phase == Phase::Migrate,
        Event::Located { .. } => phase == Phase::Locate,
        Event::Checked { .. } => phase == Phase::Check,
        Event::Loaded(_) => phase == Phase::Load || phase == Phase::Reload,
        Event::LoggingStarted => phase == Phase::Log,
        Event::SetupEnded(_) => phase == Phase::SetUp,
    }
}

/// The start in another phase.
pub open spec fn in_phase(start: StartupView, phase: Phase) -> StartupView {
    StartupView { phase, ..start }
}

/// What is done with the command once the log is set up. A sync runs once where it only
/// retries what failed; the service never ends by itself.
pub open spec fn dispatched(start: StartupView) -> (StartupView, ActionView) {
    match start.command {
        CommandView::Sync { retry_failed, .. } => (
            in_phase(start, Phase::Done),
            ActionView::RunSync { one_shot: retry_failed, service_mode: false },
        ),
        CommandView::ServiceRun => (
            in_phase(start, Phase::Done),
            ActionView::RunSync { one_shot: false, service_mode: true },
        ),
        CommandView::ConfigSetup { output } => (
            in_phase(start, Phase::SetUp),
            ActionView::RunSetup(
                match output {
                    Some(output) => output,
                    None => start.path,
                },
            ),
        ),
        _ => (in_phase(start, Phase::Done), ActionView::RunCommand),
    }
}

/// What an event leads to. A command line that is refused, a copy that failed or a
/// configuration that cannot be read ends the start with that error.
pub open spec fn next_step(start: StartupView, event: Event) -> (StartupView, ActionView) {
    match event {
        Event::Validated(Err(message)) => (
            in_phase(start, Phase::Done),
            ActionView::Fail(message@),
        ),
        Event::Validated(Ok(())) => (
            in_phase(start, Phase::Migrate),
            ActionView::MigrateLegacyPaths,
        ),
        Event::Migrated(Err(message)) => (in_phase(start, Phase::Done), ActionView::Fail(message@)),
        Event::Migrated(Ok(())) => (in_phase(start, Phase::Locate), ActionView::Locate),
        Event::Located { expanded, exists, docker_exists } => {
            let fallback = falls_back(start.config, exists, docker_exists);
            let path = if fallback {
                DOCKER_FALLBACK_CONFIG@
            } else {
                expanded@
            };
            (
                StartupView {
                    phase: Phase::Check,
                    path,
                    used_docker_fallback: fallback,
                    ..start
                },
                ActionView::Check(path),
            )
        },
        Event::Checked { exists, parent_is_dir } => (
            in_phase(start, Phase::Load),
            ActionView::Load {
                path: start.path,
                required: must_exist(start.config, exists, parent_is_dir),
            },
        ),
        Event::Loaded(Err(message)) => (in_phase(start, Phase::Done), ActionView::Fail(message@)),
        Event::Loaded(Ok(facts)) => if start.phase == Phase::Reload {
            (
                in_phase(start, Phase::Done),
                ActionView::RunSync { one_shot: true, service_mode: false },
            )
        } else {
            (
                in_phase(start, Phase::Log),
                ActionView::StartLogging(
                    logging_of(
                        start.command,
                        start.log_level,
                        start.verbose,
                        start.friendly,
                        facts,
                        start.used_docker_fallback,
                    ),
                ),
            )
        },
        Event::LoggingStarted => dispatched(start),
        Event::SetupEnded(None) => (in_phase(start, Phase::Done), ActionView::Finish),
        Event::SetupEnded(Some(path)) => (
            in_phase(start, Phase::Reload),
            ActionView::Load { path: path@, required: true },
        ),
    }
}

impl Startup {
    /// Begin with what the command line says.
    pub fn new(
        config: String,
        log_level: Option<LogLevel>,
        verbose: bool,
        friendly: Option<bool>,
        command: Command,
    ) -> (start: (Startup, Action))
        ensures
            start.0@ == (StartupView {
                phase: Phase::Validate,
                config: config@,
                log_level,
                verbose,
                friendly,
                command: command@,
                path: Seq::empty(),
                used_docker_fallback: false,
            }),
            start.1@ == ActionView::Validate,
    {
        (
            Startup {
                phase: Phase::Validate,
                config,
                log_level,
                verbose,
                friendly,
                command,
                path: String::new(),
                used_docker_fallback: false,
            },
            Action::Validate,
        )
    }

    /// What is waited for.
    pub fn phase(&self) -> (phase: Phase)
        ensures
            phase == self@.phase,
    {
        self.phase
    }

    /// The command that was asked for.
    pub fn command(&self) -> (command: &Command)
        ensures
            command@ == self@.command,
    {
        &self.command
    }

    /// The configuration that was chosen.
    pub fn config_path(&self) -> (path: &str)
        ensures
            path@ == self@.path,
    {
        &self.path
    }

    /// Whether the configuration was asked for by name.
    pub fn config_explicitly_set(&self) -> (yes: bool)
        ensures
            yes == is_explicit(self@.config),
    {
        is_config_explicit(&self.config)
    }

    /// What the log and the output are set up by.
    fn logging(&self, facts: ConfigFacts) -> (plan: LoggingPlan)
        ensures
            plan@ == logging_of(
                self@.command,
                self@.log_level,
                self@.verbose,
                self@.friendly,
                facts,
                self@.used_docker_fallback,
            ),
    {
        let requested = requested_log_level(self.log_level, self.verbose);
        let (no_progress_bar, only_print_filenames, report_json, service_run) =
            match &self.command {
            Command::Sync { no_progress_bar, only_print_filenames, .. } => (
                *no_progress_bar,
                *only_print_filenames,
                facts.report_json,
                false,
            ),
            Command::ServiceStatus => (false, false, facts.report_json, true),
            Command::ServiceRun => (false, false, facts.report_json, true),
            _ => (false, false, false, false),
        };
        LoggingPlan {
            filter: log_filter(effective_log_level(requested, facts.log_level)),
            no_progress_bar,
            only_print_filenames,
            report_json,
            level_is_explicit: requested.is_some(),
            service_run,
            friendly_on_command_line: self.friendly,
            friendly_in_config: facts.friendly,
            friendly: if self.friendly.is_some() {
                self.friendly
            } else {
                facts.friendly
            },
            used_docker_fallback: self.used_docker_fallback,
        }
    }

    /// What is done with the command once the log is set up.
    fn dispatch(&mut self) -> (action: Action)
        ensures
            (final(self)@, action@) == dispatched(old(self)@),
    {
        match &self.command {
            Command::Sync { retry_failed, .. } => {
                let one_shot = *retry_failed;
                self.phase = Phase::Done;
                Action::RunSync { one_shot, service_mode: false }
            },
            Command::ServiceRun => {
                self.phase = Phase::Done;
                Action::RunSync { one_shot: false, service_mode: true }
            },
            Command::ConfigSetup { output } => {
                let path = match output {
                    Some(output) => output.clone(),
                    None => self.path.clone(),
                };
                self.phase = Phase::SetUp;
                Action::RunSetup(path)
            },
            _ => {
                self.phase = Phase::Done;
                Action::RunCommand
            },
        }
    }

    /// Go on after an event.
    pub fn on_event(&mut self, event: Event) -> (action: Action)
        requires
            awaited(old(self)@.phase, event),
        ensures
            (final(self)@, action@) == next_step(old(self)@, event),
    {
        match event {
            Event::Validated(Ok(())) => {
                self.phase = Phase::Migrate;
                Action::MigrateLegacyPaths
            },
            Event::Migrated(Ok(())) => {
                self.phase = Phase::Locate;
                Action::Locate
            },
            Event::Located { expanded, exists, docker_exists } => {
                let fallback = !is_config_explicit(&self.config) && !exists && docker_exists;
                self.path = if fallback {
                    DOCKER_FALLBACK_CONFIG.to_owned()
                } else {
                    expanded
                };
                self.used_docker_fallback = fallback;
                self.phase = Phase::Check;
                Action::Check(self.path.clone())
            },
            Event::Checked { exists, parent_is_dir } => {
                self.phase = Phase::Load;
                let can_create = !exists && parent_is_dir;
                Action::Load {
                    path: self.path.clone(),
                    required: is_config_explicit(&self.config) && !can_create,
                }
            },
            Event::Loaded(Ok(facts)) => {
                if self.phase == Phase::Reload {
                    self.phase = Phase::Done;
                    Action::RunSync { one_shot: true, service_mode: false }
                } else {
                    let plan = self.logging(facts);
                    self.phase = Phase::Log;
                    Action::StartLogging(plan)
                }
            },
            Event::LoggingStarted => self.dispatch(),
            Event::SetupEnded(None) => {
                self.phase = Phase::Done;
                Action::Finish
            },
            Event::SetupEnded(Some(path)) => {
                self.phase = Phase::Reload;
                Action::Load { path, required: true }
            },
            Event::Validated(Err(message)) => {
                self.phase = Phase::Done;
                Action::Fail(message)
            },
            Event::Migrated(Err(message)) => {
                self.phase = Phase::Done;
                Action::Fail(message)
            },
            Event::Loaded(Err(message)) => {
                self.phase = Phase::Done;
                Action::Fail(message)
            },
        }
    }
}

// The database.

/// The file name of the database of a user, or why there is none. An empty user name would
/// name a database that belongs to nobody.
pub open spec fn database_name(username: Seq<char>, file_stem: Seq<char>) -> Result<
    Seq<char>,
    Seq<char>,
> {
    if username.len() == 0 {
        Err("username is required (set ICLOUD_USERNAME or [auth].username)"@)
    } else {
        Ok(file_stem + ".db"@)
    }
}

/// The file name of the database of a user, given the user's name as it stands in file names.
pub fn db_file_name(username: &str, file_stem: &str) -> (name: Result<String, String>)
    ensures
        match name {
            Ok(name) => database_name(username@, file_stem@) == Ok::<Seq<char>, Seq<char>>(name@),
            Err(message) => database_name(username@, file_stem@) == Err::<Seq<char>, Seq<char>>(
                message@,
            ),
        },
{
    proof {
        reveal_strlit("");
        assert(username@.len() == 0 ==> username@ =~= ""@);
    }
    if str_eq(username, "") {
        return Err("username is required (set ICLOUD_USERNAME or [auth].username)".to_owned());
    }
    let mut name = file_stem.to_owned();
    name.append(".db");
    Ok(name)
}

// Laws.

/// How many steps may follow at most.
pub open spec fn steps_left(phase: Phase) -> nat {
    match phase {
        Phase::Validate => 8,
        Phase::Migrate => 7,
        Phase::Locate => 6,
        Phase::Check => 5,
        Phase::Load => 4,
        Phase::Log => 3,
        Phase::SetUp => 2,
        Phase::Reload => 1,
        Phase::Done => 0,
    }
}

/// Every event brings a start nearer to its end, and what ends it is a command that runs, the
/// end of the wizard or an error.
pub proof fn law_starts_end(start: StartupView, event: Event)
    requires
        awaited(start.phase, event),
    ensures
        steps_left(next_step(start, event).0.phase) < steps_left(start.phase),
        next_step(start, event).0.phase == Phase::Done <==> (next_step(
            start,
            event,
        ).1 is RunCommand || next_step(start, event).1 is RunSync || next_step(
            start,
            event,
        ).1 is Finish || next_step(start, event).1 is Fail),
{
}

/// A configuration that was asked for by name is the one that is read, never the container's.
pub proof fn law_named_configuration_is_read(
    start: StartupView,
    expanded: String,
    exists: bool,
    docker_exists: bool,
)
    requires
        is_explicit(start.config),
    ensures
        next_step(start, Event::Located { expanded, exists, docker_exists }).1
            == ActionView::Check(expanded@),
{
}

/// A copy that failed ends the start before any configuration is read.
pub proof fn law_failed_copy_ends_the_start(start: StartupView, message: String)
    ensures
        next_step(start, Event::Migrated(Err(message))).0.phase == Phase::Done,
        next_step(start, Event::Migrated(Err(message))).1 == ActionView::Fail(message@),
{
}

/// Only the service syncs in service mode, and it is never one shot.
pub proof fn law_service_is_never_one_shot(start: StartupView, event: Event)
    requires
        awaited(start.phase, event),
    ensures
        next_step(start, event).1 matches ActionView::RunSync { one_shot, service_mode: true }
            ==> !one_shot && start.command == CommandView::ServiceRun,
{
}

/// The container's configuration is read exactly where the usual one was not asked for by name
/// and does not exist, and the container's does. Whichever is chosen is the one that is looked
/// for.
pub proof fn law_the_containers_configuration_stands_in(
    start: StartupView,
    expanded: String,
    exists: bool,
    docker_exists: bool,
)
    ensures
        ({
            let (after, action) = next_step(
                start,
                Event::Located { expanded, exists, docker_exists },
            );
            let usual = start.config == "~/.config/kei/config.toml"@ || start.config
                == "/config/config.toml"@;
            let stands_in = usual && !exists && docker_exists;
            &&& after.phase == Phase::Check
            &&& after.used_docker_fallback == stands_in
            &&& after.path == if stands_in {
                "/config/config.toml"@
            } else {
                expanded@
            }
            &&& action == ActionView::Check(after.path)
            &&& after.command == start.command
            &&& after.config == start.config
        }),
{
}

/// A configuration has to exist where it was asked for by name, unless it can be created there;
/// the one that was chosen is the one that is read.
pub proof fn law_a_named_configuration_has_to_exist(
    start: StartupView,
    exists: bool,
    parent_is_dir: bool,
)
    ensures
        ({
            let (after, action) = next_step(start, Event::Checked { exists, parent_is_dir });
            let usual = start.config == "~/.config/kei/config.toml"@ || start.config
                == "/config/config.toml"@;
            &&& after.phase == Phase::Load
            &&& action == (ActionView::Load {
                path: start.path,
                required: !usual && !(parent_is_dir && !exists),
            })
        }),
{
}

/// What is asked for on the command line is logged before what the configuration asks for: a
/// level before more words, and neither means the usual level. Other crates are let speak at
/// the most talkative level alone.
pub proof fn law_the_command_line_decides_what_is_logged(
    level: LogLevel,
    other: Option<LogLevel>,
    verbose: bool,
)
    ensures
        level_of(requested_level(Some(level), verbose), other) == level,
        level_of(requested_level(None, true), other) == LogLevel::Info,
        level_of(requested_level(None, false), Some(level)) == level,
        level_of(requested_level(None, false), None) == LogLevel::Info,
        filter_of(LogLevel::Debug) == "kei=debug,info"@,
        filter_of(LogLevel::Info) == "kei=info"@,
        filter_of(LogLevel::Warn) == "warn"@,
        filter_of(LogLevel::Error) == "error"@,
{
}

/// The log and the output are set up by the command that runs: a sync by its own flags, the
/// service as one, and every other command without either; only those two look at the report
/// that the configuration asks for. What the command line says of a friendly output counts
/// before what the configuration says.
pub proof fn law_output_suits_the_command(
    start: StartupView,
    facts: ConfigFacts,
)
    requires
        start.phase == Phase::Load,
    ensures
        ({
            let (after, action) = next_step(start, Event::Loaded(Ok(facts)));
            let plan = action->StartLogging_0;
            let serves = start.command == CommandView::ServiceRun || start.command
                == CommandView::ServiceStatus;
            &&& after.phase == Phase::Log
            &&& action is StartLogging
            &&& plan.filter == filter_of(
                level_of(requested_level(start.log_level, start.verbose), facts.log_level),
            )
            &&& plan.level_is_explicit == (start.log_level is Some || start.verbose)
            &&& plan.service_run == serves
            &&& plan.report_json == (facts.report_json && (serves || start.command is Sync))
            &&& plan.no_progress_bar == (start.command is Sync && start.command->no_progress_bar)
            &&& plan.only_print_filenames == (start.command is Sync
                && start.command->only_print_filenames)
            &&& plan.friendly_on_command_line == start.friendly
            &&& plan.friendly_in_config == facts.friendly
            &&& plan.friendly == if start.friendly is Some {
                start.friendly
            } else {
                facts.friendly
            }
            &&& plan.used_docker_fallback == start.used_docker_fallback
        }),
{
}

/// Once the log is set up the command runs: a sync once where it only retries what failed, the
/// service for good, the wizard on the file that was named or else on the configuration, and
/// every other command as it is.
pub proof fn law_the_command_that_was_asked_for_runs(start: StartupView)
    ensures
        ({
            let (after, action) = next_step(start, Event::LoggingStarted);
            match start.command {
                CommandView::Sync { retry_failed, .. } => action == (ActionView::RunSync {
                    one_shot: retry_failed,
                    service_mode: false,
                }),
                CommandView::ServiceRun => action == (ActionView::RunSync {
                    one_shot: false,
                    service_mode: true,
                }),
                CommandView::ConfigSetup { output } => action == ActionView::RunSetup(
                    if output is Some {
                        output->0
                    } else {
                        start.path
                    },
                ) && after.phase == Phase::SetUp,
                _ => action == ActionView::RunCommand,
            }
        }),
{
}

/// After the wizard nothing more is done, unless the user wants to sync: from the configuration
/// that was written, which has to exist, and once.
pub proof fn law_the_wizard_leads_to_one_sync(
    start: StartupView,
    path: String,
    facts: ConfigFacts,
)
    ensures
        next_step(start, Event::SetupEnded(None)).1 == ActionView::Finish,
        next_step(start, Event::SetupEnded(Some(path))).1 == (ActionView::Load {
            path: path@,
            required: true,
        }),
        next_step(
            next_step(start, Event::SetupEnded(Some(path))).0,
            Event::Loaded(Ok(facts)),
        ).1 == (ActionView::RunSync { one_shot: true, service_mode: false }),
{
}

/// A start goes through its steps in order, and an error at any of them ends it with the
/// error's own words.
pub proof fn law_an_error_ends_the_start(start: StartupView, message: String)
    ensures
        next_step(start, Event::Validated(Ok(()))).1 == ActionView::MigrateLegacyPaths,
        next_step(start, Event::Migrated(Ok(()))).1 == ActionView::Locate,
        next_step(start, Event::Validated(Err(message))).1 == ActionView::Fail(message@),
        next_step(start, Event::Loaded(Err(message))).1 == ActionView::Fail(message@),
        next_step(start, Event::Validated(Err(message))).0.phase == Phase::Done,
        next_step(start, Event::Loaded(Err(message))).0.phase == Phase::Done,
        next_step(start, Event::Validated(Ok(()))).0.phase == Phase::Migrate,
        next_step(start, Event::Migrated(Ok(()))).0.phase == Phase::Locate,
{
}

/// Only the event that is waited for is taken.
pub proof fn law_each_event_is_waited_for_in_its_phase(
    result: Result<(), String>,
    loaded: Result<ConfigFacts, String>,
    ended: Option<String>,
    phase: Phase,
)
    ensures
        awaited(phase, Event::Validated(result)) <==> phase == Phase::Validate,
        awaited(phase, Event::Migrated(result)) <==> phase == Phase::Migrate,
        awaited(phase, Event::Loaded(loaded)) <==> phase == Phase::Load || phase == Phase::Reload,
        awaited(phase, Event::LoggingStarted) <==> phase == Phase::Log,
        awaited(phase, Event::SetupEnded(ended)) <==> phase == Phase::SetUp,
        forall|event: Event| #[trigger] awaited(phase, event) ==> phase != Phase::Done,
{
}

/// A user's database is named after the user; nobody's is not opened.
pub proof fn law_a_database_belongs_to_its_user(username: Seq<char>, file_stem: Seq<char>)
    ensures
        database_name(username, file_stem) is Ok <==> username.len() > 0,
        username.len() > 0 ==> database_name(username, file_stem)->Ok_0 == file_stem + ".db"@,
{
}

} // verus!
