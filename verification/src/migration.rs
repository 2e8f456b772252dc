//! Moving from icloudpd-rs to kei: the old configuration, cookies and state databases are
//! copied to where kei looks for them. The old files stay, so that the user can go back.
use crate::text::{contains_text, decimal_text, decimal_usize, occurs_at, text_views};
use vstd::prelude::*;

verus! {

/// Where the configuration is.
pub const NEW_CONFIG_PATH: &'static str = "~/.config/kei/config.toml";

/// Where cookies, sessions and state databases are.
pub const NEW_COOKIE_DIR: &'static str = "~/.config/kei/cookies";

/// Where icloudpd-rs has its configuration.
pub const OLD_CONFIG_PATH: &'static str = "~/.config/icloudpd-rs/config.toml";

/// Where icloudpd-rs has its cookies.
pub const OLD_COOKIE_DIR: &'static str = "~/.icloudpd-rs";

/// What is said behind every migration.
pub const DEPRECATED: &'static str =
    "The old paths will continue to work but are deprecated. Please update your scripts and config to use ~/.config/kei/.";

/// What was migrated.
#[derive(Debug)]
pub struct MigrationReport {
    pub warnings: Vec<String>,
    pub config_migrated: bool,
    pub cookies_migrated: bool,
}

/// A [`MigrationReport`] with its texts taken by their characters.
#[verifier::ext_equal]
pub struct ReportView {
    pub warnings: Seq<Seq<char>>,
    pub config_migrated: bool,
    pub cookies_migrated: bool,
}

impl View for MigrationReport {
    type V = ReportView;

    open spec fn view(&self) -> ReportView {
        ReportView {
            warnings: text_views(self.warnings@),
            config_migrated: self.config_migrated,
            cookies_migrated: self.cookies_migrated,
        }
    }
}

/// The view of a report that may be absent.
pub open spec fn option_report_view(report: Option<MigrationReport>) -> Option<ReportView> {
    match report {
        Some(report) => Some(report@),
        None => None,
    }
}

/// The paths that are migrated between, with the home directory filled in.
#[derive(Debug)]
pub struct LegacyPaths {
    pub new_config: String,
    pub new_cookie_dir: String,
    pub old_config: String,
    pub old_cookie_dir: String,
}

/// What is to be copied.
#[derive(Debug, Clone, Copy, PartialEq, Eq, Structural)]
pub struct MigrationPlan {
    pub config: bool,
    pub cookies: bool,
}

/// What is to be copied: nothing where kei has its configuration, and otherwise what
/// icloudpd-rs left.
pub open spec fn planned(new_config: bool, old_config: bool, old_cookies: bool) -> Option<
    MigrationPlan,
> {
    if new_config || (!old_config && !old_cookies) {
        None
    } else {
        Some(MigrationPlan { config: old_config, cookies: old_cookies })
    }
}

/// Plan a migration, given whether the new configuration exists, whether the old one is a
/// file, and whether the old cookies are a directory.
pub fn plan_migration(new_config: bool, old_config: bool, old_cookies: bool) -> (plan: Option<
    MigrationPlan,
>)
    ensures
        plan == planned(new_config, old_config, old_cookies),
{
    if new_config {
        return None;
    }
    if !old_config && !old_cookies {
        return None;
    }
    Some(MigrationPlan { config: old_config, cookies: old_cookies })
}

/// Whether an entry of the old directory is copied: it is a plain file, and none of its name
/// stands in the new directory.
pub open spec fn copies(is_file: bool, exists_at_destination: bool) -> bool {
    is_file && !exists_at_destination
}

/// Whether an entry of the old directory is copied.
pub fn copies_entry(is_file: bool, exists_at_destination: bool) -> (yes: bool)
    ensures
        yes == copies(is_file, exists_at_destination),
{
    is_file && !exists_at_destination
}

/// What is said of the configuration.
pub open spec fn config_warning(
    copied: Result<bool, String>,
    old_path: Seq<char>,
    new_path: Seq<char>,
) -> Option<Seq<char>> {
    match copied {
        Ok(true) => Some("Migrated config from "@ + old_path + " to "@ + new_path),
        Ok(false) => None,
        Err(error) => Some(
            "Failed to migrate config from "@ + old_path + ": "@ + error@
                + ". Using old path as fallback."@,
        ),
    }
}

/// What is said of the cookies.
pub open spec fn cookies_warning(
    copied: Result<usize, String>,
    old_path: Seq<char>,
    new_path: Seq<char>,
) -> Option<Seq<char>> {
    match copied {
        Ok(count) => if count > 0 {
            Some(
                "Migrated "@ + decimal_text(count as nat) + " files from "@ + old_path + " to "@
                    + new_path,
            )
        } else {
            None
        },
        Err(error) => Some(
            "Failed to migrate data from "@ + old_path + ": "@ + error@
                + ". Using old path as fallback."@,
        ),
    }
}

/// A list with something behind it that may be absent.
pub open spec fn with_option(list: Seq<Seq<char>>, item: Option<Seq<char>>) -> Seq<Seq<char>> {
    match item {
        Some(item) => list.push(item),
        None => list,
    }
}

/// What is reported of a migration that was carried out as planned. Where nothing was copied
/// there is nothing to report.
pub open spec fn reported(
    paths: LegacyPaths,
    plan: MigrationPlan,
    config: Result<bool, String>,
    cookies: Result<usize, String>,
) -> Option<ReportView> {
    let config_migrated = plan.config && config is Ok && config->Ok_0;
    let cookies_migrated = plan.cookies && cookies is Ok && cookies->Ok_0 > 0;
    let warnings = with_option(
        Seq::empty(),
        if plan.config {
            config_warning(config, paths.old_config@, paths.new_config@)
        } else {
            None
        },
    );
    let warnings = with_option(
        warnings,
        if plan.cookies {
            cookies_warning(cookies, paths.old_cookie_dir@, paths.new_cookie_dir@)
        } else {
            None
        },
    );
    if config_migrated || cookies_migrated {
        Some(
            ReportView { warnings: warnings.push(DEPRECATED@), config_migrated, cookies_migrated },
        )
    } else {
        None
    }
}

/// The view of a list of texts with one behind it.
proof fn lemma_push_view(list: Seq<String>, text: String)
    ensures
        text_views(list.push(text)) == text_views(list).push(text@),
{
    assert(text_views(list.push(text)) =~= text_views(list).push(text@));
}

/// What is said where something could not be copied.
fn failed_text(what: &str, path: &str, error: &str) -> (text: String)
    ensures
        text@ == what@ + path@ + ": "@ + error@ + ". Using old path as fallback."@,
{
    let mut text = what.to_owned();
    text.append(path);
    text.append(": ");
    text.append(error);
    text.append(". Using old path as fallback.");
    text
}

/// Report on a migration that was carried out as planned, given what became of the
/// configuration and how many of the cookies' files were copied.
pub fn migrate_legacy_paths(
    paths: &LegacyPaths,
    plan: MigrationPlan,
    config: &Result<bool, String>,
    cookies: &Result<usize, String>,
) -> (report: Option<MigrationReport>)
    ensures
        option_report_view(report) == reported(*paths, plan, *config, *cookies),
{
    let mut report = MigrationReport {
        warnings: Vec::new(),
        config_migrated: false,
        cookies_migrated: false,
    };
    assert(text_views(report.warnings@) =~= Seq::empty());
    if plan.config {
        match config {
            Ok(copied) => {
                if *copied {
                    report.config_migrated = true;
                    let mut text = "Migrated config from ".to_owned();
                    text.append(&paths.old_config);
                    text.append(" to ");
                    text.append(&paths.new_config);
                    proof {
                        lemma_push_view(report.warnings@, text);
                    }
                    report.warnings.push(text);
                }
            },
            Err(error) => {
                let text = failed_text(
                    "Failed to migrate config from ",
                    &paths.old_config,
                    error,
                );
                proof {
                    lemma_push_view(report.warnings@, text);
                }
                report.warnings.push(text);
            },
        }
    }
    if plan.cookies {
        match cookies {
            Ok(count) => {
                if *count > 0 {
                    report.cookies_migrated = true;
                    let mut text = "Migrated ".to_owned();
                    text.append(&decimal_usize(*count));
                    text.append(" files from ");
                    text.append(&paths.old_cookie_dir);
                    text.append(" to ");
                    text.append(&paths.new_cookie_dir);
                    proof {
                        lemma_push_view(report.warnings@, text);
                    }
                    report.warnings.push(text);
                }
            },
            Err(error) => {
                let text = failed_text(
                    "Failed to migrate data from ",
                    &paths.old_cookie_dir,
                    error,
                );
                proof {
                    lemma_push_view(report.warnings@, text);
                }
                report.warnings.push(text);
            },
        }
    }
    if !report.config_migrated && !report.cookies_migrated {
        return None;
    }
    let text = DEPRECATED.to_owned();
    proof {
        lemma_push_view(report.warnings@, text);
    }
    report.warnings.push(text);
    Some(report)
}

/// The failure that keeps kei from starting: it does not go on with the old paths where a copy
/// failed.
pub open spec fn copy_failure(
    plan: MigrationPlan,
    config: Result<bool, String>,
    cookies: Result<usize, String>,
) -> Option<Seq<char>> {
    if plan.config && config is Err {
        Some(config->Err_0@)
    } else if plan.cookies && cookies is Err {
        Some(cookies->Err_0@)
    } else {
        None
    }
}

/// The failure that keeps kei from starting.
pub fn startup_failure(
    plan: MigrationPlan,
    config: &Result<bool, String>,
    cookies: &Result<usize, String>,
) -> (failure: Option<String>)
    ensures
        crate::text::option_view(failure) == copy_failure(plan, *config, *cookies),
{
    if plan.config {
        if let Err(error) = config {
            return Some(error.clone());
        }
    }
    if plan.cookies {
        if let Err(error) = cookies {
            return Some(error.clone());
        }
    }
    None
}

// Laws.

/// Every report ends by telling the user to leave the old paths, and tells of something that
/// was copied.
pub proof fn law_reports_say_what_was_copied(
    paths: LegacyPaths,
    plan: MigrationPlan,
    config: Result<bool, String>,
    cookies: Result<usize, String>,
)
    requires
        reported(paths, plan, config, cookies) is Some,
    ensures
        ({
            let report = reported(paths, plan, config, cookies)->0;
            &&& report.config_migrated || report.cookies_migrated
            &&& report.warnings.len() >= 2
            &&& report.warnings.last() == DEPRECATED@
        }),
{
}

/// Where kei has its configuration nothing is copied over it, whatever icloudpd-rs left.
pub proof fn law_new_configuration_stays(old_config: bool, old_cookies: bool)
    ensures
        planned(true, old_config, old_cookies) is None,
{
}

/// What the old and the new paths hold: whether either configuration is there, the entries of
/// the old directory with whether each is a plain file, where there is such a directory, and
/// the names in the new one.
#[verifier::ext_equal]
pub struct LegacyState {
    pub new_config: bool,
    pub old_config: bool,
    pub old_entries: Option<Seq<(Seq<char>, bool)>>,
    pub new_names: Set<Seq<char>>,
}

/// What is to be copied, given what the paths hold.
pub open spec fn planned_for(state: LegacyState) -> Option<MigrationPlan> {
    planned(state.new_config, state.old_config, state.old_entries is Some)
}

/// What copying a directory entry by entry leaves: the names in the new directory, and how
/// many files were copied.
pub open spec fn directory_copied(entries: Seq<(Seq<char>, bool)>, names: Set<Seq<char>>) -> (
    Set<Seq<char>>,
    nat,
)
    decreases entries.len(),
{
    if entries.len() == 0 {
        (names, 0)
    } else {
        let (before, count) = directory_copied(entries.drop_last(), names);
        let (name, is_file) = entries.last();
        if copies(is_file, before.contains(name)) {
            (before.insert(name), count + 1)
        } else {
            (before, count)
        }
    }
}

/// What the paths hold after a migration in which no copy failed.
pub open spec fn carried_out(state: LegacyState) -> LegacyState {
    match planned_for(state) {
        None => state,
        Some(plan) => LegacyState {
            new_config: state.new_config || plan.config,
            new_names: match state.old_entries {
                Some(entries) => directory_copied(entries, state.new_names).0,
                None => state.new_names,
            },
            ..state
        },
    }
}

/// What was copied is there.
proof fn lemma_copied_is_there(
    entries: Seq<(Seq<char>, bool)>,
    names: Set<Seq<char>>,
    entry: (Seq<char>, bool),
)
    requires
        entries.contains(entry),
        entry.1,
    ensures
        directory_copied(entries, names).0.contains(entry.0),
    decreases entries.len(),
{
    if entries.last() != entry {
        let i = entries.index_of(entry);
        assert(entries.drop_last()[i] == entry);
        lemma_copied_is_there(entries.drop_last(), names, entry);
    }
}

/// Where every file is there already, none is copied.
proof fn lemma_nothing_to_copy(entries: Seq<(Seq<char>, bool)>, names: Set<Seq<char>>)
    requires
        forall|i: int|
            0 <= i < entries.len() && (#[trigger] entries[i]).1 ==> names.contains(entries[i].0),
    ensures
        directory_copied(entries, names) == (names, 0nat),
    decreases entries.len(),
{
    if entries.len() > 0 {
        let fewer = entries.drop_last();
        assert forall|i: int| 0 <= i < fewer.len() && (#[trigger] fewer[i]).1 implies names.contains(
            fewer[i].0,
        ) by {
            assert(fewer[i] == entries[i]);
        }
        lemma_nothing_to_copy(fewer, names);
        assert(entries[entries.len() - 1] == entries.last());
    }
}

/// A migration is done once. After one in which no copy failed, and as long as nobody touches
/// the files, another finds nothing to copy and reports nothing: also where icloudpd-rs left
/// no configuration, so that only files were copied, and in whatever order the old directory
/// is walked then.
pub proof fn law_second_migration_does_nothing(
    state: LegacyState,
    later: LegacyState,
    paths: LegacyPaths,
)
    requires
        later.new_config == carried_out(state).new_config,
        later.old_config == state.old_config,
        later.new_names == carried_out(state).new_names,
        later.old_entries is Some <==> state.old_entries is Some,
        later.old_entries is Some ==> forall|entry: (Seq<char>, bool)| #[trigger]
            later.old_entries->0.contains(entry) ==> state.old_entries->0.contains(entry),
    ensures
        carried_out(later) == later,
        planned_for(state) is Some ==> match planned_for(later) {
            None => true,
            Some(plan) => !plan.config && directory_copied(later.old_entries->0, later.new_names).1
                == 0 && reported(paths, plan, Ok(false), Ok(0)) is None,
        },
{
    if let Some(plan) = planned_for(state) {
        if planned_for(later) is Some {
            let entries = state.old_entries->0;
            let again = later.old_entries->0;
            assert forall|i: int|
                0 <= i < again.len() && (#[trigger] again[i]).1 implies later.new_names.contains(
                again[i].0,
            ) by {
                assert(again.contains(again[i]));
                lemma_copied_is_there(entries, state.new_names, again[i]);
            }
            lemma_nothing_to_copy(again, later.new_names);
        }
    }
}

/// What icloudpd-rs left is copied, each part where it is there, as long as kei has no
/// configuration of its own.
pub proof fn law_what_was_left_is_copied(new_config: bool, old_config: bool, old_cookies: bool)
    ensures
        ({
            let plan = planned(new_config, old_config, old_cookies);
            &&& plan is Some <==> !new_config && (old_config || old_cookies)
            &&& plan is Some ==> plan->0.config == old_config && plan->0.cookies == old_cookies
        }),
{
}

/// Nothing is written over: a file is copied only where none of its name is there, and nothing
/// but a plain file is copied.
pub proof fn law_nothing_is_written_over(
    entries: Seq<(Seq<char>, bool)>,
    names: Set<Seq<char>>,
    is_file: bool,
    there: bool,
)
    ensures
        copies(is_file, there) <==> is_file && !there,
        forall|name: Seq<char>| #[trigger]
            names.contains(name) ==> directory_copied(entries, names).0.contains(name),
        forall|name: Seq<char>| #[trigger]
            directory_copied(entries, names).0.contains(name) && !names.contains(name)
                ==> entries.contains((name, true)),
    decreases entries.len(),
{
    if entries.len() > 0 {
        let fewer = entries.drop_last();
        law_nothing_is_written_over(fewer, names, is_file, there);
        assert forall|name: Seq<char>| #[trigger]
            directory_copied(entries, names).0.contains(name) && !names.contains(
                name,
            ) implies entries.contains((name, true)) by {
            if directory_copied(fewer, names).0.contains(name) {
                let i = fewer.index_of((name, true));
                assert(entries[i] == (name, true));
            } else {
                assert(entries[entries.len() - 1] == (name, true));
            }
        }
    }
}

/// A report says of each part whether it was copied: the configuration where it was planned and
/// the copy was made, the cookies where they were planned and at least one file was copied.
pub proof fn law_a_report_tells_each_part_apart(
    paths: LegacyPaths,
    plan: MigrationPlan,
    config: Result<bool, String>,
    cookies: Result<usize, String>,
)
    ensures
        ({
            let report = reported(paths, plan, config, cookies);
            let config_copied = plan.config && config == Ok::<bool, String>(true);
            let cookies_copied = plan.cookies && (cookies matches Ok(count) && count > 0);
            &&& report is Some <==> config_copied || cookies_copied
            &&& report matches Some(report) ==> report.config_migrated == config_copied
                && report.cookies_migrated == cookies_copied
        }),
{
}

/// What is said of a copy names the path that it was made from, and the one that it was made to
/// where it succeeded; nothing is said where nothing was copied.
pub proof fn law_what_is_said_names_the_paths(
    old_path: Seq<char>,
    new_path: Seq<char>,
    count: usize,
    error: String,
)
    ensures
        config_warning(Ok(false), old_path, new_path) is None,
        cookies_warning(Ok(0), old_path, new_path) is None,
        config_warning(Ok(true), old_path, new_path) is Some,
        contains_text(config_warning(Ok(true), old_path, new_path)->0, old_path),
        new_path.is_suffix_of(config_warning(Ok(true), old_path, new_path)->0),
        count > 0 ==> cookies_warning(Ok(count), old_path, new_path) is Some && contains_text(
            cookies_warning(Ok(count), old_path, new_path)->0,
            old_path,
        ) && new_path.is_suffix_of(cookies_warning(Ok(count), old_path, new_path)->0)
            && contains_text(
            cookies_warning(Ok(count), old_path, new_path)->0,
            decimal_text(count as nat),
        ),
        config_warning(Err(error), old_path, new_path) is Some,
        contains_text(config_warning(Err(error), old_path, new_path)->0, old_path),
        contains_text(config_warning(Err(error), old_path, new_path)->0, error@),
        cookies_warning(Err(error), old_path, new_path) is Some,
        contains_text(cookies_warning(Err(error), old_path, new_path)->0, old_path),
        contains_text(cookies_warning(Err(error), old_path, new_path)->0, error@),
{
    lemma_part("Migrated config from "@, old_path, " to "@ + new_path);
    let moved = "Migrated config from "@ + old_path + " to "@ + new_path;
    assert(moved =~= "Migrated config from "@ + old_path + (" to "@ + new_path));
    assert(moved.subrange(moved.len() - new_path.len(), moved.len() as int) =~= new_path);
    let n = decimal_text(count as nat);
    let copied = "Migrated "@ + n + " files from "@ + old_path + " to "@ + new_path;
    lemma_part("Migrated "@, n, " files from "@ + old_path + " to "@ + new_path);
    assert(copied =~= "Migrated "@ + n + (" files from "@ + old_path + " to "@ + new_path));
    lemma_part("Migrated "@ + n + " files from "@, old_path, " to "@ + new_path);
    assert(copied =~= "Migrated "@ + n + " files from "@ + old_path + (" to "@ + new_path));
    assert(copied.subrange(copied.len() - new_path.len(), copied.len() as int) =~= new_path);
    lemma_failure_parts("Failed to migrate config from "@, old_path, error@);
    lemma_failure_parts("Failed to migrate data from "@, old_path, error@);
}

/// What a text is put together of stands in it.
proof fn lemma_part(before: Seq<char>, part: Seq<char>, after: Seq<char>)
    ensures
        contains_text(before + part + after, part),
{
    let s = before + part + after;
    let at = before.len() as int;
    assert(s.subrange(at, at + part.len()) =~= part);
    assert(occurs_at(s, part, at));
}

/// The path and the error stand in what is said of a failure.
proof fn lemma_failure_parts(what: Seq<char>, path: Seq<char>, error: Seq<char>)
    ensures
        ({
            let text = what + path + ": "@ + error + ". Using old path as fallback."@;
            contains_text(text, path) && contains_text(text, error)
        }),
{
    let tail = ". Using old path as fallback."@;
    let text = what + path + ": "@ + error + tail;
    lemma_part(what, path, ": "@ + error + tail);
    assert(text =~= what + path + (": "@ + error + tail));
    lemma_part(what + path + ": "@, error, tail);
}

/// A copy that was planned and failed keeps kei from starting, the configuration's before the
/// cookies'; nothing else does.
pub proof fn law_a_failed_copy_keeps_kei_from_starting(
    plan: MigrationPlan,
    config: Result<bool, String>,
    cookies: Result<usize, String>,
)
    ensures
        copy_failure(plan, config, cookies) is Some <==> plan.config && config is Err
            || plan.cookies && cookies is Err,
        plan.config && config is Err ==> copy_failure(plan, config, cookies) == Some(
            config->Err_0@,
        ),
        !(plan.config && config is Err) && plan.cookies && cookies is Err ==> copy_failure(
            plan,
            config,
            cookies,
        ) == Some(cookies->Err_0@),
{
}

/// A report says first what became of the configuration, then what became of the cookies, each
/// where it was planned and there is anything to say, and then that the old paths are to be
/// left.
pub proof fn law_a_report_is_told_in_order(
    paths: LegacyPaths,
    plan: MigrationPlan,
    config: Result<bool, String>,
    cookies: Result<usize, String>,
)
    requires
        reported(paths, plan, config, cookies) is Some,
    ensures
        ({
            let warnings = reported(paths, plan, config, cookies)->0.warnings;
            let of_config = config_warning(config, paths.old_config@, paths.new_config@);
            let of_cookies = cookies_warning(
                cookies,
                paths.old_cookie_dir@,
                paths.new_cookie_dir@,
            );
            let first = plan.config && of_config is Some;
            let second = plan.cookies && of_cookies is Some;
            &&& first && second ==> warnings == seq![of_config->0, of_cookies->0, DEPRECATED@]
            &&& first && !second ==> warnings == seq![of_config->0, DEPRECATED@]
            &&& !first && second ==> warnings == seq![of_cookies->0, DEPRECATED@]
        }),
{
}

} // verus!
