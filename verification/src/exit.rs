//! How kei ends: the exit code that a fatal error maps to.
use crate::text::{decimal_text, decimal_usize};
use vstd::prelude::*;

verus! {

/// Some downloads failed, but not the whole sync.
pub const EXIT_PARTIAL: u8 = 2;

/// Signing in failed.
pub const EXIT_AUTH: u8 = 3;

/// Apple refuses the account until somebody acts.
pub const EXIT_TERMINAL_AUTH: u8 = 4;

/// Some, but not all, downloads failed during a sync.
#[derive(Debug, Clone, Copy, PartialEq, Eq, Structural)]
pub struct PartialSyncError(pub usize);

impl PartialSyncError {
    /// The error in words.
    pub fn message(&self) -> (text: String)
        ensures
            text@ == decimal_text(self.0 as nat) + " downloads failed"@,
    {
        let mut text = decimal_usize(self.0);
        text.append(" downloads failed");
        text
    }
}

/// Why signing in failed.
#[derive(Debug)]
pub enum AuthError {
    /// A code is needed; the user was told how to give it.
    TwoFactorRequired,
    /// Apple refuses the account until somebody acts.
    TerminalAppleAuth { code: i64, message: String },
    FailedLogin(String),
}

/// What ended kei.
#[derive(Debug)]
pub enum FatalError {
    Auth(AuthError),
    Partial(PartialSyncError),
    Other(String),
    /// An error with a word on what kei was about when it came.
    Context { context: String, source: Box<FatalError> },
}

/// What an ending is to whoever started kei.
#[derive(Debug, Clone, Copy, PartialEq, Eq, Structural)]
pub enum ExitClassification {
    /// A success without a word: the user was told how to go on, and a supervisor that starts
    /// kei again on failure would ask Apple over and over.
    TwoFactorRequired,
    Partial,
    Auth,
    TerminalAuth,
    Other,
}

/// The exit code of an ending.
pub open spec fn code_of(exit: ExitClassification) -> u8 {
    match exit {
        ExitClassification::TwoFactorRequired => 0,
        ExitClassification::Partial => EXIT_PARTIAL,
        ExitClassification::Auth => EXIT_AUTH,
        ExitClassification::TerminalAuth => EXIT_TERMINAL_AUTH,
        ExitClassification::Other => 1,
    }
}

/// What an error ends in: what the error within its contexts does.
pub open spec fn exit_of(error: FatalError) -> ExitClassification
    decreases error,
{
    match error {
        FatalError::Auth(AuthError::TwoFactorRequired) => ExitClassification::TwoFactorRequired,
        FatalError::Auth(AuthError::TerminalAppleAuth { .. }) => ExitClassification::TerminalAuth,
        FatalError::Auth(AuthError::FailedLogin(_)) => ExitClassification::Auth,
        FatalError::Partial(_) => ExitClassification::Partial,
        FatalError::Other(_) => ExitClassification::Other,
        FatalError::Context { source, .. } => exit_of(*source),
    }
}

impl FatalError {
    /// The error with a word on what kei was about when it came.
    pub fn context(self, context: &str) -> (error: FatalError)
        ensures
            error matches FatalError::Context { context: text, source } && text@ == context@
                && *source == self,
    {
        FatalError::Context { context: context.to_owned(), source: Box::new(self) }
    }
}

impl ExitClassification {
    /// The exit code of the ending.
    pub fn exit_code(self) -> (code: u8)
        ensures
            code == code_of(self),
    {
        match self {
            ExitClassification::TwoFactorRequired => 0,
            ExitClassification::Partial => EXIT_PARTIAL,
            ExitClassification::Auth => EXIT_AUTH,
            ExitClassification::TerminalAuth => EXIT_TERMINAL_AUTH,
            ExitClassification::Other => 1,
        }
    }

    /// Whether the error is logged.
    pub fn should_log(self) -> (yes: bool)
        ensures
            yes == (self != ExitClassification::TwoFactorRequired),
    {
        match self {
            ExitClassification::TwoFactorRequired => false,
            _ => true,
        }
    }
}

/// What an error ends in.
pub fn classify_exit_error(error: &FatalError) -> (exit: ExitClassification)
    ensures
        exit == exit_of(*error),
    decreases error,
{
    match error {
        FatalError::Auth(error) => match error {
            AuthError::TwoFactorRequired => ExitClassification::TwoFactorRequired,
            AuthError::TerminalAppleAuth { .. } => ExitClassification::TerminalAuth,
            AuthError::FailedLogin(_) => ExitClassification::Auth,
        },
        FatalError::Partial(_) => ExitClassification::Partial,
        FatalError::Other(_) => ExitClassification::Other,
        FatalError::Context { source, .. } => classify_exit_error(source),
    }
}

/// An error within contexts, the first of them innermost.
pub open spec fn in_contexts(error: FatalError, contexts: Seq<String>) -> FatalError
    decreases contexts.len(),
{
    if contexts.len() == 0 {
        error
    } else {
        FatalError::Context {
            context: contexts.last(),
            source: Box::new(in_contexts(error, contexts.drop_last())),
        }
    }
}

/// However many contexts an error is given on its way up, it ends kei as it would without.
pub proof fn law_contexts_do_not_matter(error: FatalError, contexts: Seq<String>)
    ensures
        exit_of(in_contexts(error, contexts)) == exit_of(error),
    decreases contexts.len(),
{
    if contexts.len() > 0 {
        law_contexts_do_not_matter(error, contexts.drop_last());
    }
}

/// Two endings never have the same exit code, and only one that is a success is not logged.
pub proof fn law_exit_codes_are_distinct(a: ExitClassification, b: ExitClassification)
    ensures
        code_of(a) == code_of(b) <==> a == b,
        code_of(a) == 0 <==> a == ExitClassification::TwoFactorRequired,
{
}

/// Every error ends kei in its own way: one that asks for a code is a success, a refusal that
/// somebody has to act on and a failed login are told apart, and so are failed downloads.
/// Anything else is a plain failure.
pub proof fn law_errors_end_in_their_own_codes(
    code: i64,
    message: String,
    failed: PartialSyncError,
)
    ensures
        code_of(exit_of(FatalError::Auth(AuthError::TwoFactorRequired))) == 0,
        code_of(exit_of(FatalError::Auth(AuthError::TerminalAppleAuth { code, message }))) == 4,
        code_of(exit_of(FatalError::Auth(AuthError::FailedLogin(message)))) == 3,
        code_of(exit_of(FatalError::Partial(failed))) == 2,
        code_of(exit_of(FatalError::Other(message))) == 1,
{
}

} // verus!
