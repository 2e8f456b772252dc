//! Passwords in memory: wiped when they are dropped, and shown by nothing that prints.
use secrecy::ExposeSecret;
use secrecy::SecretString;
use vstd::prelude::*;

verus! {

/// `secrecy::SecretString`: a text that is wiped when it is dropped and that printing does not
/// show.
#[verifier::external_body]
#[derive(Debug)]
pub struct Secret {
    text: SecretString,
}

/// The text that a secret holds.
pub uninterp spec fn secret_text(secret: Secret) -> Seq<char>;

/// `SecretString::from` of a `String`: the secret holds the text.
#[verifier::external_body]
fn hide_text(text: String) -> (secret: Secret)
    ensures
        secret_text(secret) == text@,
{
    Secret { text: SecretString::from(text) }
}

/// `ExposeSecret::expose_secret`: the text that the secret holds.
#[verifier::external_body]
fn expose_text(secret: &Secret) -> (text: &str)
    ensures
        text@ == secret_text(*secret),
{
    secret.text.expose_secret()
}

impl View for Secret {
    type V = Seq<char>;

    open spec fn view(&self) -> Seq<char> {
        secret_text(*self)
    }
}

impl Secret {
    /// Hide a text.
    pub fn new(text: String) -> (secret: Secret)
        ensures
            secret@ == text@,
    {
        hide_text(text)
    }

    /// The text that is hidden.
    pub fn expose_secret(&self) -> (text: &str)
        ensures
            text@ == self@,
    {
        expose_text(self)
    }

    /// Another secret of the same text.
    pub fn duplicate(&self) -> (copy: Secret)
        ensures
            copy@ == self@,
    {
        hide_text(expose_text(self).to_owned())
    }
}

/// The view of a borrowed secret that may be absent.
pub open spec fn secret_ref_view(secret: Option<&Secret>) -> Option<Seq<char>> {
    match secret {
        Some(secret) => Some(secret@),
        None => None,
    }
}

} // verus!
