//! The email client identity: it holds the mail API token that the
//! surrounding program uses when it sends verification email.

use vstd::prelude::*;

verus! {

/// Credentials for the outgoing-mail API.
pub struct EmailClient {
    mailgun_token: String,
}

impl EmailClient {
    /// The held token's text.
    pub closed spec fn token_view(&self) -> Seq<char> {
        self.mailgun_token@
    }

    /// Wraps the mail API token.
    pub fn new(mailgun_token: String) -> (r: EmailClient)
        ensures
            r.token_view() == mailgun_token@,
    {
        EmailClient { mailgun_token }
    }

    /// The token, for the caller that performs the actual send.
    pub fn api_token(&self) -> (r: &String)
        ensures
            r@ == self.token_view(),
    {
        &self.mailgun_token
    }
}

} // verus!
