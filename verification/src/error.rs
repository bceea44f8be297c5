//! Application error types shared by the Codecks API and MCP layers.
//!
//! The variants carry no data, so neither their codes nor their messages can ever hold a
//! credential, a request header, a response body or upstream error text.
use vstd::prelude::*;

verus! {

/// A failure produced while resolving or communicating with Codecks.
#[derive(Clone, Copy, Debug, PartialEq, Eq, Structural)]
pub enum ApplicationError {
    /// Codecks rejected or could not validate the configured authentication credentials.
    AuthenticationFailed,
    /// The authenticated Codecks user is not permitted to perform the requested operation.
    AuthorizationFailed,
    /// No Codecks project matched the requested identifier.
    ProjectNotFound,
    /// The requested project identifier matched more than one Codecks project.
    ProjectAmbiguous,
    /// No Codecks card matched the requested identifier.
    CardNotFound,
    /// The requested card identifier matched more than one Codecks card.
    CardIdentifierAmbiguous,
    /// An identifier was malformed or unsupported.
    InvalidIdentifier,
    /// A Codecks request exceeded its configured deadline.
    Timeout,
    /// A network failure prevented communication with Codecks.
    NetworkFailure,
    /// Codecks reported an API-level failure.
    CodecksApiError,
    /// Codecks returned a response that could not be validated.
    InvalidCodecksResponse,
}

/// The stable machine-readable code of an error.
pub open spec fn error_code(e: ApplicationError) -> Seq<char> {
    match e {
        ApplicationError::AuthenticationFailed => "authentication_failed"@,
        ApplicationError::AuthorizationFailed => "authorization_failed"@,
        ApplicationError::ProjectNotFound => "project_not_found"@,
        ApplicationError::ProjectAmbiguous => "project_ambiguous"@,
        ApplicationError::CardNotFound => "card_not_found"@,
        ApplicationError::CardIdentifierAmbiguous => "card_identifier_ambiguous"@,
        ApplicationError::InvalidIdentifier => "invalid_identifier"@,
        ApplicationError::Timeout => "timeout"@,
        ApplicationError::NetworkFailure => "network_failure"@,
        ApplicationError::CodecksApiError => "codecks_api_error"@,
        ApplicationError::InvalidCodecksResponse => "invalid_codecks_response"@,
    }
}

/// The credential-safe message of an error.
pub open spec fn error_message(e: ApplicationError) -> Seq<char> {
    match e {
        ApplicationError::AuthenticationFailed => "Codecks authentication failed."@,
        ApplicationError::AuthorizationFailed => "Codecks authorization failed."@,
        ApplicationError::ProjectNotFound => "The Codecks project was not found."@,
        ApplicationError::ProjectAmbiguous => "The Codecks project identifier is ambiguous."@,
        ApplicationError::CardNotFound => "The Codecks card was not found."@,
        ApplicationError::CardIdentifierAmbiguous => "The Codecks card identifier is ambiguous."@,
        ApplicationError::InvalidIdentifier => "The supplied identifier is invalid."@,
        ApplicationError::Timeout => "The Codecks request timed out."@,
        ApplicationError::NetworkFailure => "The Codecks network request failed."@,
        ApplicationError::CodecksApiError => "The Codecks API reported an error."@,
        ApplicationError::InvalidCodecksResponse => "Codecks returned an invalid response."@,
    }
}

impl ApplicationError {
    /// Returns the stable machine-readable code used at the MCP boundary.
    pub fn code(self) -> (code: &'static str)
        ensures
            code@ == error_code(self),
    {
        match self {
            ApplicationError::AuthenticationFailed => "authentication_failed",
            ApplicationError::AuthorizationFailed => "authorization_failed",
            ApplicationError::ProjectNotFound => "project_not_found",
            ApplicationError::ProjectAmbiguous => "project_ambiguous",
            ApplicationError::CardNotFound => "card_not_found",
            ApplicationError::CardIdentifierAmbiguous => "card_identifier_ambiguous",
            ApplicationError::InvalidIdentifier => "invalid_identifier",
            ApplicationError::Timeout => "timeout",
            ApplicationError::NetworkFailure => "network_failure",
            ApplicationError::CodecksApiError => "codecks_api_error",
            ApplicationError::InvalidCodecksResponse => "invalid_codecks_response",
        }
    }

    /// Returns a credential-safe message suitable for MCP clients and diagnostics.
    pub fn message(self) -> (message: &'static str)
        ensures
            message@ == error_message(self),
    {
        match self {
            ApplicationError::AuthenticationFailed => "Codecks authentication failed.",
            ApplicationError::AuthorizationFailed => "Codecks authorization failed.",
            ApplicationError::ProjectNotFound => "The Codecks project was not found.",
            ApplicationError::ProjectAmbiguous => "The Codecks project identifier is ambiguous.",
            ApplicationError::CardNotFound => "The Codecks card was not found.",
            ApplicationError::CardIdentifierAmbiguous => "The Codecks card identifier is ambiguous.",
            ApplicationError::InvalidIdentifier => "The supplied identifier is invalid.",
            ApplicationError::Timeout => "The Codecks request timed out.",
            ApplicationError::NetworkFailure => "The Codecks network request failed.",
            ApplicationError::CodecksApiError => "The Codecks API reported an error.",
            ApplicationError::InvalidCodecksResponse => "Codecks returned an invalid response.",
        }
    }

    /// The text an error displays as: its message.
    pub fn to_string(&self) -> (text: String)
        ensures
            text@ == error_message(*self),
    {
        self.message().to_owned()
    }
}

/// Distinct errors have distinct codes, so a code identifies its error.
pub proof fn lemma_error_codes_unique(a: ApplicationError, b: ApplicationError)
    requires
        a != b,
    ensures
        error_code(a) != error_code(b),
{
    reveal_strlit("authentication_failed");
    reveal_strlit("authorization_failed");
    reveal_strlit("project_not_found");
    reveal_strlit("project_ambiguous");
    reveal_strlit("card_not_found");
    reveal_strlit("card_identifier_ambiguous");
    reveal_strlit("invalid_identifier");
    reveal_strlit("timeout");
    reveal_strlit("network_failure");
    reveal_strlit("codecks_api_error");
    reveal_strlit("invalid_codecks_response");
    if error_code(a) == error_code(b) {
        assert(error_code(a).len() == error_code(b).len());
        assert(error_code(a)[0] == error_code(b)[0]);
        assert(error_code(a)[1] == error_code(b)[1]);
        assert(error_code(a)[2] == error_code(b)[2]);
        assert(error_code(a)[8] == error_code(b)[8]);
    }
}

} // verus!
