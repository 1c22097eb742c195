//! What a caller is answered when a request fails.
use crate::services::session_manager::{caller_error, SessionError};
use crate::services::subscription_manager::SubscriptionError;
use crate::text::joined;
use vstd::prelude::*;

verus! {

#[derive(Debug)]
pub enum AppError {
    NotFound(String),
    BadRequest(String),
    TooManyRequests(String),
}

/// The body of an error response.
#[derive(Debug)]
pub struct ErrorBody {
    /// The status of the response.
    pub code: u16,
    pub message: String,
}

/// The kind of error that a failed session request is.
pub open spec fn status_of(error: SessionError) -> u16 {
    match error {
        SessionError::SessionIsNotCreated => 404,
        SessionError::TokenLimitExceeded(_, _) => 400,
        SessionError::TokenListNotFound(_) => 400,
        SessionError::TokenListUrlNotAllowed(_, _) => 400,
        SessionError::OwnerClientLimitExceeded(_) => 429,
        SessionError::TooManyClients => 429,
    }
}

impl AppError {
    pub open spec fn code(self) -> u16 {
        match self {
            AppError::NotFound(_) => 404,
            AppError::BadRequest(_) => 400,
            AppError::TooManyRequests(_) => 429,
        }
    }

    /// What the error is about, without its kind.
    pub open spec fn detail(self) -> Seq<char> {
        match self {
            AppError::NotFound(e) => e@,
            AppError::BadRequest(e) => e@,
            AppError::TooManyRequests(e) => e@,
        }
    }

    pub open spec fn message(self) -> Seq<char> {
        match self {
            AppError::NotFound(e) => "Not found: "@ + e@,
            AppError::BadRequest(e) => "Bad request: "@ + e@,
            AppError::TooManyRequests(e) => "Too many requests: "@ + e@,
        }
    }

    pub fn from(e: SessionError) -> (error: AppError)
        ensures
            error.code() == status_of(e),
            error.detail() == e.message(),
    {
        let text = e.to_text();
        match e {
            SessionError::SessionIsNotCreated => AppError::NotFound(text),
            SessionError::TokenLimitExceeded(_, _) => AppError::BadRequest(text),
            SessionError::TokenListNotFound(_) => AppError::BadRequest(text),
            SessionError::TokenListUrlNotAllowed(_, _) => AppError::BadRequest(text),
            SessionError::OwnerClientLimitExceeded(_) => AppError::TooManyRequests(text),
            SessionError::TooManyClients => AppError::TooManyRequests(text),
        }
    }

    pub fn to_text(&self) -> (text: String)
        ensures
            text@ == self.message(),
    {
        match self {
            AppError::NotFound(e) => joined("Not found: ", e.as_str()),
            AppError::BadRequest(e) => joined("Bad request: ", e.as_str()),
            AppError::TooManyRequests(e) => joined("Too many requests: ", e.as_str()),
        }
    }

    /// The response's body; its code is the response's status.
    pub fn into_response(self) -> (body: ErrorBody)
        ensures
            body.code == self.code(),
            body.message@ == self.message(),
    {
        let code: u16 = match &self {
            AppError::NotFound(_) => 404,
            AppError::BadRequest(_) => 400,
            AppError::TooManyRequests(_) => 429,
        };
        ErrorBody { code, message: self.to_text() }
    }
}

/// How refusals are answered: a missing session with 404, a request that asks
/// for too much or for the wrong thing with 400, and an owner with too many
/// sessions on a chain with 429.
pub proof fn law_refusals_have_their_status(limit: usize, count: usize, url: String, reason: String)
    ensures
        status_of(caller_error(SubscriptionError::SessionNotRegistered)) == 404,
        status_of(caller_error(SubscriptionError::OwnerClientLimitExceeded { limit })) == 429,
        status_of(SessionError::TokenLimitExceeded(limit, count)) == 400,
        status_of(SessionError::TokenListNotFound(url)) == 400,
        status_of(SessionError::TokenListUrlNotAllowed(url, reason)) == 400,
{
}

/// Every failed session request is answered with 404, 400 or 429: the first
/// where there is no such session, the last where there are too many clients or
/// sessions, and the second in all other cases.
pub proof fn law_failures_have_one_of_three_statuses(error: SessionError)
    ensures
        status_of(error) == 404 <==> error is SessionIsNotCreated,
        status_of(error) == 429 <==> error is OwnerClientLimitExceeded || error is TooManyClients,
        status_of(error) == 404 || status_of(error) == 429 || status_of(error) == 400,
{
}

/// The status of an error is that of its kind, and its message says the kind and
/// then what it is about.
pub proof fn law_message_names_the_kind(text: String)
    ensures
        AppError::NotFound(text).code() == 404,
        AppError::BadRequest(text).code() == 400,
        AppError::TooManyRequests(text).code() == 429,
        AppError::NotFound(text).detail() == text@,
        AppError::BadRequest(text).detail() == text@,
        AppError::TooManyRequests(text).detail() == text@,
        AppError::NotFound(text).message() == "Not found: "@ + text@,
        AppError::BadRequest(text).message() == "Bad request: "@ + text@,
        AppError::TooManyRequests(text).message() == "Too many requests: "@ + text@,
{
}

} // verus!
