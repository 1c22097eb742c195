use crate::app_error::AppError;
use crate::domain::primitives::Address;
use crate::domain::session::Session;
use crate::services::session_manager::SessionContext;
use vstd::prelude::*;
use vstd::string::*;

verus! {

/// What a new session is to watch.
#[derive(Debug)]
pub struct CreateSessionRequest {
    /// Where token lists are to be fetched from.
    pub tokens_lists_urls: Vec<String>,
    /// Tokens besides those of the lists.
    pub custom_tokens: Vec<Address>,
}

/// A request that names no list and no token is refused.
pub fn create_session(session: Session, body: CreateSessionRequest) -> (outcome: Result<
    SessionContext,
    AppError,
>)
    ensures
        if body.tokens_lists_urls@.len() == 0 && body.custom_tokens@.len() == 0 {
            outcome matches Err(error) && error.code() == 400 && error.detail()
                == "tokens_lists_urls or custom_tokens should not be empty both"@
        } else {
            outcome == Ok::<SessionContext, AppError>(
                SessionContext {
                    session,
                    custom_tokens: body.custom_tokens,
                    tokens_lists_urls: body.tokens_lists_urls,
                },
            )
        },
{
    if body.tokens_lists_urls.len() == 0 && body.custom_tokens.len() == 0 {
        return Err(
            AppError::BadRequest(
                String::from_str("tokens_lists_urls or custom_tokens should not be empty both"),
            ),
        );
    }
    Ok(
        SessionContext {
            session,
            custom_tokens: body.custom_tokens,
            tokens_lists_urls: body.tokens_lists_urls,
        },
    )
}

} // verus!
