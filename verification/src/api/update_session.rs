use crate::app_error::AppError;
use crate::domain::primitives::Address;
use crate::domain::session::Session;
use crate::services::session_manager::{SessionContext, SessionManager};
use vstd::prelude::*;
use vstd::string::*;

verus! {

/// What a session is to watch from now on, in place of what it did.
#[derive(Debug)]
pub struct UpdateSessionRequest {
    pub tokens_lists_urls: Vec<String>,
    pub custom_tokens: Vec<Address>,
}

/// A request that names no list and no token is refused, and so is one for a
/// session that was not created.
pub fn update_session(
    manager: &SessionManager,
    session: Session,
    body: UpdateSessionRequest,
) -> (outcome: Result<SessionContext, AppError>)
    ensures
        if body.tokens_lists_urls@.len() == 0 && body.custom_tokens@.len() == 0 {
            outcome matches Err(error) && error.code() == 400 && error.detail()
                == "tokens_lists_urls && custom_tokens are empty"@
        } else if !manager.sub_manager@.dom().contains(session) {
            outcome matches Err(error) && error.code() == 404 && error.detail()
                == "Session is not created"@
        } else {
            outcome == Ok::<SessionContext, AppError>(
                SessionContext {
                    session,
                    custom_tokens: body.custom_tokens,
                    tokens_lists_urls: body.tokens_lists_urls,
                },
            )
        },
{
    if body.custom_tokens.len() == 0 && body.tokens_lists_urls.len() == 0 {
        return Err(
            AppError::BadRequest(String::from_str("tokens_lists_urls && custom_tokens are empty")),
        );
    }
    match manager.check_update(&session) {
        Err(error) => Err(AppError::from(error)),
        Ok(_) => Ok(
            SessionContext {
                session,
                custom_tokens: body.custom_tokens,
                tokens_lists_urls: body.tokens_lists_urls,
            },
        ),
    }
}

} // verus!
