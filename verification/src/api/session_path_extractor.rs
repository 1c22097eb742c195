//! The chain and the owner that a session's path names.
use crate::api::chain_extractor::{not_served, not_served_message};
use crate::app_error::AppError;
use crate::domain::evm_network::EvmNetwork;
use crate::domain::primitives::Address;
use crate::text::joined;
use vstd::prelude::*;

verus! {

/// A chain and an owner, of which the chain is the served one.
#[derive(Clone, Copy, Debug, PartialEq, Eq, Structural)]
pub struct SessionPath(pub EvmNetwork, pub Address);

impl SessionPath {
    /// Takes what the path was read as, or why it could not be.
    pub fn from_request_parts(
        parsed: Result<(EvmNetwork, Address), String>,
        served: EvmNetwork,
    ) -> (outcome: Result<SessionPath, AppError>)
        ensures
            match parsed {
                Err(reason) => outcome matches Err(error) && error.code() == 400 && error.detail()
                    == "invalid path: "@ + reason@,
                Ok((network, owner)) => if network == served {
                    outcome == Ok::<SessionPath, AppError>(SessionPath(network, owner))
                } else {
                    outcome matches Err(error) && error.code() == 404 && error.detail()
                        == not_served_message(network, served)
                },
            },
    {
        match parsed {
            Err(reason) => Err(AppError::BadRequest(joined("invalid path: ", reason.as_str()))),
            Ok((network, owner)) => if network == served {
                Ok(SessionPath(network, owner))
            } else {
                Err(not_served(network, served))
            },
        }
    }
}

} // verus!
