//! Errors that several services share, with the text each one shows.
use crate::text::joined;
use vstd::prelude::*;
use vstd::string::*;

verus! {

#[derive(Debug)]
pub enum ServiceError {
    BalancesMultiCallError(String),
    ErrorToSend(String),
    ErrorInitWsProvider(String),
}

impl ServiceError {
    pub open spec fn message(self) -> Seq<char> {
        match self {
            ServiceError::BalancesMultiCallError(e) => "Error getting balances from multicall: "@
                + e@,
            ServiceError::ErrorToSend(e) => "Error to send data via tx: "@ + e@,
            ServiceError::ErrorInitWsProvider(e) => "Error when init the ws provider: "@ + e@,
        }
    }

    pub fn to_text(&self) -> (text: String)
        ensures
            text@ == self.message(),
    {
        match self {
            ServiceError::BalancesMultiCallError(e) => joined(
                "Error getting balances from multicall: ",
                e.as_str(),
            ),
            ServiceError::ErrorToSend(e) => joined("Error to send data via tx: ", e.as_str()),
            ServiceError::ErrorInitWsProvider(e) => joined(
                "Error when init the ws provider: ",
                e.as_str(),
            ),
        }
    }
}

#[derive(Clone, Copy, Debug, PartialEq, Eq, Structural)]
pub enum SubscriptionError {
    TooManySubscriptions,
    ThereArentCreatedSubscriptions,
}

impl SubscriptionError {
    pub open spec fn message(self) -> Seq<char> {
        match self {
            SubscriptionError::TooManySubscriptions => "Too many subscriptions"@,
            SubscriptionError::ThereArentCreatedSubscriptions =>
                "There aren't created subscriptions"@,
        }
    }

    pub fn to_text(&self) -> (text: String)
        ensures
            text@ == self.message(),
    {
        match self {
            SubscriptionError::TooManySubscriptions => String::from_str("Too many subscriptions"),
            SubscriptionError::ThereArentCreatedSubscriptions => String::from_str(
                "There aren't created subscriptions",
            ),
        }
    }
}

#[derive(Debug)]
pub enum FetcherError {
    /// The list at this URL could not be loaded, for this reason.
    UnableToLoadList(String, String),
}

impl FetcherError {
    pub open spec fn message(self) -> Seq<char> {
        match self {
            FetcherError::UnableToLoadList(url, error) => "Unable to load token list, url: "@
                + url@ + ", error: "@ + error@,
        }
    }

    pub fn to_text(&self) -> (text: String)
        ensures
            text@ == self.message(),
    {
        match self {
            FetcherError::UnableToLoadList(url, error) => {
                let mut text = joined("Unable to load token list, url: ", url.as_str());
                text.append(", error: ");
                text.append(error.as_str());
                text
            },
        }
    }
}

} // verus!
