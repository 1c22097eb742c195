//! Rules of a service that watches token balances of wallets on one EVM chain
//! and streams their changes to subscribers.
pub mod api;
pub mod app_error;
pub mod args;
pub mod collections;
pub mod config;
pub mod domain;
pub mod evm;
pub mod services;
pub mod text;
