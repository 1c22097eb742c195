//! Tunables of the service.
pub mod constants;
pub mod back_off_config;
pub mod network_config;
pub mod ws_pool_config;
