//! What is made of requests before the service acts on them.
pub mod chain_extractor;
pub mod client_id_extractor;
pub mod create_session;
pub mod health;
pub mod session_path_extractor;
pub mod update_session;
