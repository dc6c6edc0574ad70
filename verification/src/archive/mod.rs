//! Archives: formats, members, and what a backend does.

pub mod backend_laws;
pub mod commands;
pub mod detect;
pub mod listing_laws;
pub mod native;
pub mod sevenz;
pub mod types;
