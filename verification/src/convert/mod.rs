//! Conversion profiles.

pub mod context;
pub mod registry;
pub mod run_laws;
pub mod sevenz_nonsolid;
