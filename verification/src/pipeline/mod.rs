//! From a listing to a finished output.

pub mod context;
pub mod execute;
pub mod flow_laws;
pub mod plan;
pub mod scheduler;
pub mod staging;
