//! Helpers shared by the other modules.

pub mod auto_threads;
pub mod cleanup;
pub mod order;
pub mod path_laws;
pub mod pathnorm;
pub mod size_parse;
pub mod text;
pub mod textpath;
