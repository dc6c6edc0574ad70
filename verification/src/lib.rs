//! Planning, filtering and encoding logic for converting nested solid 7z archives.

pub mod archive;
pub mod bench;
pub mod cli;
pub mod cli_laws;
pub mod codec;
pub mod convert;
pub mod error;
pub mod filter;
pub mod pipeline;
pub mod util;
