//! Encoding: 7z headers, outer containers and LZMA2 streams.

pub mod archive_laws;
pub mod bytes;
pub mod checksum;
pub mod header_laws;
pub mod header_reader;
pub mod lzma2;
pub mod outer;
pub mod outer_laws;
pub mod sevenz_header;
pub mod writer;
