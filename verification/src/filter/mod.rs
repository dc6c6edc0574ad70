//! Which archive members are kept, and under what names.

pub mod exclude_laws;
pub mod glob;
pub mod keep_laws;
pub mod laws;
pub mod line_laws;
pub mod load;
pub mod member;
pub mod pattern_laws;
pub mod plain;
pub mod regexes;
pub mod rename;
pub mod rsync;
pub mod wild;
