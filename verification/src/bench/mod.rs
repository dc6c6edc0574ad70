//! Measuring the conversion: fixtures, runs by hand with the 7z program, and reports.

pub mod baseline;
pub mod bench_laws;
pub mod fixtures;
pub mod manual;
pub mod report;
pub mod schedule;
pub mod tables;
