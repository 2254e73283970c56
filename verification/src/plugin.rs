//! The pluggable pieces of the pipeline: file-name handling, sinks,
//! rotation predicates, retention policies and packers.

pub mod console;
pub mod file;
pub mod file_daily;
pub mod file_loop;
pub mod file_name;
pub mod file_rotate;
pub mod keep;
pub mod file_split;
pub mod packer;
