//! Turns laboratory run logs (a header line, then `run,ramp,vped` records)
//! into calibration file lists: one list of every run's calibration file, and
//! one transfer-function list per calibration group, where a group ends at
//! each run after which the vped does not rise.
//!
//! `text` splits text into lines and fields, `number` reads and writes decimal
//! numbers, `log` parses a log into its tables, and `output` names and renders
//! the lists.

pub mod log;
pub mod number;
pub mod output;
pub mod text;
