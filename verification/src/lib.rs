//! A fortune-corpus engine: it resolves source paths into a canonical file
//! list, cuts `%`-delimited files into records, filters records by a text
//! pattern, and selects one record at random, reproducibly under a seed.
//!
//! The engine lives in [`paths`], [`lines`], [`fortune`], [`pattern`],
//! [`select`], [`config`] and [`engine`]. Beside it stand helpers that other
//! command-line tools share: [`decimal`] and [`calendar`] read and write
//! numbers and months, [`mode`] renders permission bits, and [`count`] counts
//! the lines, words, bytes and characters of a text.

pub mod calendar;
pub mod config;
pub mod count;
pub mod decimal;
pub mod engine;
pub mod fortune;
pub mod lines;
pub mod mode;
pub mod paths;
pub mod pattern;
pub mod select;
