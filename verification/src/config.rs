//! The configuration of one run: source paths, an optional search pattern
//! and an optional seed, validated once.

use vstd::prelude::*;
use vstd::string::*;
use crate::decimal::{parsed_int, parse_bounded};
use crate::pattern::{SearchPattern, pattern_compiles};

verus! {

/// Why a configuration was refused; each variant echoes the offending input.
#[derive(Debug, Clone)]
pub enum ConfigError {
    /// The pattern is no valid regular expression.
    InvalidPattern(String),
    /// The seed is no unsigned 64-bit integer.
    InvalidSeed(String),
    /// No source path was given.
    MissingSource,
}

impl ConfigError {
    /// The error as text, with the offending input echoed.
    pub fn message(&self) -> (text: String)
        ensures
            text@ == match *self {
                ConfigError::InvalidPattern(input) => "Invalid --pattern "@ + input@,
                ConfigError::InvalidSeed(input) => "\""@ + input@ + "\" not a valid integer"@,
                ConfigError::MissingSource => "at least one source is required"@,
            },
    {
        match self {
            ConfigError::InvalidPattern(input) => String::from_str("Invalid --pattern ").concat(
                input.as_str(),
            ),
            ConfigError::InvalidSeed(input) => String::from_str("\"").concat(
                input.as_str(),
            ).concat("\" not a valid integer"),
            ConfigError::MissingSource => String::from_str("at least one source is required"),
        }
    }
}

/// Reads an unsigned 64-bit integer, or reports the input as no valid seed.
pub fn parse_u64(val: &str) -> (result: Result<u64, ConfigError>)
    ensures
        match result {
            Ok(value) => parsed_u64(val@) == Some(value),
            Err(error) => parsed_u64(val@) is None && error is InvalidSeed
                && error->InvalidSeed_0@ == val@,
        },
{
    match parse_bounded(val, 0, 0xffff_ffff_ffff_ffff) {
        Some(value) => Ok(value as u64),
        None => Err(ConfigError::InvalidSeed(String::from_str(val))),
    }
}

/// The unsigned 64-bit integer that `text` writes: an optional plus sign and
/// then one or more decimal digits whose value fits; nothing otherwise.
pub open spec fn parsed_u64(text: Seq<char>) -> Option<u64> {
    match parsed_int(text, 0, u64::MAX as int) {
        Some(value) => Some(value as u64),
        None => None,
    }
}

/// One run's configuration.
#[derive(Debug)]
pub struct Config {
    pub sources: Vec<String>,
    pub pattern: Option<SearchPattern>,
    pub seed: Option<u64>,
}

impl Config {
    /// Validates the raw arguments: the sources first, then the pattern,
    /// then the seed.
    ///
    /// It succeeds exactly when a source is given, the pattern, if given,
    /// compiles, and the seed, if given, writes an unsigned 64-bit integer.
    pub fn build(
        sources: Vec<String>,
        pattern: Option<&str>,
        insensitive: bool,
        seed: Option<&str>,
    ) -> (result: Result<Config, ConfigError>)
        ensures
            match result {
                Ok(config) => {
                    &&& sources@.len() > 0
                    &&& config.sources == sources
                    &&& match pattern {
                        Some(text) => pattern_compiles(text@, insensitive) && config.pattern is Some
                            && config.pattern.unwrap().text() == text@
                            && config.pattern.unwrap().is_insensitive() == insensitive,
                        None => config.pattern is None,
                    }
                    &&& match seed {
                        Some(text) => parsed_u64(text@) is Some && config.seed == parsed_u64(text@),
                        None => config.seed is None,
                    }
                },
                Err(ConfigError::MissingSource) => sources@.len() == 0,
                Err(ConfigError::InvalidPattern(input)) => sources@.len() > 0 && pattern is Some
                    && input@ == pattern.unwrap()@ && !pattern_compiles(input@, insensitive),
                Err(ConfigError::InvalidSeed(input)) => {
                    &&& sources@.len() > 0
                    &&& pattern is Some ==> pattern_compiles(pattern.unwrap()@, insensitive)
                    &&& seed is Some && input@ == seed.unwrap()@ && parsed_u64(input@) is None
                },
            },
    {
        if sources.len() == 0 {
            return Err(ConfigError::MissingSource);
        }
        let compiled = match pattern {
            Some(text) => match SearchPattern::new(text, insensitive) {
                Ok(made) => Some(made),
                Err(error) => {
                    return Err(error);
                },
            },
            None => None,
        };
        let value = match seed {
            Some(text) => match parse_u64(text) {
                Ok(number) => Some(number),
                Err(error) => {
                    return Err(error);
                },
            },
            None => None,
        };
        Ok(Config { sources, pattern: compiled, seed: value })
    }
}

} // verus!
