//! Command-line options of the agent, as plain values.  The actual flag
//! and environment parsing stays outside and fills this in.

use vstd::prelude::*;

verus! {

/// How log lines are rendered.
#[derive(Clone, Copy, Debug, PartialEq, Eq, Structural)]
pub enum LogFormat {
    Pretty,
    Json,
}

/// The configuration format named on the command line.
#[derive(Clone, Copy, Debug, PartialEq, Eq, Structural)]
pub enum ConfigFormat {
    Json,
    Yaml,
    Toml,
    Auto,
}

impl ConfigFormat {
    /// The configuration-loader format this option stands for.
    pub fn to_parse_format(self) -> (r: crate::parse::ConfigFormat)
        ensures
            self == ConfigFormat::Json ==> r == crate::parse::ConfigFormat::Json,
            self == ConfigFormat::Yaml ==> r == crate::parse::ConfigFormat::Yaml,
            self == ConfigFormat::Toml ==> r == crate::parse::ConfigFormat::Toml,
            self == ConfigFormat::Auto ==> r == crate::parse::ConfigFormat::Auto,
    {
        match self {
            ConfigFormat::Json => crate::parse::ConfigFormat::Json,
            ConfigFormat::Yaml => crate::parse::ConfigFormat::Yaml,
            ConfigFormat::Toml => crate::parse::ConfigFormat::Toml,
            ConfigFormat::Auto => crate::parse::ConfigFormat::Auto,
        }
    }
}

/// The agent's command-line options.
#[derive(Clone, Debug)]
pub struct Args {
    /// Log output format.
    pub log_format: LogFormat,
    /// Config file format.
    pub config_format: ConfigFormat,
    /// Configuration file path.
    pub config_file: String,
}

} // verus!
