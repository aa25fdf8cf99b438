use vstd::prelude::*;

verus! {

/// How results are shown.
#[derive(Debug, Copy, Clone, PartialEq, Eq, Structural, PartialOrd, Ord)]
pub enum Format {
    Json,
    Megabit,
    Megabyte,
}

impl Format {
    /// The name under which the format is shown.
    pub fn to_string(&self) -> (r: String)
        ensures
            r@ == (match *self {
                Format::Json => "json"@,
                Format::Megabit => "megabit/sec"@,
                Format::Megabyte => "megabyte/sec"@,
            }),
    {
        match self {
            Format::Json => "json".to_owned(),
            Format::Megabit => "megabit/sec".to_owned(),
            Format::Megabyte => "megabyte/sec".to_owned(),
        }
    }
}

impl Default for Format {
    fn default() -> (r: Format)
        ensures
            r == Format::Json,
    {
        Format::Json
    }
}

/// How much is logged.
#[derive(Debug, Copy, Clone, PartialEq, Eq, Structural, PartialOrd, Ord)]
pub enum ArgVerbosity {
    Off,
    Error,
    Warn,
    Info,
    Debug,
    Trace,
}

impl ArgVerbosity {
    /// The name of the level, as log filters write it.
    pub fn to_string(&self) -> (r: String)
        ensures
            r@ == (match *self {
                ArgVerbosity::Off => "off"@,
                ArgVerbosity::Error => "error"@,
                ArgVerbosity::Warn => "warn"@,
                ArgVerbosity::Info => "info"@,
                ArgVerbosity::Debug => "debug"@,
                ArgVerbosity::Trace => "trace"@,
            }),
    {
        match self {
            ArgVerbosity::Off => "off".to_owned(),
            ArgVerbosity::Error => "error".to_owned(),
            ArgVerbosity::Warn => "warn".to_owned(),
            ArgVerbosity::Info => "info".to_owned(),
            ArgVerbosity::Debug => "debug".to_owned(),
            ArgVerbosity::Trace => "trace".to_owned(),
        }
    }
}

impl Default for ArgVerbosity {
    fn default() -> (r: ArgVerbosity)
        ensures
            r == ArgVerbosity::Info,
    {
        ArgVerbosity::Info
    }
}

} // verus!
