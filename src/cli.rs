use vstd::prelude::*;

verus! {

/// Which task logs are shown.
#[derive(Clone, Copy, Debug, PartialEq, Eq, Structural)]
pub enum OutputLogsMode {
    Full,
    /// No logs at all.
    NoOutput,
    HashOnly,
    NewOnly,
    ErrorsOnly,
}

impl Default for OutputLogsMode {
    fn default() -> (r: Self)
        ensures
            r == OutputLogsMode::Full,
    {
        OutputLogsMode::Full
    }
}

/// How the logs of concurrent tasks are interleaved.
#[derive(Clone, Copy, Debug, PartialEq, Eq, Structural)]
pub enum LogOrder {
    Auto,
    Stream,
    Grouped,
}

impl Default for LogOrder {
    fn default() -> (r: Self)
        ensures
            r == LogOrder::Auto,
    {
        LogOrder::Auto
    }
}

/// The output format of a dry run.
#[derive(Clone, Copy, Debug, PartialEq, Eq, Structural)]
pub enum DryRunMode {
    Text,
    Json,
}

/// How environment variables reach tasks.
#[derive(Clone, Copy, Debug, PartialEq, Eq, Structural)]
pub enum EnvMode {
    Infer,
    Loose,
    Strict,
}

impl Default for EnvMode {
    fn default() -> (r: Self)
        ensures
            r == EnvMode::Infer,
    {
        EnvMode::Infer
    }
}

/// The verbosity given either as a level or as a count of `-v` flags.
#[derive(Clone, Copy, Debug, PartialEq, Eq, Structural)]
pub struct Verbosity {
    pub verbosity: Option<u8>,
    pub v: u8,
}

impl Verbosity {
    /// The effective level: the explicit level where one was given, else the
    /// number of `-v` flags.
    pub fn level(&self) -> (r: u8)
        ensures
            r == match self.verbosity {
                Some(l) => l,
                None => self.v,
            },
    {
        match self.verbosity {
            Some(l) => l,
            None => self.v,
        }
    }
}

/// Commands for the background daemon.
#[derive(Clone, Copy, Debug, PartialEq, Eq, Structural)]
pub enum DaemonCommand {
    Restart,
    Start,
    Status { json: bool },
    Stop,
    Clean,
}

/// Commands for anonymous telemetry.
#[derive(Clone, Copy, Debug, PartialEq, Eq, Structural)]
pub enum TelemetryCommand {
    Enable,
    Disable,
    Status,
}

/// What a repository can be linked to.
#[derive(Clone, Copy, Debug, PartialEq, Eq, Structural)]
pub enum LinkTarget {
    RemoteCache,
    Spaces,
}

/// Which prefix task log lines carry.
#[derive(Clone, Copy, Debug, PartialEq, Eq, Structural)]
pub enum LogPrefix {
    Auto,
    /// Log lines without a prefix.
    NoPrefix,
    Task,
}

impl Default for LogPrefix {
    fn default() -> (r: Self)
        ensures
            r == LogPrefix::Auto,
    {
        LogPrefix::Auto
    }
}

} // verus!
