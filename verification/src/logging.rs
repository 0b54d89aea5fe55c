//! Logging configuration.
use vstd::prelude::*;

verus! {

/// Severity of log events, from the most verbose to the least.
#[derive(Debug, Clone, Copy, PartialEq, Eq, Structural)]
pub enum LogLevel {
    Trace,
    Debug,
    Info,
    Warn,
    Error,
}

/// Log output format.
#[derive(Debug, Clone, Copy, PartialEq, Eq, Structural)]
pub enum LogFormat {
    /// Human-readable format with timestamps.
    Pretty,
    /// Compact format for production.
    Compact,
    /// JSON format for structured logging.
    Json,
}

/// Log output destination.
#[derive(Debug)]
pub enum LogOutput {
    Stdout,
    Stderr,
    /// Files rotated daily in a directory, with a name prefix.
    File { directory: String, prefix: String },
}

/// Model of a [`LogOutput`].
pub enum SLogOutput {
    Stdout,
    Stderr,
    File(Seq<char>, Seq<char>),
}

impl View for LogOutput {
    type V = SLogOutput;

    open spec fn view(&self) -> SLogOutput {
        match self {
            LogOutput::Stdout => SLogOutput::Stdout,
            LogOutput::Stderr => SLogOutput::Stderr,
            LogOutput::File { directory, prefix } => SLogOutput::File(directory@, prefix@),
        }
    }
}

impl Clone for LogOutput {
    fn clone(&self) -> (r: Self)
        ensures
            r@ == self@,
    {
        match self {
            LogOutput::Stdout => LogOutput::Stdout,
            LogOutput::Stderr => LogOutput::Stderr,
            LogOutput::File { directory, prefix } => LogOutput::File {
                directory: directory.clone(),
                prefix: prefix.clone(),
            },
        }
    }
}

/// Logging configuration.
#[derive(Debug)]
pub struct LogConfig {
    /// Minimum level logged.
    pub level: LogLevel,
    pub format: LogFormat,
    pub output: LogOutput,
    /// Whether span events are logged.
    pub span_events: bool,
    /// Filter directives, such as `typthon=debug,hyper=info`.
    pub filter: Option<String>,
}

/// Model of a [`LogConfig`].
pub struct SLogConfig {
    pub level: LogLevel,
    pub format: LogFormat,
    pub output: SLogOutput,
    pub span_events: bool,
    pub filter: Option<Seq<char>>,
}

impl View for LogConfig {
    type V = SLogConfig;

    open spec fn view(&self) -> SLogConfig {
        SLogConfig {
            level: self.level,
            format: self.format,
            output: self.output@,
            span_events: self.span_events,
            filter: match self.filter {
                Some(f) => Some(f@),
                None => None,
            },
        }
    }
}

/// The default configuration: pretty `Info` logs to standard error, without span events
/// or filter.
pub open spec fn default_log_config() -> SLogConfig {
    SLogConfig {
        level: LogLevel::Info,
        format: LogFormat::Pretty,
        output: SLogOutput::Stderr,
        span_events: false,
        filter: None,
    }
}

impl Clone for LogConfig {
    fn clone(&self) -> (r: Self)
        ensures
            r@ == self@,
    {
        LogConfig {
            level: self.level,
            format: self.format,
            output: self.output.clone(),
            span_events: self.span_events,
            filter: match &self.filter {
                Some(f) => Some(f.clone()),
                None => None,
            },
        }
    }
}

impl Default for LogConfig {
    fn default() -> (r: Self)
        ensures
            r@ == default_log_config(),
    {
        LogConfig {
            level: LogLevel::Info,
            format: LogFormat::Pretty,
            output: LogOutput::Stderr,
            span_events: false,
            filter: None,
        }
    }
}

impl LogConfig {
    /// The default configuration.
    pub fn new() -> (r: Self)
        ensures
            r@ == default_log_config(),
    {
        Self::default()
    }

    /// The configuration with another minimum level.
    pub fn with_level(self, level: LogLevel) -> (r: Self)
        ensures
            r@ == (SLogConfig { level, ..self@ }),
    {
        let mut c = self;
        c.level = level;
        c
    }

    /// The configuration with another format.
    pub fn with_format(self, format: LogFormat) -> (r: Self)
        ensures
            r@ == (SLogConfig { format, ..self@ }),
    {
        let mut c = self;
        c.format = format;
        c
    }

    /// The configuration with another destination.
    pub fn with_output(self, output: LogOutput) -> (r: Self)
        ensures
            r@ == (SLogConfig { output: output@, ..self@ }),
    {
        let mut c = self;
        c.output = output;
        c
    }

    /// The configuration with span events on or off.
    pub fn with_span_events(self, enabled: bool) -> (r: Self)
        ensures
            r@ == (SLogConfig { span_events: enabled, ..self@ }),
    {
        let mut c = self;
        c.span_events = enabled;
        c
    }

    /// The configuration with filter directives.
    pub fn with_filter(self, filter: &str) -> (r: Self)
        ensures
            r@ == (SLogConfig { filter: Some(filter@), ..self@ }),
    {
        let mut c = self;
        c.filter = Some(String::from_str(filter));
        c
    }
}

/// The configuration for development: debug-level pretty logs to standard error, with
/// span events, for this crate's targets.
pub fn dev_log_config() -> (r: LogConfig)
    ensures
        r@ == (SLogConfig {
            level: LogLevel::Debug,
            format: LogFormat::Pretty,
            output: SLogOutput::Stderr,
            span_events: true,
            filter: Some("typthon=debug"@),
        }),
{
    LogConfig {
        level: LogLevel::Debug,
        format: LogFormat::Pretty,
        output: LogOutput::Stderr,
        span_events: true,
        filter: Some(String::from_str("typthon=debug")),
    }
}

/// The configuration for production: info-level JSON logs to daily files in a directory.
pub fn prod_log_config(log_dir: &str) -> (r: LogConfig)
    ensures
        r@ == (SLogConfig {
            level: LogLevel::Info,
            format: LogFormat::Json,
            output: SLogOutput::File(log_dir@, "typthon"@),
            span_events: false,
            filter: Some("typthon=info,warn"@),
        }),
{
    LogConfig {
        level: LogLevel::Info,
        format: LogFormat::Json,
        output: LogOutput::File {
            directory: String::from_str(log_dir),
            prefix: String::from_str("typthon"),
        },
        span_events: false,
        filter: Some(String::from_str("typthon=info,warn")),
    }
}

} // verus!
