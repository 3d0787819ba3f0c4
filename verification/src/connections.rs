//! Connection types.

use vstd::prelude::*;

verus! {

/// How much a component logs.
#[derive(Clone, Copy, Debug, PartialEq, Eq, Structural, Hash)]
pub enum LogLevel {
    Trace,
    Debug,
    Info,
    Warn,
    Error,
}

/// A prefix for the external id of an AWS role assumption. It is set by the
/// operator of the service, never by a user of it.
#[derive(Debug, Clone)]
pub struct AwsExternalIdPrefix(pub String);

/// A piece of text that is either written out or kept as a secret under an
/// id.
#[derive(Clone, Debug)]
pub enum StringOrSecret {
    String(String),
    Secret(String),
}

impl StringOrSecret {
    /// The text, where it is written out; nothing where it is kept as a
    /// secret and has to be read from where secrets are kept.
    pub fn inline_string(&self) -> (r: Option<String>)
        ensures
            match *self {
                StringOrSecret::String(text) => r matches Some(s) && s@ == text@,
                StringOrSecret::Secret(_) => r is None,
            },
    {
        match self {
            StringOrSecret::String(text) => Some(text.clone()),
            StringOrSecret::Secret(_) => None,
        }
    }
}

/// Extra context to pass through when instantiating a connection for a
/// source or sink.
///
/// Should be kept cheaply cloneable.
#[derive(Debug, Clone)]
pub struct ConnectionContext {
    /// The level for librdkafka's logs.
    pub librdkafka_log_level: LogLevel,
    /// A prefix for an external ID to use for all AWS AssumeRole operations.
    pub aws_external_id_prefix: Option<AwsExternalIdPrefix>,
}

impl ConnectionContext {
    /// Constructs a new connection context from what the command line gave:
    /// the level at which librdkafka is to log, and the prefix for external
    /// ids, if one was given.
    ///
    /// It is critical for security that the prefix be provided by the
    /// operator of the service and not by an end user.
    pub fn from_cli_args(librdkafka_log_level: LogLevel, aws_external_id_prefix: Option<String>) -> (context:
        ConnectionContext)
        ensures
            context.librdkafka_log_level == librdkafka_log_level,
            match aws_external_id_prefix {
                Some(prefix) => context.aws_external_id_prefix matches Some(p) && p.0 == prefix,
                None => context.aws_external_id_prefix is None,
            },
    {
        ConnectionContext {
            librdkafka_log_level,
            aws_external_id_prefix: match aws_external_id_prefix {
                Some(prefix) => Some(AwsExternalIdPrefix(prefix)),
                None => None,
            },
        }
    }
}

impl Default for ConnectionContext {
    fn default() -> (context: ConnectionContext)
        ensures
            context.librdkafka_log_level == LogLevel::Info,
            context.aws_external_id_prefix is None,
    {
        ConnectionContext { librdkafka_log_level: LogLevel::Info, aws_external_id_prefix: None }
    }
}

} // verus!
