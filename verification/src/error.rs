//! Errors of the log analyzer.

use vstd::prelude::*;

verus! {

/// What can go wrong in the log analyzer; each variant carries its message.
#[derive(Debug, Clone)]
pub enum LogAnalyzerError {
    /// An input/output operation failed.
    Io(String),
    /// The configuration is missing, malformed or unsupported.
    Config(String),
    /// Text could not be parsed.
    Parse(String),
    /// A session could not be found or handled.
    Session(String),
    /// A channel failed.
    Channel(String),
    /// A file does not exist or is not monitored.
    FileNotFound(String),
    /// A log line has an invalid format.
    InvalidLogFormat(String),
    /// Anomaly detection could not proceed.
    AnomalyDetection(String),
}

} // verus!
