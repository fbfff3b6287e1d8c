//! Analysis rules, output and session settings, and the choice of configuration format.

use vstd::prelude::*;
use crate::error::LogAnalyzerError;
use crate::models::LogLevel;
use crate::text::str_equals;

verus! {

/// Default number of worker tasks.
pub fn default_workers() -> (n: usize)
    ensures
        n == 4,
{
    4
}

/// Default anomaly-detection window, in seconds.
pub fn default_time_window() -> (n: u64)
    ensures
        n == 60,
{
    60
}

/// Default number of errors per window above which an error spike is reported.
pub fn default_error_threshold() -> (n: u32)
    ensures
        n == 10,
{
    10
}

/// Default rule priority.
pub fn default_priority() -> (n: u32)
    ensures
        n == 100,
{
    100
}

/// Rules are enabled unless said otherwise.
pub fn default_enabled() -> (b: bool)
    ensures
        b,
{
    true
}

/// The default of the output switches.
pub fn default_true() -> (b: bool)
    ensures
        b,
{
    true
}

/// Default session timeout, in seconds.
pub fn default_session_timeout() -> (n: u64)
    ensures
        n == 3600,
{
    3600
}

/// Default maximum number of sessions.
pub fn default_max_sessions() -> (n: usize)
    ensures
        n == 10,
{
    10
}

/// An analysis rule.
#[derive(Clone, Debug)]
pub struct Rule {
    /// Unique identifier.
    pub id: String,
    /// Name or description.
    pub name: String,
    /// When the rule applies.
    pub condition: RuleCondition,
    /// Log format pattern.
    pub log_format: Option<String>,
    /// What happens when the rule applies.
    pub action: RuleAction,
    /// Priority (lower number = higher priority).
    pub priority: u32,
    /// Whether the rule is in force.
    pub enabled: bool,
}

/// When a rule applies to an entry.
#[derive(Clone, Debug)]
pub enum RuleCondition {
    /// The entry has this level.
    Level(LogLevel),
    /// The message or raw line contains this keyword, ignoring case.
    Keyword(String),
    /// The entry has this source.
    Source(String),
    /// The message or raw line matches this regular expression.
    Pattern(String),
    /// An error-count threshold over a time window; applies to every error entry.
    ErrorThreshold { count: u32, window_seconds: u64 },
    /// Every entry.
    All,
}

/// What a rule does when it applies.
#[derive(Clone, Debug)]
pub enum RuleAction {
    /// Count the entry (statistics already do).
    Count,
    /// Raise an anomaly of the named severity.
    Warn { severity: String },
    /// Skip the remaining rules.
    Ignore,
    /// Tag the entry.
    Tag { tags: Vec<String> },
    /// Forward the entry to an endpoint.
    Forward { endpoint: String },
}

/// Report output formats.
#[derive(Clone, Copy, Debug, PartialEq, Eq, Structural)]
pub enum ReportFormat {
    Json,
    Text,
    Csv,
}

impl Default for ReportFormat {
    fn default() -> (f: Self)
        ensures
            f == ReportFormat::Json,
    {
        ReportFormat::Json
    }
}

/// Output settings.
#[derive(Clone, Debug)]
pub struct OutputConfig {
    /// Print to the console.
    pub console: bool,
    /// Path of a report file.
    pub report_file: Option<String>,
    /// Report format.
    pub report_format: ReportFormat,
    /// Real-time updates in the terminal interface.
    pub realtime: bool,
}

impl Default for OutputConfig {
    fn default() -> (c: Self)
        ensures
            c.console,
            c.report_file is None,
            c.report_format == ReportFormat::Json,
            c.realtime,
    {
        OutputConfig { console: true, report_file: None, report_format: ReportFormat::default(), realtime: true }
    }
}

/// Session settings.
#[derive(Clone, Debug)]
pub struct SessionConfig {
    /// Session timeout in seconds.
    pub timeout_seconds: u64,
    /// Maximum number of sessions.
    pub max_sessions: usize,
    /// Whether sessions are persisted to disk.
    pub persist: bool,
    /// Directory for stored sessions.
    pub storage_dir: Option<String>,
}

impl Default for SessionConfig {
    fn default() -> (c: Self)
        ensures
            c.timeout_seconds == 3600,
            c.max_sessions == 10,
            !c.persist,
            c.storage_dir is None,
    {
        SessionConfig {
            timeout_seconds: default_session_timeout(),
            max_sessions: default_max_sessions(),
            persist: false,
            storage_dir: None,
        }
    }
}

/// The formats in which a configuration file can be read and written.
#[derive(Clone, Copy, Debug, PartialEq, Eq, Structural)]
pub enum ConfigFormat {
    Json,
    Toml,
}

/// What `format!("{:?}", ext)` prints for an optional file extension.
pub uninterp spec fn debug_text_of(ext: Option<Seq<char>>) -> Seq<char>;

/// The characters of an optional string slice.
pub open spec fn opt_str_chars(ext: Option<&str>) -> Option<Seq<char>> {
    match ext {
        Some(e) => Some(e@),
        None => None,
    }
}

/// Calls `format!("{:?}", ext)`: the `Debug` rendering of an `Option<&str>`,
/// named `debug_text_of`.
#[verifier::external_body]
fn debug_text(ext: Option<&str>) -> (s: String)
    ensures
        s@ == debug_text_of(opt_str_chars(ext)),
{
    format!("{:?}", ext)
}

/// The extension is the given literal.
pub open spec fn ext_is(ext: Option<&str>, lit: Seq<char>) -> bool {
    ext matches Some(e) && e@ == lit
}

pub open spec fn json_ext() -> Seq<char> { seq!['j', 's', 'o', 'n'] }
pub open spec fn toml_ext() -> Seq<char> { seq!['t', 'o', 'm', 'l'] }
pub open spec fn yaml_ext() -> Seq<char> { seq!['y', 'a', 'm', 'l'] }
pub open spec fn yml_ext() -> Seq<char> { seq!['y', 'm', 'l'] }

fn ext_equals(ext: Option<&str>, lit: &str) -> (r: bool)
    ensures
        r == (ext matches Some(e) && e@ == lit@),
{
    match ext {
        Some(e) => str_equals(e, lit),
        None => false,
    }
}

impl ConfigFormat {
    /// The format in which a configuration file with extension `ext` is read:
    /// "json" and "toml" are read; "yaml"/"yml" and every other extension are refused.
    pub fn for_loading(ext: Option<&str>) -> (r: Result<ConfigFormat, LogAnalyzerError>)
        ensures
            ext_is(ext, json_ext()) ==> r == Ok::<ConfigFormat, LogAnalyzerError>(ConfigFormat::Json),
            ext_is(ext, toml_ext()) ==> r == Ok::<ConfigFormat, LogAnalyzerError>(ConfigFormat::Toml),
            (ext_is(ext, yaml_ext()) || ext_is(ext, yml_ext())) ==> (r matches Err(LogAnalyzerError::Config(m))
                && m@ == "YAML format requires additional dependencies"@),
            !(ext_is(ext, json_ext()) || ext_is(ext, toml_ext()) || ext_is(ext, yaml_ext()) || ext_is(ext, yml_ext()))
                ==> (r matches Err(LogAnalyzerError::Config(m))
                && m@ == "Unsupported configuration format: "@ + debug_text_of(opt_str_chars(ext))),
    {
        proof {
            reveal_strlit("json");
            reveal_strlit("toml");
            reveal_strlit("yaml");
            reveal_strlit("yml");
            assert("json"@ =~= json_ext());
            assert("toml"@ =~= toml_ext());
            assert("yaml"@ =~= yaml_ext());
            assert("yml"@ =~= yml_ext());
        }
        if ext_equals(ext, "json") {
            Ok(ConfigFormat::Json)
        } else if ext_equals(ext, "toml") {
            Ok(ConfigFormat::Toml)
        } else if ext_equals(ext, "yaml") || ext_equals(ext, "yml") {
            Err(LogAnalyzerError::Config(String::from_str("YAML format requires additional dependencies")))
        } else {
            let msg = String::from_str("Unsupported configuration format: ");
            let shown = debug_text(ext);
            Err(LogAnalyzerError::Config(msg.concat(shown.as_str())))
        }
    }

    /// The format in which a configuration file with extension `ext` is written:
    /// "json" and "toml"; every other extension is refused.
    pub fn for_saving(ext: Option<&str>) -> (r: Result<ConfigFormat, LogAnalyzerError>)
        ensures
            ext_is(ext, json_ext()) ==> r == Ok::<ConfigFormat, LogAnalyzerError>(ConfigFormat::Json),
            ext_is(ext, toml_ext()) ==> r == Ok::<ConfigFormat, LogAnalyzerError>(ConfigFormat::Toml),
            !(ext_is(ext, json_ext()) || ext_is(ext, toml_ext())) ==> (r matches Err(LogAnalyzerError::Config(m))
                && m@ == "Unsupported configuration format"@),
    {
        proof {
            reveal_strlit("json");
            reveal_strlit("toml");
            assert("json"@ =~= json_ext());
            assert("toml"@ =~= toml_ext());
        }
        if ext_equals(ext, "json") {
            Ok(ConfigFormat::Json)
        } else if ext_equals(ext, "toml") {
            Ok(ConfigFormat::Toml)
        } else {
            Err(LogAnalyzerError::Config(String::from_str("Unsupported configuration format")))
        }
    }
}

} // verus!
