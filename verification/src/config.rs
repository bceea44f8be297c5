//! Application configuration: loading and validation of the four `CODECKS_*` variables,
//! without exposing credential values outside the configuration boundary.
use vstd::prelude::*;
use std::time::Duration;
use crate::text::{chars_of, concat3, str_equal, string_from_chars};

verus! {

pub const ACCOUNT_VARIABLE: &'static str = "CODECKS_ACCOUNT";

pub const TOKEN_VARIABLE: &'static str = "CODECKS_TOKEN";

pub const TIMEOUT_VARIABLE: &'static str = "CODECKS_TIMEOUT_SECONDS";

pub const LOG_LEVEL_VARIABLE: &'static str = "CODECKS_LOG_LEVEL";

/// The request timeout, in seconds, when none is configured.
pub const DEFAULT_TIMEOUT_SECONDS: u64 = 30;

// ---------------------------------------------------------------------------------------------
// Characters and numbers
// ---------------------------------------------------------------------------------------------

/// The characters with the Unicode `White_Space` property.
pub open spec fn is_white_space(c: char) -> bool {
    let u = c as u32;
    ||| 0x09 <= u <= 0x0d
    ||| u == 0x20
    ||| u == 0x85
    ||| u == 0xa0
    ||| u == 0x1680
    ||| 0x2000 <= u <= 0x200a
    ||| u == 0x2028
    ||| u == 0x2029
    ||| u == 0x202f
    ||| u == 0x205f
    ||| u == 0x3000
}

pub fn is_white_space_exec(c: char) -> (white: bool)
    ensures
        white == is_white_space(c),
{
    let u = c as u32;
    (0x09 <= u && u <= 0x0d) || u == 0x20 || u == 0x85 || u == 0xa0 || u == 0x1680 || (0x2000
        <= u && u <= 0x200a) || u == 0x2028 || u == 0x2029 || u == 0x202f || u == 0x205f || u
        == 0x3000
}

/// The number of white-space characters at the start of `s`.
pub open spec fn leading_white(s: Seq<char>) -> nat
    decreases s.len(),
{
    if s.len() > 0 && is_white_space(s[0]) {
        1 + leading_white(s.drop_first())
    } else {
        0
    }
}

/// The number of white-space characters at the end of `s`.
pub open spec fn trailing_white(s: Seq<char>) -> nat
    decreases s.len(),
{
    if s.len() > 0 && is_white_space(s.last()) {
        1 + trailing_white(s.drop_last())
    } else {
        0
    }
}

/// `s` without its leading and trailing white space.
pub open spec fn trimmed(s: Seq<char>) -> Seq<char> {
    let rest = s.skip(leading_white(s) as int);
    rest.take(rest.len() - trailing_white(rest))
}

/// Every character of `s` is white space.
pub open spec fn is_blank(s: Seq<char>) -> bool {
    forall|i: int| 0 <= i < s.len() ==> is_white_space(#[trigger] s[i])
}

pub open spec fn is_ascii_digit(c: char) -> bool {
    '0' <= c && c <= '9'
}

/// The value of a string of decimal digits.
pub open spec fn digits_value(d: Seq<char>) -> nat
    decreases d.len(),
{
    if d.len() == 0 {
        0
    } else {
        digits_value(d.drop_last()) * 10 + ((d.last() as u32) - 48) as nat
    }
}

pub open spec fn all_digits(d: Seq<char>) -> bool {
    forall|i: int| 0 <= i < d.len() ==> is_ascii_digit(#[trigger] d[i])
}

/// The digits of a decimal number: the text after an optional leading `+`.
pub open spec fn unsigned_digits(t: Seq<char>) -> Seq<char> {
    if t.len() > 0 && t[0] == '+' {
        t.drop_first()
    } else {
        t
    }
}

/// An unsigned 64-bit integer written in decimal: an optional `+`, then at least one digit,
/// with a value that fits.
pub open spec fn parsed_u64(t: Seq<char>) -> Option<u64> {
    let d = unsigned_digits(t);
    if d.len() == 0 || !all_digits(d) {
        None
    } else if digits_value(d) > u64::MAX {
        None
    } else {
        Some(digits_value(d) as u64)
    }
}

/// ASCII letters to lowercase; every other character unchanged.
pub open spec fn ascii_lower(c: char) -> char {
    if 'A' <= c && c <= 'Z' {
        ((c as u32) + 32) as char
    } else {
        c
    }
}

pub open spec fn ascii_lowercase(s: Seq<char>) -> Seq<char> {
    s.map_values(|c: char| ascii_lower(c))
}

/// The characters of `s` without leading and trailing white space (see `trimmed`).
fn trim_chars(s: &str) -> (t: Vec<char>)
    ensures
        t@ == trimmed(s@),
{
    let chars = chars_of(s);
    let mut start: usize = 0;
    assert(chars@.skip(0) =~= chars@);
    while start < chars.len() && is_white_space_exec(chars[start])
        invariant
            start <= chars@.len(),
            chars@ == s@,
            leading_white(s@) == start + leading_white(s@.skip(start as int)),
        decreases chars.len() - start,
    {
        assert(s@.skip(start as int).drop_first() =~= s@.skip(start as int + 1));
        start = start + 1;
    }
    assert(leading_white(s@.skip(start as int)) == 0);
    let ghost rest = s@.skip(start as int);
    let mut end: usize = chars.len();
    assert(rest.take(rest.len() as int) =~= rest);
    while end > start && is_white_space_exec(chars[end - 1])
        invariant
            start <= end <= chars@.len(),
            chars@ == s@,
            rest == s@.skip(start as int),
            trailing_white(rest) == (chars@.len() - end) + trailing_white(
                rest.take(end - start),
            ),
        decreases end,
    {
        proof {
            let r = rest.take(end - start);
            assert(r.last() == chars@[end - 1]);
            assert(r.drop_last() =~= rest.take(end - start - 1));
        }
        end = end - 1;
    }
    proof {
        let r = rest.take(end - start);
        if end > start {
            assert(r.last() == chars@[end - 1]);
        }
        assert(trailing_white(r) == 0);
    }
    let mut t: Vec<char> = Vec::new();
    let mut i: usize = start;
    while i < end
        invariant
            start <= i <= end,
            end <= chars@.len(),
            t@ == chars@.subrange(start as int, i as int),
        decreases end - i,
    {
        t.push(chars[i]);
        assert(chars@.subrange(start as int, i as int + 1) =~= chars@.subrange(start as int, i as int).push(chars@[i as int]));
        i = i + 1;
    }
    assert(t@ =~= trimmed(s@));
    t
}

/// Whether `s` is white space only.
pub fn is_blank_exec(s: &str) -> (blank: bool)
    ensures
        blank == is_blank(s@),
{
    let chars = chars_of(s);
    let mut i: usize = 0;
    while i < chars.len()
        invariant
            i <= chars@.len(),
            chars@ == s@,
            forall|j: int| 0 <= j < i ==> is_white_space(#[trigger] s@[j]),
        decreases chars.len() - i,
    {
        if !is_white_space_exec(chars[i]) {
            return false;
        }
        i = i + 1;
    }
    true
}

proof fn lemma_digits_value_grows(d: Seq<char>)
    requires
        forall|i: int| 0 <= i < d.len() ==> is_ascii_digit(#[trigger] d[i]),
        d.len() > 0,
    ensures
        digits_value(d) >= digits_value(d.drop_last()),
{
    let v = digits_value(d.drop_last());
    assert(v * 10 >= v) by (nonlinear_arith);
}

/// Parses a decimal unsigned 64-bit integer (see `parsed_u64`).
fn parse_u64(t: &Vec<char>) -> (n: Option<u64>)
    ensures
        n == parsed_u64(t@),
{
    let start: usize = if t.len() > 0 && t[0] == '+' {
        1
    } else {
        0
    };
    let ghost d = unsigned_digits(t@);
    assert(d =~= t@.skip(start as int));
    if start == t.len() {
        return None;
    }
    let mut value: u64 = 0;
    let mut overflow = false;
    let mut i: usize = start;
    assert(d.take(0) =~= Seq::<char>::empty());
    while i < t.len()
        invariant
            start <= i <= t@.len(),
            d == t@.skip(start as int),
            d == unsigned_digits(t@),
            forall|j: int| 0 <= j < i - start ==> is_ascii_digit(#[trigger] d[j]),
            !overflow ==> value as nat == digits_value(d.take(i - start)),
            overflow ==> digits_value(d.take(i - start)) > u64::MAX,
        decreases t.len() - i,
    {
        let c = t[i];
        if !('0' <= c && c <= '9') {
            assert(d[i - start] == c);
            assert(!is_ascii_digit(d[i - start]));
            assert(d.len() > 0);
            assert(!all_digits(d));
            return None;
        }
        let digit: u64 = (c as u32 - 48) as u64;
        let ghost prefix = d.take(i - start + 1);
        proof {
            assert(prefix.drop_last() =~= d.take(i - start));
            assert(prefix.last() == c);
            assert(forall|j: int| 0 <= j < prefix.len() ==> is_ascii_digit(#[trigger] prefix[j]));
        }
        if !overflow {
            let next: u128 = (value as u128) * 10 + (digit as u128);
            if next > u64::MAX as u128 {
                overflow = true;
            } else {
                value = next as u64;
            }
        } else {
            proof {
                lemma_digits_value_grows(prefix);
            }
        }
        i = i + 1;
    }
    assert(d.take(t@.len() - start) =~= d);
    if overflow {
        None
    } else {
        Some(value)
    }
}

// ---------------------------------------------------------------------------------------------
// Configuration values
// ---------------------------------------------------------------------------------------------

/// A credential value whose text form is always redacted.
#[derive(Clone, PartialEq, Eq)]
pub struct Secret(String);

impl View for Secret {
    type V = Seq<char>;

    closed spec fn view(&self) -> Seq<char> {
        self.0@
    }
}

impl Secret {
    /// Exposes the credential for the narrow scope that must authenticate a request.
    ///
    /// Callers must not log, format, or include the returned value in diagnostics.
    pub fn expose(&self) -> (token: &str)
        ensures
            token@ == self@,
    {
        self.0.as_str()
    }

    /// The text a secret displays as, whatever it holds.
    pub fn to_string(&self) -> (text: String)
        ensures
            text@ == "[REDACTED]"@,
    {
        "[REDACTED]".to_owned()
    }

    /// The debugging form of a secret, whatever it holds.
    pub fn debug_string(&self) -> (text: String)
        ensures
            text@ == "Secret([REDACTED])"@,
    {
        "Secret([REDACTED])".to_owned()
    }
}

/// Diagnostic logging levels accepted by the configuration loader.
#[derive(Clone, Copy, Debug, PartialEq, Eq, Structural)]
pub enum LogLevel {
    /// Emit only error diagnostics.
    Error,
    /// Emit warning and error diagnostics.
    Warn,
    /// Emit informational, warning, and error diagnostics.
    Info,
    /// Emit debug diagnostics in addition to higher-severity messages.
    Debug,
    /// Emit all available diagnostics.
    Trace,
}

impl Default for LogLevel {
    fn default() -> (level: LogLevel)
        ensures
            level == LogLevel::Info,
    {
        LogLevel::Info
    }
}

/// Which check a variable failed.
#[derive(Clone, Copy, Debug, PartialEq, Eq, Structural)]
pub enum ConfigErrorKind {
    Missing,
    Empty,
    NonUnicode,
    InvalidTimeout,
    InvalidLogLevel,
}

/// A configuration error as a pair: the failed check and the variable's name.
pub struct ConfigErrorView {
    pub kind: ConfigErrorKind,
    pub variable: Seq<char>,
}

/// Describes why runtime configuration could not be loaded. It names the variable only.
#[derive(Clone, Debug, PartialEq, Eq)]
pub enum ConfigError {
    /// A required environment variable was not provided.
    MissingVariable {
        /// The name of the missing variable.
        variable: &'static str,
    },
    /// A required environment variable contained only whitespace.
    EmptyVariable {
        /// The name of the empty variable.
        variable: &'static str,
    },
    /// An environment variable could not be represented as Unicode text.
    NonUnicodeVariable {
        /// The name of the non-Unicode variable.
        variable: &'static str,
    },
    /// The configured request timeout was not a positive integer.
    InvalidTimeout {
        /// The name of the timeout variable.
        variable: &'static str,
    },
    /// The configured logging level was not recognized.
    InvalidLogLevel {
        /// The name of the logging-level variable.
        variable: &'static str,
    },
}

impl View for ConfigError {
    type V = ConfigErrorView;

    open spec fn view(&self) -> ConfigErrorView {
        match self {
            ConfigError::MissingVariable { variable } => ConfigErrorView {
                kind: ConfigErrorKind::Missing,
                variable: variable@,
            },
            ConfigError::EmptyVariable { variable } => ConfigErrorView {
                kind: ConfigErrorKind::Empty,
                variable: variable@,
            },
            ConfigError::NonUnicodeVariable { variable } => ConfigErrorView {
                kind: ConfigErrorKind::NonUnicode,
                variable: variable@,
            },
            ConfigError::InvalidTimeout { variable } => ConfigErrorView {
                kind: ConfigErrorKind::InvalidTimeout,
                variable: variable@,
            },
            ConfigError::InvalidLogLevel { variable } => ConfigErrorView {
                kind: ConfigErrorKind::InvalidLogLevel,
                variable: variable@,
            },
        }
    }
}

/// The text of a configuration error: it names the variable and what is wrong with it.
pub open spec fn config_error_text(e: ConfigErrorView) -> Seq<char> {
    match e.kind {
        ConfigErrorKind::Missing => "required environment variable "@ + e.variable + " is missing"@,
        ConfigErrorKind::Empty => "required environment variable "@ + e.variable
            + " must not be empty"@,
        ConfigErrorKind::NonUnicode => "environment variable "@ + e.variable
            + " must contain valid Unicode text"@,
        ConfigErrorKind::InvalidTimeout => "environment variable "@ + e.variable
            + " must be a positive integer number of seconds"@,
        ConfigErrorKind::InvalidLogLevel => "environment variable "@ + e.variable
            + " must be one of: error, warn, info, debug, trace"@,
    }
}

impl ConfigError {
    /// The text the error displays as.
    pub fn to_string(&self) -> (text: String)
        ensures
            text@ == config_error_text(self@),
    {
        match self {
            ConfigError::MissingVariable { variable } => concat3(
                "required environment variable ",
                variable,
                " is missing",
            ),
            ConfigError::EmptyVariable { variable } => concat3(
                "required environment variable ",
                variable,
                " must not be empty",
            ),
            ConfigError::NonUnicodeVariable { variable } => concat3(
                "environment variable ",
                variable,
                " must contain valid Unicode text",
            ),
            ConfigError::InvalidTimeout { variable } => concat3(
                "environment variable ",
                variable,
                " must be a positive integer number of seconds",
            ),
            ConfigError::InvalidLogLevel { variable } => concat3(
                "environment variable ",
                variable,
                " must be one of: error, warn, info, debug, trace",
            ),
        }
    }
}

// ---------------------------------------------------------------------------------------------
// Loading
// ---------------------------------------------------------------------------------------------

/// The value of a variable among name-value pairs: the last pair with that name wins. `None`
/// inside `Some` stands for a value that is not valid Unicode.
pub open spec fn variable_value(
    variables: Seq<(Seq<char>, Option<Seq<char>>)>,
    name: Seq<char>,
) -> Option<Option<Seq<char>>>
    decreases variables.len(),
{
    if variables.len() == 0 {
        None
    } else if variables.last().0 == name {
        Some(variables.last().1)
    } else {
        variable_value(variables.drop_last(), name)
    }
}

pub open spec fn opt_string_view(s: Option<String>) -> Option<Seq<char>> {
    match s {
        Some(t) => Some(t@),
        None => None,
    }
}

pub open spec fn variables_view(variables: Seq<(String, Option<String>)>) -> Seq<
    (Seq<char>, Option<Seq<char>>),
> {
    variables.map_values(|v: (String, Option<String>)| (v.0@, opt_string_view(v.1)))
}

/// A positive whole number of seconds, with white space around it allowed.
pub open spec fn timeout_setting(value: Seq<char>) -> Option<u64> {
    match parsed_u64(trimmed(value)) {
        Some(n) => if n > 0 {
            Some(n)
        } else {
            None
        },
        None => None,
    }
}

/// A log level name in any ASCII case, with white space around it allowed.
pub open spec fn log_level_setting(value: Seq<char>) -> Option<LogLevel> {
    let word = ascii_lowercase(trimmed(value));
    if word == "error"@ {
        Some(LogLevel::Error)
    } else if word == "warn"@ {
        Some(LogLevel::Warn)
    } else if word == "info"@ {
        Some(LogLevel::Info)
    } else if word == "debug"@ {
        Some(LogLevel::Debug)
    } else if word == "trace"@ {
        Some(LogLevel::Trace)
    } else {
        None
    }
}

pub open spec fn config_error(kind: ConfigErrorKind, variable: Seq<char>) -> ConfigErrorView {
    ConfigErrorView { kind, variable }
}

/// A required variable: present, valid Unicode, and not white space only.
pub open spec fn required_setting(
    variables: Seq<(Seq<char>, Option<Seq<char>>)>,
    name: Seq<char>,
) -> Result<Seq<char>, ConfigErrorView> {
    match variable_value(variables, name) {
        None => Err(config_error(ConfigErrorKind::Missing, name)),
        Some(None) => Err(config_error(ConfigErrorKind::NonUnicode, name)),
        Some(Some(v)) => if is_blank(v) {
            Err(config_error(ConfigErrorKind::Empty, name))
        } else {
            Ok(v)
        },
    }
}

/// A validated configuration as plain values.
pub struct ConfigView {
    pub account: Seq<char>,
    pub token: Seq<char>,
    pub timeout_seconds: u64,
    pub log_level: LogLevel,
}

/// The configuration that name-value pairs describe, or the first problem found: account,
/// then token, then timeout (30 seconds when absent), then log level (info when absent).
pub open spec fn configuration(variables: Seq<(Seq<char>, Option<Seq<char>>)>) -> Result<
    ConfigView,
    ConfigErrorView,
> {
    match required_setting(variables, "CODECKS_ACCOUNT"@) {
        Err(e) => Err(e),
        Ok(account) => match required_setting(variables, "CODECKS_TOKEN"@) {
            Err(e) => Err(e),
            Ok(token) => {
                let timeout = match variable_value(variables, "CODECKS_TIMEOUT_SECONDS"@) {
                    None => Ok(30u64),
                    Some(None) => Err(
                        config_error(ConfigErrorKind::NonUnicode, "CODECKS_TIMEOUT_SECONDS"@),
                    ),
                    Some(Some(v)) => match timeout_setting(v) {
                        Some(n) => Ok(n),
                        None => Err(
                            config_error(
                                ConfigErrorKind::InvalidTimeout,
                                "CODECKS_TIMEOUT_SECONDS"@,
                            ),
                        ),
                    },
                };
                match timeout {
                    Err(e) => Err(e),
                    Ok(timeout_seconds) => {
                        let level = match variable_value(variables, "CODECKS_LOG_LEVEL"@) {
                            None => Ok(LogLevel::Info),
                            Some(None) => Err(
                                config_error(ConfigErrorKind::NonUnicode, "CODECKS_LOG_LEVEL"@),
                            ),
                            Some(Some(v)) => match log_level_setting(v) {
                                Some(l) => Ok(l),
                                None => Err(
                                    config_error(
                                        ConfigErrorKind::InvalidLogLevel,
                                        "CODECKS_LOG_LEVEL"@,
                                    ),
                                ),
                            },
                        };
                        match level {
                            Err(e) => Err(e),
                            Ok(log_level) => Ok(
                                ConfigView { account, token, timeout_seconds, log_level },
                            ),
                        }
                    },
                }
            },
        },
    }
}

/// The duration of a whole number of seconds.
pub uninterp spec fn duration_from_seconds(seconds: u64) -> Duration;

/// `Duration::from_secs`: the duration of `seconds` whole seconds; named, as it depends on the
/// seconds alone.
#[verifier::external_body]
fn seconds_to_duration(seconds: u64) -> (duration: Duration)
    ensures
        duration == duration_from_seconds(seconds),
{
    Duration::from_secs(seconds)
}

/// Looks up a variable (see `variable_value`).
fn lookup<'a>(variables: &'a Vec<(String, Option<String>)>, name: &str) -> (value: Option<
    &'a Option<String>,
>)
    ensures
        match (value, variable_value(variables_view(variables@), name@)) {
            (Some(v), Some(w)) => opt_string_view(*v) == w,
            (None, None) => true,
            _ => false,
        },
{
    let ghost view = variables_view(variables@);
    let mut i: usize = variables.len();
    assert(view.take(view.len() as int) =~= view);
    while i > 0
        invariant
            i <= variables@.len(),
            view == variables_view(variables@),
            variable_value(view, name@) == variable_value(view.take(i as int), name@),
        decreases i,
    {
        proof {
            let prefix = view.take(i as int);
            assert(prefix.drop_last() =~= view.take(i as int - 1));
            assert(prefix.last() == view[i as int - 1]);
        }
        if str_equal(variables[i - 1].0.as_str(), name) {
            return Some(&variables[i - 1].1);
        }
        i = i - 1;
    }
    None
}

fn required_value(variables: &Vec<(String, Option<String>)>, variable: &'static str) -> (value:
    Result<String, ConfigError>)
    ensures
        match (value, required_setting(variables_view(variables@), variable@)) {
            (Ok(v), Ok(w)) => v@ == w,
            (Err(e), Err(f)) => e@ == f,
            _ => false,
        },
{
    match lookup(variables, variable) {
        None => Err(ConfigError::MissingVariable { variable }),
        Some(None) => Err(ConfigError::NonUnicodeVariable { variable }),
        Some(Some(v)) => {
            if is_blank_exec(v.as_str()) {
                Err(ConfigError::EmptyVariable { variable })
            } else {
                Ok(v.clone())
            }
        },
    }
}

/// Reads a timeout in whole seconds (see `timeout_setting`).
fn parse_timeout_seconds(value: &str) -> (seconds: Result<u64, ConfigError>)
    ensures
        match (seconds, timeout_setting(value@)) {
            (Ok(n), Some(m)) => n == m,
            (Err(e), None) => e@ == config_error(ConfigErrorKind::InvalidTimeout, TIMEOUT_VARIABLE@),
            _ => false,
        },
{
    let trimmed_value = trim_chars(value);
    match parse_u64(&trimmed_value) {
        Some(n) => {
            if n > 0 {
                Ok(n)
            } else {
                Err(ConfigError::InvalidTimeout { variable: TIMEOUT_VARIABLE })
            }
        },
        None => Err(ConfigError::InvalidTimeout { variable: TIMEOUT_VARIABLE }),
    }
}

/// Reads a request timeout: a positive whole number of seconds (see `timeout_setting`).
pub fn parse_timeout(value: &str) -> (timeout: Result<Duration, ConfigError>)
    ensures
        match (timeout, timeout_setting(value@)) {
            (Ok(d), Some(m)) => d == duration_from_seconds(m),
            (Err(e), None) => e@ == config_error(ConfigErrorKind::InvalidTimeout, TIMEOUT_VARIABLE@),
            _ => false,
        },
{
    match parse_timeout_seconds(value) {
        Ok(seconds) => Ok(seconds_to_duration(seconds)),
        Err(e) => Err(e),
    }
}

/// Reads a log level (see `log_level_setting`).
pub fn parse_log_level(value: &str) -> (level: Result<LogLevel, ConfigError>)
    ensures
        match (level, log_level_setting(value@)) {
            (Ok(l), Some(m)) => l == m,
            (Err(e), None) => e@ == config_error(ConfigErrorKind::InvalidLogLevel, LOG_LEVEL_VARIABLE@),
            _ => false,
        },
{
    let trimmed_value = trim_chars(value);
    let mut lower: Vec<char> = Vec::new();
    let mut i: usize = 0;
    while i < trimmed_value.len()
        invariant
            i <= trimmed_value@.len(),
            lower@ == ascii_lowercase(trimmed_value@.take(i as int)),
        decreases trimmed_value.len() - i,
    {
        let c = trimmed_value[i];
        let l = if 'A' <= c && c <= 'Z' {
            let b: u8 = (c as u32) as u8;
            ((b + 32) as char)
        } else {
            c
        };
        lower.push(l);
        proof {
            assert(trimmed_value@.take(i as int + 1) =~= trimmed_value@.take(i as int).push(c));
            assert(lower@ =~= ascii_lowercase(trimmed_value@.take(i as int + 1)));
        }
        i = i + 1;
    }
    assert(trimmed_value@.take(trimmed_value@.len() as int) =~= trimmed_value@);
    let word = string_from_chars(&lower);
    let word = word.as_str();
    if str_equal(word, "error") {
        Ok(LogLevel::Error)
    } else if str_equal(word, "warn") {
        Ok(LogLevel::Warn)
    } else if str_equal(word, "info") {
        Ok(LogLevel::Info)
    } else if str_equal(word, "debug") {
        Ok(LogLevel::Debug)
    } else if str_equal(word, "trace") {
        Ok(LogLevel::Trace)
    } else {
        Err(ConfigError::InvalidLogLevel { variable: LOG_LEVEL_VARIABLE })
    }
}

/// Runtime configuration required to connect the MCP server to Codecks.
#[derive(Clone, PartialEq, Eq)]
pub struct Config {
    account: String,
    authentication_token: Secret,
    request_timeout_seconds: u64,
    log_level: LogLevel,
}

impl View for Config {
    type V = ConfigView;

    closed spec fn view(&self) -> ConfigView {
        ConfigView {
            account: self.account@,
            token: self.authentication_token@,
            timeout_seconds: self.request_timeout_seconds,
            log_level: self.log_level,
        }
    }
}

impl Config {
    /// Loads and validates configuration from name-value pairs. A value given as `None` is a
    /// value that is not valid Unicode. When a variable occurs more than once, the last value
    /// is used.
    pub fn from_variables(variables: &Vec<(String, Option<String>)>) -> (config: Result<
        Config,
        ConfigError,
    >)
        ensures
            match (config, configuration(variables_view(variables@))) {
                (Ok(c), Ok(v)) => c@ == v,
                (Err(e), Err(f)) => e@ == f,
                _ => false,
            },
    {
        let account = required_value(variables, ACCOUNT_VARIABLE)?;
        let token = required_value(variables, TOKEN_VARIABLE)?;
        let request_timeout_seconds = match lookup(variables, TIMEOUT_VARIABLE) {
            None => DEFAULT_TIMEOUT_SECONDS,
            Some(None) => {
                return Err(ConfigError::NonUnicodeVariable { variable: TIMEOUT_VARIABLE });
            },
            Some(Some(v)) => parse_timeout_seconds(v.as_str())?,
        };
        let log_level = match lookup(variables, LOG_LEVEL_VARIABLE) {
            None => LogLevel::Info,
            Some(None) => {
                return Err(ConfigError::NonUnicodeVariable { variable: LOG_LEVEL_VARIABLE });
            },
            Some(Some(v)) => parse_log_level(v.as_str())?,
        };
        Ok(
            Config {
                account,
                authentication_token: Secret(token),
                request_timeout_seconds,
                log_level,
            },
        )
    }

    /// Loads and validates configuration from supplied name-value pairs, without reading or
    /// changing the process environment. When a variable occurs more than once, the last value
    /// is used.
    pub fn from_values(values: &[(&str, &str)]) -> (config: Result<Config, ConfigError>)
        ensures
            match (
                config,
                configuration(
                    values@.map_values(|v: (&str, &str)| (v.0@, Some::<Seq<char>>(v.1@))),
                ),
            ) {
                (Ok(c), Ok(v)) => c@ == v,
                (Err(e), Err(f)) => e@ == f,
                _ => false,
            },
    {
        let mut variables: Vec<(String, Option<String>)> = Vec::new();
        let mut i: usize = 0;
        while i < values.len()
            invariant
                i <= values@.len(),
                variables_view(variables@) == values@.take(i as int).map_values(
                    |v: (&str, &str)| (v.0@, Some::<Seq<char>>(v.1@)),
                ),
            decreases values.len() - i,
        {
            let (name, value) = values[i];
            let ghost before = variables@;
            variables.push((name.to_owned(), Some(value.to_owned())));
            proof {
                assert(values@.take(i as int + 1) =~= values@.take(i as int).push(values@[i as int]));
                assert(variables_view(variables@) =~= variables_view(before).push(
                    (name@, Some::<Seq<char>>(value@)),
                ));
            }
            i = i + 1;
        }
        assert(values@.take(values@.len() as int) =~= values@);
        Config::from_variables(&variables)
    }

    /// Returns the Codecks account name or subdomain.
    pub fn account(&self) -> (account: &str)
        ensures
            account@ == self@.account,
    {
        self.account.as_str()
    }

    /// Returns the authentication token through an explicitly secret-bearing value.
    pub fn authentication_token(&self) -> (token: &Secret)
        ensures
            token@ == self@.token,
    {
        &self.authentication_token
    }

    /// Returns the maximum duration allowed for a Codecks request.
    pub fn request_timeout(&self) -> (timeout: Duration)
        ensures
            timeout == duration_from_seconds(self@.timeout_seconds),
    {
        seconds_to_duration(self.request_timeout_seconds)
    }

    /// Returns the maximum duration allowed for a Codecks request, in whole seconds.
    pub fn request_timeout_seconds(&self) -> (seconds: u64)
        ensures
            seconds == self@.timeout_seconds,
    {
        self.request_timeout_seconds
    }

    /// Returns the configured diagnostic logging level.
    pub fn log_level(&self) -> (level: LogLevel)
        ensures
            level == self@.log_level,
    {
        self.log_level
    }
}

/// A variable stored again takes the new value, and storing one variable leaves every other
/// variable's value as it was.
pub proof fn lemma_last_value_wins(
    variables: Seq<(Seq<char>, Option<Seq<char>>)>,
    name: Seq<char>,
    value: Option<Seq<char>>,
    other: Seq<char>,
)
    ensures
        variable_value(variables.push((name, value)), name) == Some(value),
        other != name ==> variable_value(variables.push((name, value)), other) == variable_value(
            variables,
            other,
        ),
{
    assert(variables.push((name, value)).drop_last() =~= variables);
}

/// A configuration error names one of the four configuration variables and nothing else, so
/// its text can never hold a configured value such as the account or the token.
pub proof fn lemma_config_errors_name_only_a_variable(variables: Seq<(Seq<char>, Option<Seq<char>>)>)
    ensures
        configuration(variables) matches Err(e) ==> {
            ||| e.variable == ACCOUNT_VARIABLE@
            ||| e.variable == TOKEN_VARIABLE@
            ||| e.variable == TIMEOUT_VARIABLE@
            ||| e.variable == LOG_LEVEL_VARIABLE@
        },
{
}

/// A loaded configuration holds the last values given for the account and the token, and
/// neither is empty or white space only; its timeout is a positive number of seconds.
pub proof fn lemma_loaded_configuration_is_valid(variables: Seq<(Seq<char>, Option<Seq<char>>)>)
    ensures
        configuration(variables) matches Ok(c) ==> {
            &&& variable_value(variables, ACCOUNT_VARIABLE@) == Some(Some(c.account))
            &&& !is_blank(c.account)
            &&& variable_value(variables, TOKEN_VARIABLE@) == Some(Some(c.token))
            &&& !is_blank(c.token)
            &&& c.timeout_seconds > 0
        },
{
}

/// With a valid account, a token that is missing, not Unicode, or empty or white space only
/// makes loading fail, naming the token variable.
pub proof fn lemma_blank_token_is_refused(variables: Seq<(Seq<char>, Option<Seq<char>>)>)
    requires
        variable_value(variables, ACCOUNT_VARIABLE@) matches Some(Some(a)) && !is_blank(a),
    ensures
        variable_value(variables, TOKEN_VARIABLE@) is None ==> configuration(variables) == Err::<
            ConfigView,
            ConfigErrorView,
        >(config_error(ConfigErrorKind::Missing, TOKEN_VARIABLE@)),
        variable_value(variables, TOKEN_VARIABLE@) == Some(None::<Seq<char>>) ==> configuration(
            variables,
        ) == Err::<ConfigView, ConfigErrorView>(
            config_error(ConfigErrorKind::NonUnicode, TOKEN_VARIABLE@),
        ),
        variable_value(variables, TOKEN_VARIABLE@) matches Some(Some(t)) && is_blank(t)
            ==> configuration(variables) == Err::<ConfigView, ConfigErrorView>(
            config_error(ConfigErrorKind::Empty, TOKEN_VARIABLE@),
        ),
{
}

} // verus!
