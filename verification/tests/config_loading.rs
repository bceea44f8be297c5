//! Configuration loading and validation tests.

use std::time::Duration;

use codecks_mcp::config::{
    parse_log_level, parse_timeout, Config, ConfigError, LogLevel, ACCOUNT_VARIABLE,
    DEFAULT_TIMEOUT_SECONDS, LOG_LEVEL_VARIABLE, TIMEOUT_VARIABLE, TOKEN_VARIABLE,
};

const TEST_ACCOUNT: &str = "test-account";
const TEST_TOKEN: &str = "secret-token-sentinel";

fn required_values() -> [(&'static str, &'static str); 2] {
    [(ACCOUNT_VARIABLE, TEST_ACCOUNT), (TOKEN_VARIABLE, TEST_TOKEN)]
}

fn expect_error(result: Result<Config, ConfigError>, reason: &str) -> ConfigError {
    match result {
        Ok(_) => panic!("{}", reason),
        Err(error) => error,
    }
}

fn expect_config(result: Result<Config, ConfigError>, reason: &str) -> Config {
    match result {
        Ok(config) => config,
        Err(error) => panic!("{}: {:?}", reason, error),
    }
}

#[test]
fn loads_valid_configuration() {
    let config = expect_config(
        Config::from_values(&[
            (ACCOUNT_VARIABLE, TEST_ACCOUNT),
            (TOKEN_VARIABLE, TEST_TOKEN),
            (TIMEOUT_VARIABLE, "45"),
            (LOG_LEVEL_VARIABLE, "debug"),
        ]),
        "valid configuration should load",
    );

    assert_eq!(config.account(), TEST_ACCOUNT);
    assert_eq!(config.authentication_token().expose(), TEST_TOKEN);
    assert_eq!(config.request_timeout(), Duration::from_secs(45));
    assert_eq!(config.log_level(), LogLevel::Debug);
}

#[test]
fn applies_optional_defaults() {
    let config = expect_config(
        Config::from_values(&required_values()),
        "required values should be enough to load configuration",
    );

    assert_eq!(
        config.request_timeout(),
        Duration::from_secs(DEFAULT_TIMEOUT_SECONDS)
    );
    assert_eq!(config.log_level(), LogLevel::Info);
}

#[test]
fn reports_missing_required_variables() {
    let missing_account_error = expect_error(
        Config::from_values(&[(TOKEN_VARIABLE, TEST_TOKEN)]),
        "a missing account must fail",
    );

    assert_eq!(
        missing_account_error,
        ConfigError::MissingVariable {
            variable: ACCOUNT_VARIABLE
        }
    );
    assert!(missing_account_error.to_string().contains(ACCOUNT_VARIABLE));

    let missing_token_error = expect_error(
        Config::from_values(&[(ACCOUNT_VARIABLE, TEST_ACCOUNT)]),
        "a missing token must fail",
    );

    assert_eq!(
        missing_token_error,
        ConfigError::MissingVariable {
            variable: TOKEN_VARIABLE
        }
    );
    assert!(missing_token_error.to_string().contains(TOKEN_VARIABLE));
}

#[test]
fn reports_empty_required_variable() {
    let error = expect_error(
        Config::from_values(&[(ACCOUNT_VARIABLE, "  "), (TOKEN_VARIABLE, TEST_TOKEN)]),
        "an empty account must fail",
    );

    assert_eq!(
        error,
        ConfigError::EmptyVariable {
            variable: ACCOUNT_VARIABLE
        }
    );
}

#[test]
fn rejects_invalid_timeout() {
    for invalid_timeout in ["", "0", "not-a-number"] {
        let error = expect_error(
            Config::from_values(&[
                (ACCOUNT_VARIABLE, TEST_ACCOUNT),
                (TOKEN_VARIABLE, TEST_TOKEN),
                (TIMEOUT_VARIABLE, invalid_timeout),
            ]),
            "an invalid timeout must fail",
        );

        assert_eq!(
            error,
            ConfigError::InvalidTimeout {
                variable: TIMEOUT_VARIABLE
            }
        );
    }
}

#[test]
fn accepts_case_insensitive_log_level() {
    let config = expect_config(
        Config::from_values(&[
            (ACCOUNT_VARIABLE, TEST_ACCOUNT),
            (TOKEN_VARIABLE, TEST_TOKEN),
            (LOG_LEVEL_VARIABLE, "TRACE"),
        ]),
        "a case-insensitive log level should load",
    );

    assert_eq!(config.log_level(), LogLevel::Trace);
}

#[test]
fn rejects_invalid_log_level() {
    let error = expect_error(
        Config::from_values(&[
            (ACCOUNT_VARIABLE, TEST_ACCOUNT),
            (TOKEN_VARIABLE, TEST_TOKEN),
            (LOG_LEVEL_VARIABLE, "verbose"),
        ]),
        "an unsupported log level must fail",
    );

    assert_eq!(
        error,
        ConfigError::InvalidLogLevel {
            variable: LOG_LEVEL_VARIABLE
        }
    );
}

#[test]
fn redacts_secret_from_standard_formatting() {
    let config = expect_config(
        Config::from_values(&required_values()),
        "valid configuration should load for formatting checks",
    );
    let secret_debug = config.authentication_token().debug_string();
    let secret_display = config.authentication_token().to_string();

    for output in [secret_debug, secret_display] {
        assert!(!output.contains(TEST_TOKEN));
        assert!(output.contains("REDACTED"));
    }
}

#[test]
fn errors_never_include_other_configuration_values() {
    let error = expect_error(
        Config::from_values(&[
            (ACCOUNT_VARIABLE, TEST_ACCOUNT),
            (TOKEN_VARIABLE, TEST_TOKEN),
            (TIMEOUT_VARIABLE, "invalid"),
        ]),
        "the invalid timeout should fail",
    );
    let diagnostics = format!("{error:?}\n{}", error.to_string());

    assert!(!diagnostics.contains(TEST_ACCOUNT));
    assert!(!diagnostics.contains(TEST_TOKEN));
    assert!(diagnostics.contains(TIMEOUT_VARIABLE));
}

#[test]
fn the_last_value_of_a_repeated_variable_wins() {
    let config = expect_config(
        Config::from_values(&[
            (ACCOUNT_VARIABLE, "first-account"),
            (TOKEN_VARIABLE, TEST_TOKEN),
            (TIMEOUT_VARIABLE, "0"),
            (ACCOUNT_VARIABLE, "second-account"),
            (TIMEOUT_VARIABLE, "12"),
        ]),
        "the later values should be used",
    );

    assert_eq!(config.account(), "second-account");
    assert_eq!(config.request_timeout(), Duration::from_secs(12));
    assert_eq!(config.request_timeout_seconds(), 12);
}

#[test]
fn values_are_trimmed_before_they_are_read() {
    let config = expect_config(
        Config::from_values(&[
            (ACCOUNT_VARIABLE, TEST_ACCOUNT),
            (TOKEN_VARIABLE, TEST_TOKEN),
            (TIMEOUT_VARIABLE, " \t+7\n"),
            (LOG_LEVEL_VARIABLE, "  Warn "),
        ]),
        "white space around values should be accepted",
    );

    assert_eq!(config.request_timeout(), Duration::from_secs(7));
    assert_eq!(config.log_level(), LogLevel::Warn);
}

#[test]
fn the_account_is_checked_before_the_token() {
    let error = expect_error(Config::from_values(&[]), "nothing configured must fail");

    assert_eq!(
        error,
        ConfigError::MissingVariable {
            variable: ACCOUNT_VARIABLE
        }
    );
}

#[test]
fn a_non_unicode_value_is_reported_by_name() {
    let variables = vec![
        (ACCOUNT_VARIABLE.to_owned(), Some(TEST_ACCOUNT.to_owned())),
        (TOKEN_VARIABLE.to_owned(), None),
    ];

    let error = expect_error(
        Config::from_variables(&variables),
        "a token that is not Unicode must fail",
    );

    assert_eq!(
        error,
        ConfigError::NonUnicodeVariable {
            variable: TOKEN_VARIABLE
        }
    );
    assert_eq!(
        error.to_string(),
        "environment variable CODECKS_TOKEN must contain valid Unicode text"
    );
}

#[test]
fn timeouts_parse_as_positive_whole_seconds() {
    assert_eq!(parse_timeout("1"), Ok(Duration::from_secs(1)));
    assert_eq!(
        parse_timeout("18446744073709551615"),
        Ok(Duration::from_secs(u64::MAX))
    );
    for invalid in ["18446744073709551616", "-1", "1.5", "+", "1 2", "0x10"] {
        assert_eq!(
            parse_timeout(invalid),
            Err(ConfigError::InvalidTimeout {
                variable: TIMEOUT_VARIABLE
            })
        );
    }
}

#[test]
fn log_levels_parse_by_name() {
    let levels = [
        ("error", LogLevel::Error),
        ("WARN", LogLevel::Warn),
        ("Info", LogLevel::Info),
        ("dEbUg", LogLevel::Debug),
        ("trace", LogLevel::Trace),
    ];
    for (text, level) in levels {
        assert_eq!(parse_log_level(text), Ok(level));
    }
    assert_eq!(LogLevel::default(), LogLevel::Info);
    assert_eq!(
        parse_log_level("warning"),
        Err(ConfigError::InvalidLogLevel {
            variable: LOG_LEVEL_VARIABLE
        })
    );
}

#[test]
fn every_configuration_error_names_its_variable() {
    let errors = [
        (
            ConfigError::MissingVariable {
                variable: ACCOUNT_VARIABLE,
            },
            "required environment variable CODECKS_ACCOUNT is missing",
        ),
        (
            ConfigError::EmptyVariable {
                variable: TOKEN_VARIABLE,
            },
            "required environment variable CODECKS_TOKEN must not be empty",
        ),
        (
            ConfigError::InvalidTimeout {
                variable: TIMEOUT_VARIABLE,
            },
            "environment variable CODECKS_TIMEOUT_SECONDS must be a positive integer number of seconds",
        ),
        (
            ConfigError::InvalidLogLevel {
                variable: LOG_LEVEL_VARIABLE,
            },
            "environment variable CODECKS_LOG_LEVEL must be one of: error, warn, info, debug, trace",
        ),
    ];
    for (error, text) in errors {
        assert_eq!(error.to_string(), text);
    }
}
