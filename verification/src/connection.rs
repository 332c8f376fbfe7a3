//! The connection string, checked before any session is opened.

use vstd::prelude::*;
use crate::startup::StartupError;

verus! {

/// The driver's parsed connection settings. Nothing inside is read here.
#[verifier::external_type_specification]
#[verifier::external_body]
pub struct ExConfig(tokio_postgres::Config);

/// The driver's error. Nothing inside is read here.
#[verifier::external_type_specification]
#[verifier::external_body]
pub struct ExDriverError(tokio_postgres::Error);

/// What the driver's parser makes of `connection_string`, in either of its
/// two forms, the list of `key=value` pairs or the URL: the settings, or
/// nothing where it refuses the string. The keys it knows are fixed when the
/// driver is built.
pub uninterp spec fn driver_settings(connection_string: Seq<char>) -> Option<tokio_postgres::Config>;

/// Whether the driver's parser takes `connection_string`.
pub open spec fn driver_accepts(connection_string: Seq<char>) -> bool {
    driver_settings(connection_string).is_some()
}

/// Calls `<tokio_postgres::Config as FromStr>::from_str`, the parser that
/// `tokio_postgres::connect` runs on its argument before it opens anything.
/// The parser reads the string alone, so what it returns is a matter of the
/// string: this is all the contract claims.
#[verifier::external_body]
fn parse_connection_string(connection_string: &str) -> (parsed: Result<
    tokio_postgres::Config,
    tokio_postgres::Error,
>)
    ensures
        parsed.ok() == driver_settings(connection_string@),
{
    <tokio_postgres::Config as std::str::FromStr>::from_str(connection_string)
}

/// Turns what the parser returned into the settings or the startup error.
pub fn settings_from(parsed: Result<tokio_postgres::Config, tokio_postgres::Error>) -> (settings:
    Result<tokio_postgres::Config, StartupError>)
    ensures
        match parsed {
            Ok(config) => settings == Ok::<tokio_postgres::Config, StartupError>(config),
            Err(_) => settings == Err::<tokio_postgres::Config, StartupError>(
                StartupError::InvalidConnectionString,
            ),
        },
{
    match parsed {
        Ok(config) => Ok(config),
        Err(_) => Err(StartupError::InvalidConnectionString),
    }
}

/// The settings to open every session with, or the error that ends the
/// startup before anything is opened.
pub fn connection_settings(connection_string: &str) -> (settings: Result<
    tokio_postgres::Config,
    StartupError,
>)
    ensures
        settings == match driver_settings(connection_string@) {
            Some(config) => Ok::<tokio_postgres::Config, StartupError>(config),
            None => Err::<tokio_postgres::Config, StartupError>(
                StartupError::InvalidConnectionString,
            ),
        },
{
    settings_from(parse_connection_string(connection_string))
}

} // verus!
