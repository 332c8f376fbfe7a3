use session_pool::connection::connection_settings;
use session_pool::policy::UpdatePolicy;
use session_pool::startup::{host_parallelism, Stage, Startup, StartupCommand, StartupError};
use session_pool::statements::Statement;

fn started(size: usize, policy: UpdatePolicy) -> Startup {
    match Startup::new(size, policy) {
        Ok(startup) => startup,
        Err(e) => panic!("no startup: {:?}", e),
    }
}

#[test]
fn a_pool_without_sessions_is_refused() {
    assert!(matches!(Startup::new(0, UpdatePolicy::Literal), Err(StartupError::EmptyPool)));
    assert!(matches!(Startup::new(0, UpdatePolicy::Transactional), Err(StartupError::EmptyPool)));
}

#[test]
fn a_fresh_startup_asks_for_a_connection() {
    let startup = started(4, UpdatePolicy::Literal);
    assert_eq!(startup.size(), 4);
    assert_eq!(startup.sessions_ready(), 0);
    assert_eq!(startup.stage(), Stage::Connecting);
    assert_eq!(startup.command(), StartupCommand::Connect);
    assert_eq!(startup.policy(), UpdatePolicy::Literal);
}

#[test]
fn two_sessions_come_up_step_by_step() {
    let mut startup = started(2, UpdatePolicy::Literal);
    let mut commands = Vec::new();
    while startup.stage() != Stage::Serving {
        commands.push(startup.command());
        startup.advance(true);
    }
    assert_eq!(
        commands,
        vec![
            StartupCommand::Connect,
            StartupCommand::Prepare(Statement::WorldById),
            StartupCommand::Prepare(Statement::AllFortunes),
            StartupCommand::Prepare(Statement::UpdateWorlds),
            StartupCommand::Connect,
            StartupCommand::Prepare(Statement::WorldById),
            StartupCommand::Prepare(Statement::AllFortunes),
            StartupCommand::Prepare(Statement::UpdateWorlds),
        ]
    );
    assert_eq!(startup.sessions_ready(), 2);
    assert_eq!(startup.command(), StartupCommand::Serve);
}

#[test]
fn transactional_sessions_compile_the_locking_lookup_too() {
    let mut startup = started(1, UpdatePolicy::Transactional);
    startup.advance(true);
    assert_eq!(startup.command(), StartupCommand::Prepare(Statement::WorldById));
    startup.advance(true);
    assert_eq!(startup.command(), StartupCommand::Prepare(Statement::WorldByIdForUpdate));
    startup.advance(true);
    assert_eq!(startup.command(), StartupCommand::Prepare(Statement::AllFortunes));
    startup.advance(true);
    assert_eq!(startup.command(), StartupCommand::Prepare(Statement::UpdateWorlds));
    assert_eq!(startup.sessions_ready(), 0);
    startup.advance(true);
    assert_eq!(startup.stage(), Stage::Serving);
    assert_eq!(startup.sessions_ready(), 1);
}

#[test]
fn a_failed_connection_is_fatal() {
    let mut startup = started(3, UpdatePolicy::Literal);
    startup.advance(false);
    assert_eq!(startup.stage(), Stage::Fatal);
    assert_eq!(startup.command(), StartupCommand::Abort);
    assert_eq!(startup.sessions_ready(), 0);
}

#[test]
fn a_failed_statement_drops_the_sessions_that_were_ready() {
    let mut startup = started(2, UpdatePolicy::Literal);
    for _ in 0..4 {
        startup.advance(true);
    }
    assert_eq!(startup.sessions_ready(), 1);
    startup.advance(true);
    assert_eq!(startup.stage(), Stage::Preparing(0));
    startup.advance(true);
    startup.advance(false);
    assert_eq!(startup.stage(), Stage::Fatal);
    assert_eq!(startup.sessions_ready(), 0);
}

#[test]
fn nothing_follows_a_fatal_failure() {
    let mut startup = started(1, UpdatePolicy::Literal);
    startup.advance(false);
    for _ in 0..10 {
        startup.advance(true);
        assert_eq!(startup.stage(), Stage::Fatal);
        assert_eq!(startup.command(), StartupCommand::Abort);
    }
}

#[test]
fn reports_after_serving_change_nothing() {
    let mut startup = started(1, UpdatePolicy::Literal);
    for _ in 0..4 {
        startup.advance(true);
    }
    assert_eq!(startup.stage(), Stage::Serving);
    startup.advance(false);
    assert_eq!(startup.stage(), Stage::Serving);
    assert_eq!(startup.sessions_ready(), 1);
}

#[test]
fn serving_takes_size_times_one_plus_statements_steps() {
    let mut startup = started(5, UpdatePolicy::Transactional);
    let mut steps = 0;
    while startup.stage() != Stage::Serving {
        startup.advance(true);
        steps += 1;
    }
    assert_eq!(steps, 5 * (1 + 4));
}

#[test]
fn an_invalid_connection_string_starts_nothing() {
    let outcome = Startup::begin("host=localhost port=not_a_port", 4, UpdatePolicy::Literal);
    assert!(matches!(outcome, Err(StartupError::InvalidConnectionString)));
    let outcome = Startup::begin("no_such_option=1", 4, UpdatePolicy::Literal);
    assert!(matches!(outcome, Err(StartupError::InvalidConnectionString)));
}

#[test]
fn an_invalid_connection_string_is_reported_before_an_empty_pool() {
    let outcome = Startup::begin("host=", 0, UpdatePolicy::Literal);
    assert!(matches!(outcome, Err(StartupError::InvalidConnectionString)));
}

#[test]
fn a_valid_connection_string_starts_the_startup() {
    let outcome = Startup::begin(
        "postgres://worker@database-host:5432/hello_world",
        2,
        UpdatePolicy::Literal,
    );
    match outcome {
        Ok((startup, _settings)) => {
            assert_eq!(startup.size(), 2);
            assert_eq!(startup.command(), StartupCommand::Connect);
        }
        Err(e) => panic!("refused: {:?}", e),
    }
}

#[test]
fn a_valid_connection_string_with_no_sessions_is_an_empty_pool() {
    let outcome = Startup::begin("host=localhost user=postgres", 0, UpdatePolicy::Literal);
    assert!(matches!(outcome, Err(StartupError::EmptyPool)));
}

#[test]
fn connection_settings_follow_the_driver_parser() {
    assert!(connection_settings("host=localhost user=postgres dbname=hello_world").is_ok());
    assert!(connection_settings("postgresql://user@localhost:5432/db").is_ok());
    assert!(matches!(
        connection_settings("host=localhost port=seventy"),
        Err(StartupError::InvalidConnectionString)
    ));
    assert!(matches!(
        connection_settings("host='unterminated"),
        Err(StartupError::InvalidConnectionString)
    ));
}

#[test]
fn the_host_has_at_least_one_cpu() {
    assert!(host_parallelism() >= 1);
}

#[test]
fn what_the_parser_returned_becomes_settings_or_the_startup_error() {
    let refused = "host=localhost port=seventy".parse::<tokio_postgres::Config>();
    assert!(refused.is_err());
    assert!(matches!(
        session_pool::connection::settings_from(refused),
        Err(StartupError::InvalidConnectionString)
    ));
    let accepted = "host=localhost port=5433 user=worker".parse::<tokio_postgres::Config>();
    match session_pool::connection::settings_from(accepted) {
        Ok(settings) => {
            assert_eq!(settings.get_ports(), &[5433]);
            assert_eq!(settings.get_user(), Some("worker"));
        }
        Err(e) => panic!("refused: {:?}", e),
    }
}
