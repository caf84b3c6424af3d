//! What opening a database and its transactions promise.
//!
//! Every law here speaks of calls: of the arguments of a function, of what it returns and of the state
//! before and after.

use crate::store::sqlite::{
    connection_pragmas, create_database, drop_database, report_pragmas, Build, BuildStage,
    BuildStep, DecodeError, PoolOptions, PragmaReport, SqliteError, SqliteStoreBuilder, StoreConfig,
};
use crate::store::transaction::{TransactionGate, BEGIN_STATEMENT};
use crate::time::Duration;
use vstd::prelude::*;

verus! {

/// By default a database is in memory, is created and migrated, and has between 3 and 16 connections
/// which are idle for up to ten and live for up to thirty minutes.
pub proof fn law_default_database(builder: SqliteStoreBuilder)
    requires
        call_ensures(SqliteStoreBuilder::new, (), builder) || call_ensures(
            <SqliteStoreBuilder as Default>::default,
            (),
            builder,
        ),
    ensures
        builder@.url == ":memory:"@,
        builder@.pool.min_connections == 3,
        builder@.pool.max_connections == 16,
        builder@.pool.idle_timeout == Some(Duration { secs: 600, nanos: 0 }),
        builder@.pool.max_lifetime == Some(Duration { secs: 1800, nanos: 0 }),
        builder@.run_migrations,
        builder@.create_database,
{
}

/// An in-memory database keeps its only connection for ever, as it would be lost with it.
pub proof fn law_memory_database_keeps_its_connection(builder: SqliteStoreBuilder)
    requires
        call_ensures(SqliteStoreBuilder::memory, (), builder),
    ensures
        builder@.url == ":memory:"@,
        builder@.pool.min_connections == 1,
        builder@.pool.max_connections == 1,
        builder@.pool.idle_timeout is None,
        builder@.pool.max_lifetime is None,
        builder@.run_migrations,
        builder@.create_database,
{
}

/// Every setting of a builder ends up in what is built, with the value it was given last, and leaves
/// the other settings as they are.
pub proof fn law_settings_are_kept(
    builder: SqliteStoreBuilder,
    url: &str,
    min: u32,
    max: u32,
    idle: Option<Duration>,
    lifetime: Option<Duration>,
    create: bool,
    migrate: bool,
    with_url: SqliteStoreBuilder,
    with_min: SqliteStoreBuilder,
    with_max: SqliteStoreBuilder,
    with_idle: SqliteStoreBuilder,
    with_lifetime: SqliteStoreBuilder,
    with_create: SqliteStoreBuilder,
    with_migrate: SqliteStoreBuilder,
    build: Build,
    built_url: &str,
    options: PoolOptions,
)
    requires
        call_ensures(SqliteStoreBuilder::database_url, (builder, url), with_url),
        call_ensures(SqliteStoreBuilder::min_connections, (with_url, min), with_min),
        call_ensures(SqliteStoreBuilder::max_connections, (with_min, max), with_max),
        call_ensures(SqliteStoreBuilder::idle_timeout, (with_max, idle), with_idle),
        call_ensures(SqliteStoreBuilder::max_lifetime, (with_idle, lifetime), with_lifetime),
        call_ensures(SqliteStoreBuilder::create_database, (with_lifetime, create), with_create),
        call_ensures(SqliteStoreBuilder::run_default_migrations, (with_create, migrate), with_migrate),
        call_ensures(SqliteStoreBuilder::build, (with_migrate,), build),
        call_ensures(Build::url, (&build,), built_url),
        call_ensures(Build::pool_options, (&build,), options),
    ensures
        built_url@ == url@,
        options.min_connections == min,
        options.max_connections == max,
        options.idle_timeout == idle,
        options.max_lifetime == lifetime,
        build.config().create_database == create,
        build.config().run_migrations == migrate,
        with_url@ == (StoreConfig { url: url@, ..builder@ }),
        with_min@ == (StoreConfig {
            pool: PoolOptions { min_connections: min, ..with_url@.pool },
            ..with_url@
        }),
        with_max@ == (StoreConfig {
            pool: PoolOptions { max_connections: max, ..with_min@.pool },
            ..with_min@
        }),
        with_idle@ == (StoreConfig {
            pool: PoolOptions { idle_timeout: idle, ..with_max@.pool },
            ..with_max@
        }),
        with_lifetime@ == (StoreConfig {
            pool: PoolOptions { max_lifetime: lifetime, ..with_idle@.pool },
            ..with_idle@
        }),
        with_create@ == (StoreConfig { create_database: create, ..with_lifetime@ }),
        with_migrate@ == (StoreConfig { run_migrations: migrate, ..with_create@ }),
{
}

/// Opening a database begins with looking for it where it may have to be created, else with connecting
/// to it.
pub proof fn law_opening_begins_with_database(
    builder: SqliteStoreBuilder,
    build: Build,
    stage: BuildStage,
)
    requires
        call_ensures(SqliteStoreBuilder::build, (builder,), build),
        call_ensures(Build::next_stage, (&build,), stage),
    ensures
        builder@.create_database ==> stage is CheckDatabase,
        !builder@.create_database ==> stage is Connect,
        build.config() == builder@,
{
}

/// A database is created only where it was not found, connected to in any case, migrated exactly where
/// that was asked for, and open once its settings were read back, whether or not that was possible. Any
/// other failure ends the opening with its reason.
pub proof fn law_database_is_opened_in_stages(
    build: Build,
    stage: BuildStage,
    reply: Result<bool, String>,
    step: BuildStep,
)
    requires
        call_ensures(Build::next_stage, (&build,), stage),
        call_ensures(Build::advance, (build, reply), step),
    ensures
        step matches BuildStep::Perform(after) ==> after.config() == build.config(),
        stage is CheckDatabase ==> (reply matches Ok(found) ==> (step matches BuildStep::Perform(
            after,
        ) && (found ==> after.stage() is Connect) && (!found ==> after.stage() is CreateDatabase))),
        stage is CreateDatabase && reply is Ok ==> (step matches BuildStep::Perform(after)
            && after.stage() is Connect),
        stage is Connect && reply is Ok ==> (step matches BuildStep::Perform(after) && (
        build.config().run_migrations ==> after.stage() is Migrate) && (
        !build.config().run_migrations ==> after.stage() is LogPragmas)),
        stage is Migrate && reply is Ok ==> (step matches BuildStep::Perform(after)
            && after.stage() is LogPragmas),
        stage is LogPragmas ==> (step matches BuildStep::Finished(result) && result is Ok),
        stage is Migrate ==> (reply matches Err(reason) ==> (step matches BuildStep::Finished(
            Err(SqliteError::Migrate(told)),
        ) && told == reason)),
        stage is CheckDatabase || stage is CreateDatabase || stage is Connect ==> (
        reply matches Err(reason) ==> (step matches BuildStep::Finished(
            Err(SqliteError::Sqlite(told)),
        ) && told == reason)),
{
}

/// A database is created exactly where it doesn't exist, and dropped exactly where it does.
pub proof fn law_only_missing_database_is_created(
    found: Result<bool, String>,
    create: Result<bool, SqliteError>,
    dropped: Result<bool, SqliteError>,
)
    requires
        call_ensures(create_database, (found,), create),
        call_ensures(drop_database, (found,), dropped),
    ensures
        found matches Ok(exists_already) ==> {
            &&& create matches Ok(creates)
            &&& dropped matches Ok(drops)
            &&& creates != exists_already
            &&& drops == exists_already
        },
        found matches Err(reason) ==> {
            &&& create matches Err(SqliteError::Sqlite(first))
            &&& dropped matches Err(SqliteError::Sqlite(second))
            &&& first == reason
            &&& second == reason
        },
{
}

/// Every connection uses a write-ahead log, waits up to five seconds for a lock and synchronises
/// normally, set up in this order.
pub proof fn law_connections_are_set_up(statements: Vec<&'static str>)
    requires
        call_ensures(connection_pragmas, (), statements),
    ensures
        statements@.len() == 3,
        statements@[0]@ == "PRAGMA journal_mode=wal;"@,
        statements@[1]@ == "PRAGMA busy_timeout=5000;"@,
        statements@[2]@ == "PRAGMA synchronous=NORMAL;"@,
        BEGIN_STATEMENT@ == "BEGIN IMMEDIATE"@,
{
}

/// Settings are reported as they were read where all of them could be, else every single attempt is.
pub proof fn law_settings_are_reported(
    journal_mode: Result<String, String>,
    busy_timeout: Result<i64, String>,
    synchronous: Result<i64, String>,
    report: PragmaReport,
)
    requires
        call_ensures(report_pragmas, (journal_mode, busy_timeout, synchronous), report),
    ensures
        report is Opened <==> journal_mode is Ok && busy_timeout is Ok && synchronous is Ok,
        report matches PragmaReport::Opened { journal_mode: mode, busy_timeout: timeout, synchronous: level }
            ==> {
            &&& journal_mode == Ok::<String, String>(mode)
            &&& busy_timeout == Ok::<i64, String>(timeout)
            &&& synchronous == Ok::<i64, String>(level)
        },
        report matches PragmaReport::ReadFailed {
            journal_mode_read,
            busy_timeout_read,
            synchronous_read,
        } ==> {
            &&& journal_mode_read == journal_mode
            &&& busy_timeout_read == busy_timeout
            &&& synchronous_read == synchronous
        },
{
}

/// Errors are described by their reasons.
pub proof fn law_store_errors_are_described(
    error: &SqliteError,
    message: String,
    decode: &DecodeError,
    reason: String,
)
    requires
        call_ensures(SqliteError::message, (error,), message),
        call_ensures(DecodeError::message, (decode,), reason),
    ensures
        *error is TransactionMissing ==> message@
            == "tried to interact with inexistant transaction"@,
        *error matches SqliteError::Sqlite(told) ==> message@ == told@,
        *error matches SqliteError::Migrate(told) ==> message@ == told@,
        *error matches SqliteError::Encode(what, told) ==> message@ == "failed encoding '"@ + what@
            + "' value before storing to database: "@ + told@,
        *error matches SqliteError::Decode(what, inner) ==> (inner == *decode ==> message@
            == "could not decode corrupted '"@ + what@ + "' value from database: "@ + reason@),
        *decode matches DecodeError::Cbor(told) ==> reason@ == told@,
        *decode matches DecodeError::Header(told) ==> reason@ == told@,
        *decode matches DecodeError::Hash(told) ==> reason@ == told@,
        *decode matches DecodeError::Topic(told) ==> reason@ == told@,
        *decode is FromStr ==> reason@ == "parsing from string failed"@,
{
}

/// Only one process at a time holds the permit: whoever asks while it is held doesn't get it and changes
/// nothing, and whoever gets it holds it. An open transaction is not touched by asking.
pub proof fn law_permit_is_exclusive(
    first: &mut TransactionGate,
    second: &mut TransactionGate,
    acquired: bool,
    again: bool,
)
    requires
        call_ensures(TransactionGate::try_acquire, (first,), acquired),
        *old(second) == *final(first),
        call_ensures(TransactionGate::try_acquire, (second,), again),
    ensures
        acquired <==> !old(first)@.held,
        final(first)@.held,
        final(first)@.open == old(first)@.open,
        !again,
        final(second)@ == old(second)@,
{
}

/// A new database has a free permit and no transaction, and queries need a transaction which began.
pub proof fn law_queries_need_transaction(
    fresh: TransactionGate,
    missing: Result<(), SqliteError>,
    gate: &TransactionGate,
    result: Result<(), SqliteError>,
)
    requires
        call_ensures(TransactionGate::new, (), fresh),
        call_ensures(TransactionGate::tx, (&fresh,), missing),
        call_ensures(TransactionGate::tx, (gate,), result),
    ensures
        !fresh@.held,
        !fresh@.open,
        missing matches Err(error) && error is TransactionMissing,
        gate@.open <==> result is Ok,
        !gate@.open ==> (result matches Err(error) && error is TransactionMissing),
{
}

/// A transaction begins on its own: one which was left open is rolled back before, and it is told so.
/// Where beginning fails the permit is released with the reason, else a transaction is open.
pub proof fn law_transaction_begins_clean(
    beginning: &mut TransactionGate,
    begun: &mut TransactionGate,
    stale: bool,
    reply: Result<(), String>,
    result: Result<(), SqliteError>,
)
    requires
        old(beginning)@.held,
        call_ensures(TransactionGate::begin, (beginning,), stale),
        *old(begun) == *final(beginning),
        call_ensures(TransactionGate::begun, (begun, reply), result),
    ensures
        stale == old(beginning)@.open,
        final(beginning)@.held,
        !final(beginning)@.open,
        reply is Ok ==> result is Ok && final(begun)@.held && final(begun)@.open,
        reply matches Err(reason) ==> {
            &&& result matches Err(SqliteError::Sqlite(told))
            &&& told == reason
            &&& !final(begun)@.held
            &&& !final(begun)@.open
        },
{
}

/// A transaction which is taken is no longer open, and the permit is held until the commit or rollback
/// has come to its end. Whatever came of it, the permit is free then and the error is told.
pub proof fn law_transaction_ends_with_free_permit(
    taking: &mut TransactionGate,
    finishing: &mut TransactionGate,
    reply: Result<(), String>,
    result: Result<(), SqliteError>,
    next: &mut TransactionGate,
    acquired: bool,
)
    requires
        old(taking)@.held,
        old(taking)@.open,
        call_ensures(TransactionGate::take, (taking,), ()),
        *old(finishing) == *final(taking),
        call_ensures(TransactionGate::finish, (finishing, reply), result),
        *old(next) == *final(finishing),
        call_ensures(TransactionGate::try_acquire, (next,), acquired),
    ensures
        final(taking)@.held,
        !final(taking)@.open,
        !final(finishing)@.held,
        !final(finishing)@.open,
        acquired,
        reply is Ok ==> result is Ok,
        reply matches Err(reason) ==> (result matches Err(SqliteError::Sqlite(told)) && told
            == reason),
{
}

/// A permit which is dropped has its transaction rolled back exactly where one is open, and is only
/// free after it was released. Releasing a permit alone leaves an open transaction for the next
/// holder to roll back.
pub proof fn law_dropped_permit_is_released_after_rollback(
    dropping: &mut TransactionGate,
    releasing: &mut TransactionGate,
    roll_back: bool,
    cancelled: &mut TransactionGate,
)
    requires
        old(dropping)@.held,
        call_ensures(TransactionGate::permit_dropped, (dropping,), roll_back),
        *old(releasing) == *final(dropping),
        call_ensures(TransactionGate::release, (releasing,), ()),
        call_ensures(TransactionGate::release, (cancelled,), ()),
    ensures
        roll_back == old(dropping)@.open,
        final(dropping)@.held,
        !final(dropping)@.open,
        !final(releasing)@.held,
        !final(releasing)@.open,
        !final(cancelled)@.held,
        final(cancelled)@.open == old(cancelled)@.open,
{
}

} // verus!
