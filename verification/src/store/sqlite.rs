//! SQLite database configuration and how a database is opened.

use crate::time::Duration;
use vstd::prelude::*;

verus! {

/// Journal mode applied to every pool connection on open.
///
/// With a write-ahead log readers proceed concurrently with a writer holding an open transaction,
/// instead of contending for the single rollback-journal file.
pub const SQLITE_JOURNAL_MODE_PRAGMA: &'static str = "PRAGMA journal_mode=wal;";

/// Busy timeout (milliseconds) applied to every pool connection on open.
///
/// If a connection still finds the database locked, SQLite retries internally for up to this long
/// before it returns an error.
pub const SQLITE_BUSY_TIMEOUT_PRAGMA: &'static str = "PRAGMA busy_timeout=5000;";

/// Synchronous level applied to every pool connection on open.
///
/// With a write-ahead log this is still crash-safe, it only relaxes that the most recent commits
/// may be rolled back if the machine loses power.
pub const SQLITE_SYNCHRONOUS_PRAGMA: &'static str = "PRAGMA synchronous=NORMAL;";

/// Error decoding value retrieved from a store.
#[derive(Debug)]
pub enum DecodeError {
    Cbor(String),
    Header(String),
    Hash(String),
    Topic(String),
    FromStr,
}

/// What a decoding error says.
pub open spec fn decode_text(error: DecodeError) -> Seq<char> {
    match error {
        DecodeError::Cbor(reason) => reason@,
        DecodeError::Header(reason) => reason@,
        DecodeError::Hash(reason) => reason@,
        DecodeError::Topic(reason) => reason@,
        DecodeError::FromStr => "parsing from string failed"@,
    }
}

impl DecodeError {
    /// Describes the error to humans.
    pub fn message(&self) -> (message: String)
        ensures
            message@ == decode_text(*self),
    {
        match self {
            DecodeError::Cbor(reason) => reason.clone(),
            DecodeError::Header(reason) => reason.clone(),
            DecodeError::Hash(reason) => reason.clone(),
            DecodeError::Topic(reason) => reason.clone(),
            DecodeError::FromStr => "parsing from string failed".to_owned(),
        }
    }
}

/// Error when interacting with a SQLite store implementation.
#[derive(Debug)]
pub enum SqliteError {
    /// This is a critical error as it indicates that something is wrong with the usage of this API:
    /// Queries using transactions can only ever occur if a transaction was started _before_.
    TransactionMissing,

    /// SQLite database and connection error.
    Sqlite(String),

    /// SQL table schema migration error.
    Migrate(String),

    /// An I/O error occurred while encoding bytes before storing them into the database. This is a
    /// critical error.
    Encode(String, String),

    /// Invalid, corrupted data was found in the database. This is a critical error.
    Decode(String, DecodeError),
}

/// What an error says.
pub open spec fn error_text(error: SqliteError) -> Seq<char> {
    match error {
        SqliteError::TransactionMissing => "tried to interact with inexistant transaction"@,
        SqliteError::Sqlite(reason) => reason@,
        SqliteError::Migrate(reason) => reason@,
        SqliteError::Encode(what, reason) => "failed encoding '"@ + what@
            + "' value before storing to database: "@ + reason@,
        SqliteError::Decode(what, reason) => "could not decode corrupted '"@ + what@
            + "' value from database: "@ + decode_text(reason),
    }
}

impl SqliteError {
    /// Describes the error to humans.
    pub fn message(&self) -> (message: String)
        ensures
            message@ == error_text(*self),
    {
        match self {
            SqliteError::TransactionMissing => {
                "tried to interact with inexistant transaction".to_owned()
            },
            SqliteError::Sqlite(reason) => reason.clone(),
            SqliteError::Migrate(reason) => reason.clone(),
            SqliteError::Encode(what, reason) => {
                "failed encoding '".to_owned().concat(what.as_str()).concat(
                    "' value before storing to database: ",
                ).concat(reason.as_str())
            },
            SqliteError::Decode(what, reason) => {
                let reason = reason.message();
                "could not decode corrupted '".to_owned().concat(what.as_str()).concat(
                    "' value from database: ",
                ).concat(reason.as_str())
            },
        }
    }
}

/// How connections to the database are pooled.
#[derive(Clone, Copy, Debug, PartialEq, Eq, Structural)]
pub struct PoolOptions {
    pub min_connections: u32,
    pub max_connections: u32,
    pub idle_timeout: Option<Duration>,
    pub max_lifetime: Option<Duration>,
}

/// The statements which every connection of a pool executes on open, in this order.
pub open spec fn pragmas() -> Seq<Seq<char>> {
    seq![
        SQLITE_JOURNAL_MODE_PRAGMA@,
        SQLITE_BUSY_TIMEOUT_PRAGMA@,
        SQLITE_SYNCHRONOUS_PRAGMA@,
    ]
}

/// The statements which every connection of a pool executes on open, in this order.
pub fn connection_pragmas() -> (statements: Vec<&'static str>)
    ensures
        statements@.len() == pragmas().len(),
        forall|i: int| 0 <= i < statements@.len() ==> (#[trigger] statements@[i])@ == pragmas()[i],
{
    let mut statements: Vec<&'static str> = Vec::new();
    statements.push(SQLITE_JOURNAL_MODE_PRAGMA);
    statements.push(SQLITE_BUSY_TIMEOUT_PRAGMA);
    statements.push(SQLITE_SYNCHRONOUS_PRAGMA);
    statements
}

/// What was read back of a connection's settings.
#[derive(Debug)]
pub enum PragmaReport {
    /// All of them could be read.
    Opened { journal_mode: String, busy_timeout: i64, synchronous: i64 },

    /// Reading some of them failed.
    ReadFailed {
        journal_mode_read: Result<String, String>,
        busy_timeout_read: Result<i64, String>,
        synchronous_read: Result<i64, String>,
    },
}

/// Puts together what was read back of a connection's settings, so a runtime misconfiguration is
/// visible rather than silently assumed.
pub fn report_pragmas(
    journal_mode: Result<String, String>,
    busy_timeout: Result<i64, String>,
    synchronous: Result<i64, String>,
) -> (report: PragmaReport)
    ensures
        report == if journal_mode is Ok && busy_timeout is Ok && synchronous is Ok {
            PragmaReport::Opened {
                journal_mode: journal_mode->Ok_0,
                busy_timeout: busy_timeout->Ok_0,
                synchronous: synchronous->Ok_0,
            }
        } else {
            PragmaReport::ReadFailed {
                journal_mode_read: journal_mode,
                busy_timeout_read: busy_timeout,
                synchronous_read: synchronous,
            }
        },
{
    match (journal_mode, busy_timeout, synchronous) {
        (Ok(journal_mode), Ok(busy_timeout), Ok(synchronous)) => PragmaReport::Opened {
            journal_mode,
            busy_timeout,
            synchronous,
        },
        (journal_mode, busy_timeout, synchronous) => PragmaReport::ReadFailed {
            journal_mode_read: journal_mode,
            busy_timeout_read: busy_timeout,
            synchronous_read: synchronous,
        },
    }
}

/// Decides whether a database has to be created, given whether it exists already.
pub fn create_database(found: Result<bool, String>) -> (create: Result<bool, SqliteError>)
    ensures
        create == match found {
            Ok(found) => Ok::<bool, SqliteError>(!found),
            Err(reason) => Err(SqliteError::Sqlite(reason)),
        },
{
    match found {
        Ok(found) => Ok(!found),
        Err(reason) => Err(SqliteError::Sqlite(reason)),
    }
}

/// Decides whether a database has to be dropped, given whether it exists.
pub fn drop_database(found: Result<bool, String>) -> (dropped: Result<bool, SqliteError>)
    ensures
        dropped == match found {
            Ok(found) => Ok::<bool, SqliteError>(found),
            Err(reason) => Err(SqliteError::Sqlite(reason)),
        },
{
    match found {
        Ok(found) => Ok(found),
        Err(reason) => Err(SqliteError::Sqlite(reason)),
    }
}

/// Configuration of a store.
#[verifier::ext_equal]
pub struct StoreConfig {
    pub url: Seq<char>,
    pub pool: PoolOptions,
    pub run_migrations: bool,
    pub create_database: bool,
}

/// An in-memory database with up to 16 connections, which is created and migrated.
pub open spec fn default_config() -> StoreConfig {
    StoreConfig {
        url: ":memory:"@,
        pool: PoolOptions {
            min_connections: 3,
            max_connections: 16,
            idle_timeout: Some(Duration { secs: 600, nanos: 0 }),
            max_lifetime: Some(Duration { secs: 1800, nanos: 0 }),
        },
        run_migrations: true,
        create_database: true,
    }
}

/// Builder for a SQLite store.
///
/// By default, the builder configures an in-memory database with a maximum number of 16
/// connections. The database is created if it doesn't already exist and migrations are
/// automatically run on start-up.
#[derive(Debug)]
pub struct SqliteStoreBuilder {
    url: String,
    min_connections: u32,
    max_connections: u32,
    idle_timeout: Option<Duration>,
    max_lifetime: Option<Duration>,
    run_migrations: bool,
    create_database: bool,
}

impl Default for SqliteStoreBuilder {
    fn default() -> (builder: Self)
        ensures
            builder@ == default_config(),
    {
        SqliteStoreBuilder {
            url: ":memory:".to_owned(),
            min_connections: 3,
            max_connections: 16,
            idle_timeout: Some(Duration::from_secs(10 * 60)),
            max_lifetime: Some(Duration::from_secs(30 * 60)),
            run_migrations: true,
            create_database: true,
        }
    }
}

impl SqliteStoreBuilder {
    pub closed spec fn view(&self) -> StoreConfig {
        StoreConfig {
            url: self.url@,
            pool: PoolOptions {
                min_connections: self.min_connections,
                max_connections: self.max_connections,
                idle_timeout: self.idle_timeout,
                max_lifetime: self.max_lifetime,
            },
            run_migrations: self.run_migrations,
            create_database: self.create_database,
        }
    }

    /// Creates a new `SqliteStoreBuilder` using default configuration values.
    pub fn new() -> (builder: Self)
        ensures
            builder@ == default_config(),
    {
        Self::default()
    }

    /// Creates a new in-memory `SqliteStoreBuilder` using recommended configuration values.
    ///
    /// The configuration values have been chosen to prevent the in-memory database being dropped
    /// when there are no active connections and the idle timeout or max lifetime limit is reached.
    pub fn memory() -> (builder: Self)
        ensures
            builder@ == (StoreConfig {
                pool: PoolOptions {
                    min_connections: 1,
                    max_connections: 1,
                    idle_timeout: None,
                    max_lifetime: None,
                },
                ..default_config()
            }),
    {
        Self::default().database_url(":memory:").min_connections(1).max_connections(1).idle_timeout(
            None,
        ).max_lifetime(None)
    }

    /// Sets the database URL.
    ///
    /// If left unset, the database will use an ephemeral in-memory URL.
    pub fn database_url(self, url: &str) -> (builder: Self)
        ensures
            builder@ == (StoreConfig { url: url@, ..self@ }),
    {
        SqliteStoreBuilder { url: url.to_owned(), ..self }
    }

    /// Sets the minimum number of connections to be maintained by the database pool.
    ///
    /// If left unset, a minimum of 3 connections will be maintained.
    pub fn min_connections(self, min_connections: u32) -> (builder: Self)
        ensures
            builder@ == (StoreConfig {
                pool: PoolOptions { min_connections, ..self@.pool },
                ..self@
            }),
    {
        SqliteStoreBuilder { min_connections, ..self }
    }

    /// Sets the maximum number of connections to be maintained by the database pool.
    ///
    /// If left unset, a maximum of 16 connections will be maintained.
    pub fn max_connections(self, max_connections: u32) -> (builder: Self)
        ensures
            builder@ == (StoreConfig {
                pool: PoolOptions { max_connections, ..self@.pool },
                ..self@
            }),
    {
        SqliteStoreBuilder { max_connections, ..self }
    }

    /// Set a maximum idle duration for individual connections.
    ///
    /// Any connection that remains in the idle queue longer than this will be closed.
    pub fn idle_timeout(self, timeout: Option<Duration>) -> (builder: Self)
        ensures
            builder@ == (StoreConfig {
                pool: PoolOptions { idle_timeout: timeout, ..self@.pool },
                ..self@
            }),
    {
        SqliteStoreBuilder { idle_timeout: timeout, ..self }
    }

    /// Set the maximum lifetime of individual connections.
    ///
    /// Any connection with a lifetime greater than this will be closed.
    ///
    /// When set to `None`, all connections live until either reaped by `idle_timeout` or explicitly
    /// disconnected.
    pub fn max_lifetime(self, lifetime: Option<Duration>) -> (builder: Self)
        ensures
            builder@ == (StoreConfig {
                pool: PoolOptions { max_lifetime: lifetime, ..self@.pool },
                ..self@
            }),
    {
        SqliteStoreBuilder { max_lifetime: lifetime, ..self }
    }

    /// Creates the database if it doesn't already exist.
    ///
    /// If left unset, the database will be created by default.
    pub fn create_database(self, create_database: bool) -> (builder: Self)
        ensures
            builder@ == (StoreConfig { create_database, ..self@ }),
    {
        SqliteStoreBuilder { create_database, ..self }
    }

    /// Sets whether pending migrations should be applied when the database is built.
    ///
    /// If left unset, the database will apply any pending migrations.
    pub fn run_default_migrations(self, run_migrations: bool) -> (builder: Self)
        ensures
            builder@ == (StoreConfig { run_migrations, ..self@ }),
    {
        SqliteStoreBuilder { run_migrations, ..self }
    }

    /// Starts to build the store.
    pub fn build(self) -> (build: Build)
        ensures
            build.config() == self@,
            build.stage() == first_stage(self@),
    {
        let stage = if self.create_database {
            BuildStage::CheckDatabase
        } else {
            BuildStage::Connect
        };
        Build { builder: self, stage }
    }
}

/// What is done next to open a database.
#[derive(Clone, Copy, Debug, PartialEq, Eq, Structural)]
pub enum BuildStage {
    /// Check whether the database exists.
    CheckDatabase,

    /// Create the database.
    CreateDatabase,

    /// Connect to the database.
    Connect,

    /// Run pending migrations.
    Migrate,

    /// Read back the settings of a connection and log them. The store is open then, whatever comes
    /// of it.
    LogPragmas,
}

/// Where opening a database begins.
pub open spec fn first_stage(config: StoreConfig) -> BuildStage {
    if config.create_database {
        BuildStage::CheckDatabase
    } else {
        BuildStage::Connect
    }
}

/// How opening a database goes on.
pub enum BuildNext {
    Perform(BuildStage),
    Opened,
    Failed(SqliteError),
}

/// How opening a database goes on once a stage was successful, `found` being whether the database
/// exists.
pub open spec fn following_stage(config: StoreConfig, stage: BuildStage, found: bool) -> BuildNext {
    match stage {
        BuildStage::CheckDatabase => BuildNext::Perform(
            if found {
                BuildStage::Connect
            } else {
                BuildStage::CreateDatabase
            },
        ),
        BuildStage::CreateDatabase => BuildNext::Perform(BuildStage::Connect),
        BuildStage::Connect => BuildNext::Perform(
            if config.run_migrations {
                BuildStage::Migrate
            } else {
                BuildStage::LogPragmas
            },
        ),
        BuildStage::Migrate => BuildNext::Perform(BuildStage::LogPragmas),
        BuildStage::LogPragmas => BuildNext::Opened,
    }
}

/// How opening a database goes on after a reply. The reply says whether the database exists where
/// that was asked for.
pub open spec fn next_stage(
    config: StoreConfig,
    stage: BuildStage,
    reply: Result<bool, String>,
) -> BuildNext {
    match reply {
        Ok(found) => following_stage(config, stage, found),
        Err(reason) => match stage {
            BuildStage::Migrate => BuildNext::Failed(SqliteError::Migrate(reason)),
            BuildStage::LogPragmas => BuildNext::Opened,
            _ => BuildNext::Failed(SqliteError::Sqlite(reason)),
        },
    }
}

/// A database which is being opened, see [`SqliteStoreBuilder::build`].
#[derive(Debug)]
pub struct Build {
    builder: SqliteStoreBuilder,
    stage: BuildStage,
}

/// How opening a database goes on.
#[derive(Debug)]
pub enum BuildStep {
    /// Perform the next stage.
    Perform(Build),

    /// The store is open, or could not be opened.
    Finished(Result<(), SqliteError>),
}

impl Build {
    pub closed spec fn config(&self) -> StoreConfig {
        self.builder@
    }

    pub closed spec fn stage(&self) -> BuildStage {
        self.stage
    }

    /// What is done next.
    pub fn next_stage(&self) -> (stage: BuildStage)
        ensures
            stage == self.stage(),
    {
        self.stage
    }

    /// The database to connect to.
    pub fn url(&self) -> (url: &str)
        ensures
            url@ == self.config().url,
    {
        self.builder.url.as_str()
    }

    /// How connections are pooled.
    pub fn pool_options(&self) -> (options: PoolOptions)
        ensures
            options == self.config().pool,
    {
        PoolOptions {
            min_connections: self.builder.min_connections,
            max_connections: self.builder.max_connections,
            idle_timeout: self.builder.idle_timeout,
            max_lifetime: self.builder.max_lifetime,
        }
    }

    /// Goes on with what came of a stage.
    ///
    /// The reply says whether the database exists where that was asked for, its value plays no role
    /// otherwise.
    pub fn advance(self, reply: Result<bool, String>) -> (step: BuildStep)
        ensures
            match next_stage(self.config(), self.stage(), reply) {
                BuildNext::Perform(stage) => {
                    &&& step matches BuildStep::Perform(build)
                    &&& build.stage() == stage
                    &&& build.config() == self.config()
                },
                BuildNext::Opened => step == BuildStep::Finished(Ok(())),
                BuildNext::Failed(error) => step == BuildStep::Finished(Err(error)),
            },
    {
        let stage = match self.stage {
            BuildStage::CheckDatabase => match create_database(reply) {
                Ok(true) => BuildStage::CreateDatabase,
                Ok(false) => BuildStage::Connect,
                Err(error) => {
                    return BuildStep::Finished(Err(error));
                },
            },
            BuildStage::CreateDatabase => match reply {
                Ok(_) => BuildStage::Connect,
                Err(reason) => {
                    return BuildStep::Finished(Err(SqliteError::Sqlite(reason)));
                },
            },
            BuildStage::Connect => match reply {
                Ok(_) => if self.builder.run_migrations {
                    BuildStage::Migrate
                } else {
                    BuildStage::LogPragmas
                },
                Err(reason) => {
                    return BuildStep::Finished(Err(SqliteError::Sqlite(reason)));
                },
            },
            BuildStage::Migrate => match reply {
                Ok(_) => BuildStage::LogPragmas,
                Err(reason) => {
                    return BuildStep::Finished(Err(SqliteError::Migrate(reason)));
                },
            },
            BuildStage::LogPragmas => {
                return BuildStep::Finished(Ok(()));
            },
        };
        BuildStep::Perform(Build { builder: self.builder, stage })
    }
}

/// A database which was told not to create or migrate anything is only connected to.
pub proof fn law_plain_connect(config: StoreConfig)
    requires
        !config.create_database,
        !config.run_migrations,
    ensures
        first_stage(config) == BuildStage::Connect,
        following_stage(config, BuildStage::Connect, true) == BuildNext::Perform(
            BuildStage::LogPragmas,
        ),
{
}

/// An existing database is never created again.
pub proof fn law_existing_database_is_kept(config: StoreConfig)
    ensures
        next_stage(config, BuildStage::CheckDatabase, Ok(true)) == BuildNext::Perform(
            BuildStage::Connect,
        ),
{
}

} // verus!
