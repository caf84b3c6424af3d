use p2panda::buffer::AsyncBuffer;
use p2panda::collections::{NumberMap, NumberSet, VecMap, VecSet};
use p2panda::endpoint::IrohConfig;
use p2panda::retry::{is_transient_store_error, retry_after, RETRY_ATTEMPTS};
use p2panda::store::sqlite::{
    connection_pragmas, create_database, drop_database, report_pragmas, BuildStage, BuildStep,
    DecodeError, PoolOptions, PragmaReport, SqliteError, SqliteStoreBuilder,
};
use p2panda::store::transaction::{TransactionGate, BEGIN_STATEMENT};
use p2panda::text::contains_text;
use p2panda::time::Duration;
use p2panda::types::{Topic, VerifyingKey, MAX_HEADER_ITEM_LEN};

/// Opens a database, returns the stages and how it ended.
fn open(
    builder: SqliteStoreBuilder,
    found: bool,
    failing: Option<BuildStage>,
) -> (Vec<BuildStage>, Result<(), SqliteError>) {
    let mut stages = Vec::new();
    let mut build = builder.build();
    loop {
        let stage = build.next_stage();
        stages.push(stage);
        let reply = if failing == Some(stage) {
            Err("broken".to_string())
        } else {
            Ok(found)
        };
        match build.advance(reply) {
            BuildStep::Perform(next) => build = next,
            BuildStep::Finished(result) => return (stages, result),
        }
    }
}

#[test]
fn default_configuration() {
    let build = SqliteStoreBuilder::new().build();
    assert_eq!(build.url(), ":memory:");
    assert_eq!(
        build.pool_options(),
        PoolOptions {
            min_connections: 3,
            max_connections: 16,
            idle_timeout: Some(Duration::from_secs(600)),
            max_lifetime: Some(Duration::from_secs(1800)),
        }
    );
}

#[test]
fn in_memory_configuration_keeps_its_connection() {
    let build = SqliteStoreBuilder::memory().build();
    assert_eq!(build.url(), ":memory:");
    assert_eq!(
        build.pool_options(),
        PoolOptions {
            min_connections: 1,
            max_connections: 1,
            idle_timeout: None,
            max_lifetime: None,
        }
    );
}

#[test]
fn custom_configuration() {
    let build = SqliteStoreBuilder::default()
        .database_url("sqlite://my.db")
        .min_connections(2)
        .max_connections(8)
        .idle_timeout(Some(Duration::from_secs(5)))
        .max_lifetime(None)
        .build();
    assert_eq!(build.url(), "sqlite://my.db");
    assert_eq!(
        build.pool_options(),
        PoolOptions {
            min_connections: 2,
            max_connections: 8,
            idle_timeout: Some(Duration { secs: 5, nanos: 0 }),
            max_lifetime: None,
        }
    );
}

#[test]
fn missing_database_is_created_and_migrated() {
    let (stages, result) = open(SqliteStoreBuilder::new(), false, None);
    assert!(result.is_ok());
    assert_eq!(
        stages,
        vec![
            BuildStage::CheckDatabase,
            BuildStage::CreateDatabase,
            BuildStage::Connect,
            BuildStage::Migrate,
            BuildStage::LogPragmas,
        ]
    );
}

#[test]
fn existing_database_is_not_created() {
    let (stages, result) = open(SqliteStoreBuilder::new(), true, None);
    assert!(result.is_ok());
    assert_eq!(
        stages,
        vec![
            BuildStage::CheckDatabase,
            BuildStage::Connect,
            BuildStage::Migrate,
            BuildStage::LogPragmas,
        ]
    );
}

#[test]
fn creation_and_migration_can_be_left_out() {
    let builder = SqliteStoreBuilder::new()
        .create_database(false)
        .run_default_migrations(false);
    let (stages, result) = open(builder, false, None);
    assert!(result.is_ok());
    assert_eq!(stages, vec![BuildStage::Connect, BuildStage::LogPragmas]);
}

#[test]
fn failing_stages_name_their_error() {
    for stage in [
        BuildStage::CheckDatabase,
        BuildStage::CreateDatabase,
        BuildStage::Connect,
    ] {
        let (stages, result) = open(SqliteStoreBuilder::new(), false, Some(stage));
        assert_eq!(stages.last(), Some(&stage));
        assert!(matches!(result, Err(SqliteError::Sqlite(_))));
    }
    let (_, result) = open(SqliteStoreBuilder::new(), false, Some(BuildStage::Migrate));
    assert!(matches!(result, Err(SqliteError::Migrate(_))));
    let (_, result) = open(SqliteStoreBuilder::new(), false, Some(BuildStage::LogPragmas));
    assert!(result.is_ok());
}

#[test]
fn databases_are_created_or_dropped_only_where_needed() {
    assert!(matches!(create_database(Ok(false)), Ok(true)));
    assert!(matches!(create_database(Ok(true)), Ok(false)));
    assert!(matches!(
        create_database(Err("io".to_string())),
        Err(SqliteError::Sqlite(_))
    ));
    assert!(matches!(drop_database(Ok(true)), Ok(true)));
    assert!(matches!(drop_database(Ok(false)), Ok(false)));
    assert!(matches!(
        drop_database(Err("io".to_string())),
        Err(SqliteError::Sqlite(_))
    ));
}

#[test]
fn connections_execute_pragmas_in_order() {
    assert_eq!(
        connection_pragmas(),
        vec![
            "PRAGMA journal_mode=wal;",
            "PRAGMA busy_timeout=5000;",
            "PRAGMA synchronous=NORMAL;",
        ]
    );
    assert_eq!(BEGIN_STATEMENT, "BEGIN IMMEDIATE");
}

#[test]
fn pragmas_are_reported() {
    let report = report_pragmas(Ok("wal".to_string()), Ok(5000), Ok(1));
    assert!(matches!(
        report,
        PragmaReport::Opened {
            busy_timeout: 5000,
            synchronous: 1,
            ..
        }
    ));
    let report = report_pragmas(Ok("wal".to_string()), Err("io".to_string()), Ok(1));
    assert!(matches!(
        report,
        PragmaReport::ReadFailed {
            busy_timeout_read: Err(_),
            synchronous_read: Ok(1),
            ..
        }
    ));
}

#[test]
fn errors_describe_themselves() {
    assert_eq!(
        SqliteError::TransactionMissing.message(),
        "tried to interact with inexistant transaction"
    );
    assert_eq!(SqliteError::Sqlite("locked".to_string()).message(), "locked");
    assert_eq!(SqliteError::Migrate("old".to_string()).message(), "old");
    assert_eq!(
        SqliteError::Encode("topic".to_string(), "too large".to_string()).message(),
        "failed encoding 'topic' value before storing to database: too large"
    );
    assert_eq!(
        SqliteError::Decode("hash".to_string(), DecodeError::FromStr).message(),
        "could not decode corrupted 'hash' value from database: parsing from string failed"
    );
    for error in [
        DecodeError::Cbor("broken".to_string()),
        DecodeError::Header("broken".to_string()),
        DecodeError::Hash("broken".to_string()),
        DecodeError::Topic("broken".to_string()),
    ] {
        assert_eq!(error.message(), "broken");
    }
}

fn begin(gate: &mut TransactionGate) -> bool {
    assert!(gate.try_acquire());
    let stale = gate.begin();
    gate.begun(Ok(())).unwrap();
    stale
}

#[test]
fn transaction_provider() {
    let mut gate = TransactionGate::new();

    // Executing with an in-existant transaction should throw error.
    assert!(matches!(gate.tx(), Err(SqliteError::TransactionMissing)));

    // Starting a new transaction should work.
    assert!(!begin(&mut gate));

    // .. attempting to start a second one should make us wait.
    assert!(!gate.try_acquire());

    // Using the transaction should work without failure.
    assert!(gate.tx().is_ok());

    // Committing should work as well.
    gate.take();
    assert!(gate.finish(Ok(())).is_ok());

    // .. and now running a transaction should fail.
    assert!(matches!(gate.tx(), Err(SqliteError::TransactionMissing)));
}

#[test]
fn early_permit_drop_causing_rollback() {
    let mut gate = TransactionGate::new();
    begin(&mut gate);

    // Permit was dropped prematurely without committing.
    assert!(gate.permit_dropped());

    // Nobody can begin before the rollback has completed.
    assert!(!gate.try_acquire());
    gate.release();

    // It is okay to start another permit.
    assert!(!begin(&mut gate));
}

#[test]
fn cancelled_holder_never_poisons_begin() {
    let mut gate = TransactionGate::new();
    begin(&mut gate);

    // The permit was released, but nobody took care of the transaction.
    gate.release();

    // The next one finds it stale and begins with its own.
    assert!(begin(&mut gate));
    assert!(gate.tx().is_ok());
}

#[test]
fn serialized_transactions() {
    let mut gate = TransactionGate::new();
    for _ in 0..16 {
        begin(&mut gate);
        assert!(!gate.try_acquire());
        gate.take();
        gate.finish(Ok(())).unwrap();
    }
}

#[test]
fn failures_release_the_permit() {
    let mut gate = TransactionGate::new();
    assert!(gate.try_acquire());
    gate.begin();
    let result = gate.begun(Err("locked".to_string()));
    assert!(matches!(result, Err(SqliteError::Sqlite(_))));
    assert!(gate.tx().is_err());

    begin(&mut gate);
    gate.take();
    let result = gate.finish(Err("disk is full".to_string()));
    assert_eq!(result.unwrap_err().message(), "disk is full");
    assert!(!begin(&mut gate));
}

#[test]
fn transient_errors_are_recognised() {
    assert!(is_transient_store_error("error (code: 5) database is locked"));
    assert!(is_transient_store_error("SQLITE_BUSY"));
    assert!(!is_transient_store_error("database is lock"));
    assert!(!is_transient_store_error(""));
    assert!(contains_text("abc", ""));
    assert!(contains_text("ababc", "abc"));
    assert!(!contains_text("abab", "abc"));
    assert!(contains_text("größe", "ße"));
}

#[test]
fn backoff_grows_and_ends() {
    let message = "database is locked";
    assert_eq!(retry_after(1, message), Some(10));
    assert_eq!(retry_after(2, message), Some(50));
    assert_eq!(retry_after(3, message), Some(250));
    assert_eq!(retry_after(RETRY_ATTEMPTS, message), None);
    assert_eq!(retry_after(1, "disk is full"), None);
}

#[test]
fn small_maps_and_sets() {
    let key = |low: u128| VerifyingKey { high: 0, low };
    let mut map: VecMap<VerifyingKey, &str> = VecMap::new();
    map.insert(key(1), "one");
    map.insert(key(2), "two");
    map.insert(key(1), "uno");
    assert_eq!(map.len(), 2);
    assert_eq!(map.get(&key(1)), Some(&"uno"));
    assert_eq!(map.remove(&key(1)), Some("uno"));
    assert_eq!(map.remove(&key(1)), None);
    assert!(map.contains_key(&key(2)));
    map.clear();
    assert_eq!(map.len(), 0);

    let mut set: VecSet<VerifyingKey> = VecSet::new();
    assert!(set.insert(key(3)));
    assert!(!set.insert(key(3)));
    assert_eq!(set.to_vec(), vec![key(3)]);
    assert!(set.remove(&key(3)));
    assert!(!set.remove(&key(3)));
    assert!(!set.contains(&key(3)));
}

#[test]
fn maps_and_sets_of_numbers() {
    let dogs = Topic { high: 0, low: 1 };
    let cats = Topic { high: 0, low: 2 };
    let mut map: NumberMap<Topic> = NumberMap::new();
    map.insert(1, cats);
    map.insert(2, dogs);
    map.insert(3, cats);
    map.insert(1, dogs);
    assert_eq!(map.get(1), Some(&dogs));
    assert_eq!(map.get(4), None);
    let mut keys = map.keys_with(&dogs);
    keys.sort();
    assert_eq!(keys, vec![1, 2]);
    assert_eq!(map.remove(3), Some(cats));
    assert_eq!(map.remove(3), None);
    assert!(map.keys_with(&cats).is_empty());

    let mut set = NumberSet::new();
    set.insert(3);
    set.insert(3);
    assert!(set.contains(3));
    set.remove(3);
    assert!(!set.contains(3));
    set.insert(4);
    set.clear();
    assert!(!set.contains(4));
}

#[test]
fn buffer_hands_out_items_in_order() {
    let mut buffer = AsyncBuffer::default();
    assert_eq!(buffer.try_pop(), None);
    buffer.push(1);
    buffer.push(2);
    assert_eq!(buffer.try_pop(), Some(1));
    assert_eq!(buffer.try_pop(), Some(2));
    assert_eq!(buffer.try_pop(), None);
}

#[test]
fn endpoint_binds_to_anything_by_default() {
    let config: IrohConfig<()> = IrohConfig::default();
    assert_eq!(config.bind_ip_v4, 0);
    assert_eq!(config.bind_port_v4, 0);
    assert_eq!(config.bind_ip_v6, 0);
    assert_eq!(config.bind_port_v6, 0);
    assert!(config.quic_transport_config.is_none());
}

#[test]
fn header_items_are_limited() {
    assert_eq!(MAX_HEADER_ITEM_LEN, 65536);
}
