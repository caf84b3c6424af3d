//! Serialisation of transactions.
//!
//! SQLite only ever allows _one_ transaction at a time. A process which starts a transaction acquires
//! a permit and keeps it until the transaction was committed or rolled back.

use crate::store::sqlite::SqliteError;
use vstd::prelude::*;

verus! {

/// The statement which begins a transaction.
///
/// It acquires the write lock at the very start: a transaction which would otherwise race a
/// concurrent committer queues on the lock.
pub const BEGIN_STATEMENT: &'static str = "BEGIN IMMEDIATE";

/// Who may use the database's only transaction.
pub struct Gate {
    /// Whether some process holds the permit.
    pub held: bool,

    /// Whether a transaction is open.
    pub open: bool,
}

/// What happens to the permit and the transaction.
pub enum GateEvent {
    /// The permit is given to a process.
    Acquired,

    /// A transaction which was left behind is rolled back.
    Prepared,

    /// A transaction begins, or fails to.
    Begun(bool),

    /// The transaction is taken to be committed or rolled back.
    Taken,

    /// The commit or rollback has come to its end.
    Finished,

    /// The permit is dropped without being used.
    Dropped,

    /// The permit is given back.
    Released,
}

/// Whether an event can happen.
pub open spec fn possible(gate: Gate, event: GateEvent) -> bool {
    match event {
        GateEvent::Acquired => !gate.held,
        GateEvent::Prepared => gate.held,
        GateEvent::Begun(_) => gate.held && !gate.open,
        GateEvent::Taken => gate.held && gate.open,
        GateEvent::Finished => gate.held && !gate.open,
        GateEvent::Dropped => gate.held,
        GateEvent::Released => gate.held,
    }
}

/// The permit and the transaction after an event.
pub open spec fn happened(gate: Gate, event: GateEvent) -> Gate {
    match event {
        GateEvent::Acquired => Gate { held: true, ..gate },
        GateEvent::Prepared => Gate { open: false, ..gate },
        GateEvent::Begun(success) => Gate { held: success, open: success },
        GateEvent::Taken => Gate { open: false, ..gate },
        GateEvent::Finished => Gate { held: false, open: false },
        GateEvent::Dropped => Gate { open: false, ..gate },
        GateEvent::Released => Gate { held: false, ..gate },
    }
}

/// The permit and the transaction of a database.
#[derive(Debug)]
pub struct TransactionGate {
    held: bool,
    open: bool,
}

impl TransactionGate {
    pub closed spec fn view(&self) -> Gate {
        Gate { held: self.held, open: self.open }
    }

    pub fn new() -> (gate: Self)
        ensures
            gate@ == (Gate { held: false, open: false }),
    {
        TransactionGate { held: false, open: false }
    }

    /// Tries to get hold of the permit. Whoever fails has to wait until it is released.
    pub fn try_acquire(&mut self) -> (acquired: bool)
        ensures
            acquired == possible(old(self)@, GateEvent::Acquired),
            final(self)@ == if acquired {
                happened(old(self)@, GateEvent::Acquired)
            } else {
                old(self)@
            },
    {
        let acquired = !self.held;
        self.held = true;
        acquired
    }

    /// Prepares a new transaction. Returns whether a stale one has to be rolled back before.
    ///
    /// Under normal operation there is none. It was left behind by a process which was cancelled
    /// while it held the permit; whatever comes of the rollback, its writes are never committed.
    pub fn begin(&mut self) -> (stale: bool)
        requires
            possible(old(self)@, GateEvent::Prepared),
        ensures
            stale == old(self)@.open,
            final(self)@ == happened(old(self)@, GateEvent::Prepared),
    {
        let stale = self.open;
        self.open = false;
        stale
    }

    /// Takes note of what came of beginning a transaction. The permit is released if it failed.
    pub fn begun(&mut self, result: Result<(), String>) -> (begun: Result<(), SqliteError>)
        requires
            possible(old(self)@, GateEvent::Begun(result is Ok)),
        ensures
            match result {
                Ok(()) => begun is Ok,
                Err(reason) => begun == Err::<(), SqliteError>(SqliteError::Sqlite(reason)),
            },
            final(self)@ == happened(old(self)@, GateEvent::Begun(result is Ok)),
    {
        match result {
            Ok(()) => {
                self.open = true;
                Ok(())
            },
            Err(reason) => {
                self.held = false;
                Err(SqliteError::Sqlite(reason))
            },
        }
    }

    /// Checks that a query can be executed within a transaction.
    pub fn tx(&self) -> (result: Result<(), SqliteError>)
        ensures
            result == if self@.open {
                Ok::<(), SqliteError>(())
            } else {
                Err(SqliteError::TransactionMissing)
            },
    {
        if !self.open {
            return Err(SqliteError::TransactionMissing);
        }
        Ok(())
    }

    /// Takes the transaction to commit it or to roll it back.
    pub fn take(&mut self)
        requires
            possible(old(self)@, GateEvent::Taken),
        ensures
            final(self)@ == happened(old(self)@, GateEvent::Taken),
    {
        self.open = false;
    }

    /// Takes note of what came of a commit or rollback. The permit is always released.
    pub fn finish(&mut self, result: Result<(), String>) -> (finished: Result<(), SqliteError>)
        requires
            possible(old(self)@, GateEvent::Finished),
        ensures
            final(self)@ == happened(old(self)@, GateEvent::Finished),
            finished == match result {
                Ok(()) => Ok::<(), SqliteError>(()),
                Err(reason) => Err(SqliteError::Sqlite(reason)),
            },
    {
        self.held = false;
        match result {
            Ok(()) => Ok(()),
            Err(reason) => Err(SqliteError::Sqlite(reason)),
        }
    }

    /// Handles a permit which was dropped without being used (due to an early return or an error).
    /// Returns whether the transaction has to be rolled back.
    ///
    /// The permit is released with [`TransactionGate::release`] only after the rollback has
    /// completed.
    pub fn permit_dropped(&mut self) -> (roll_back: bool)
        requires
            possible(old(self)@, GateEvent::Dropped),
        ensures
            roll_back == old(self)@.open,
            final(self)@ == happened(old(self)@, GateEvent::Dropped),
    {
        let roll_back = self.open;
        self.open = false;
        roll_back
    }

    /// Releases the permit.
    ///
    /// Where its holder was cancelled the transaction can still be open.
    pub fn release(&mut self)
        ensures
            final(self)@ == happened(old(self)@, GateEvent::Released),
    {
        self.held = false;
    }
}

/// Transactions are strictly serialised: while one process holds the permit no other gets it, and
/// whoever gets it begins with a transaction of its own, even if an earlier holder was cancelled and
/// has left one behind.
pub proof fn law_transactions_are_serialised(gate: Gate, success: bool)
    ensures
        gate.held ==> !possible(gate, GateEvent::Acquired),
        !gate.held ==> {
            let acquired = happened(gate, GateEvent::Acquired);
            let prepared = happened(acquired, GateEvent::Prepared);
            &&& possible(acquired, GateEvent::Prepared)
            &&& possible(prepared, GateEvent::Begun(success))
            &&& happened(prepared, GateEvent::Begun(success)).open == success
        },
{
}

/// A transaction ends once: after it was taken it can't be taken again, no other process begins before
/// the commit or rollback has come to its end, and the permit is free then.
pub proof fn law_transaction_ends_once(gate: Gate)
    requires
        possible(gate, GateEvent::Taken),
    ensures
        ({
            let taken = happened(gate, GateEvent::Taken);
            &&& !possible(taken, GateEvent::Taken)
            &&& !possible(taken, GateEvent::Acquired)
            &&& possible(taken, GateEvent::Finished)
            &&& possible(happened(taken, GateEvent::Finished), GateEvent::Acquired)
        }),
{
}

/// A permit which was dropped without being used rolls its transaction back first and is released
/// then: no other process can begin in between, and nothing of the transaction is left.
pub proof fn law_dropped_permit_rolls_back(gate: Gate)
    requires
        possible(gate, GateEvent::Dropped),
    ensures
        ({
            let dropped = happened(gate, GateEvent::Dropped);
            let released = happened(dropped, GateEvent::Released);
            &&& !dropped.open
            &&& !possible(dropped, GateEvent::Acquired)
            &&& possible(dropped, GateEvent::Released)
            &&& possible(released, GateEvent::Acquired)
            &&& !released.open
        }),
{
}

/// Whatever ends the use of a permit, success or failure, it is free for the next process.
pub proof fn law_permit_is_always_released(gate: Gate, event: GateEvent)
    requires
        possible(gate, event),
        event is Finished || event is Released || event == GateEvent::Begun(false),
    ensures
        possible(happened(gate, event), GateEvent::Acquired),
{
}

} // verus!
