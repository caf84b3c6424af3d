//! Retrying after transient store errors.

use crate::text::{contains_text, has_text, text_at};
use vstd::prelude::*;

verus! {

/// Number of attempts before a transient store error is surfaced to the caller: one initial attempt
/// and three retries.
pub const RETRY_ATTEMPTS: usize = 4;

/// Whether a store error is transient.
pub open spec fn transient(message: Seq<char>) -> bool {
    has_text(message, "database is locked"@) || has_text(message, "SQLITE_BUSY"@)
}

/// Milliseconds to wait after the given attempt has failed.
pub open spec fn backoff_after(attempt: nat) -> u64 {
    if attempt <= 1 {
        10
    } else if attempt == 2 {
        50
    } else {
        250
    }
}

/// Milliseconds to wait in all, over the given number of failed attempts.
pub open spec fn total_backoff(attempts: nat) -> nat
    decreases attempts,
{
    if attempts == 0 {
        0
    } else {
        total_backoff((attempts - 1) as nat) + backoff_after(attempts) as nat
    }
}

/// Whether an attempt which failed with this message is followed by another one.
pub open spec fn retries(attempt: nat, message: Seq<char>) -> bool {
    transient(message) && attempt < RETRY_ATTEMPTS
}

/// Whether a store error is transient (the connection was briefly contended) and therefore worth
/// retrying, as opposed to a structural or critical failure which should surface immediately.
pub fn is_transient_store_error(message: &str) -> (result: bool)
    ensures
        result == transient(message@),
{
    contains_text(message, "database is locked") || contains_text(message, "SQLITE_BUSY")
}

/// Decides whether to try again after the given attempt has failed, and how many milliseconds to
/// wait before.
pub fn retry_after(attempt: usize, message: &str) -> (millis: Option<u64>)
    ensures
        millis == if retries(attempt as nat, message@) {
            Some(backoff_after(attempt as nat))
        } else {
            None
        },
{
    if attempt >= RETRY_ATTEMPTS || !is_transient_store_error(message) {
        return None;
    }
    if attempt <= 1 {
        Some(10)
    } else if attempt == 2 {
        Some(50)
    } else {
        Some(250)
    }
}

/// However often the store reports an error, there are at most four attempts and at most 310
/// milliseconds are spent waiting between them.
pub proof fn law_retries_are_bounded(attempt: nat, message: Seq<char>)
    requires
        retries(attempt, message),
    ensures
        attempt + 1 <= RETRY_ATTEMPTS,
        total_backoff(attempt) <= 310,
{
    reveal_with_fuel(total_backoff, 5);
}

/// An error which is not transient surfaces at once.
pub proof fn law_only_transient_errors_are_retried(attempt: nat, message: Seq<char>)
    requires
        !transient(message),
    ensures
        !retries(attempt, message),
{
}

/// A store error is transient exactly where its text says that the database is locked or busy.
pub proof fn law_locked_database_is_transient(message: &str, result: bool)
    requires
        call_ensures(is_transient_store_error, (message,), result),
    ensures
        result <==> exists|at: int, end: int|
            0 <= at <= end <= message@.len() && (#[trigger] message@.subrange(at, end)
                == "database is locked"@ || message@.subrange(at, end) == "SQLITE_BUSY"@),
{
    let locked = "database is locked"@;
    let busy = "SQLITE_BUSY"@;
    if has_text(message@, locked) {
        let at = choose|at: int| #[trigger] text_at(message@, locked, at);
        assert(message@.subrange(at, at + locked.len()) == locked);
    }
    if has_text(message@, busy) {
        let at = choose|at: int| #[trigger] text_at(message@, busy, at);
        assert(message@.subrange(at, at + busy.len()) == busy);
    }
    if exists|at: int, end: int|
        0 <= at <= end <= message@.len() && (#[trigger] message@.subrange(at, end) == locked
            || message@.subrange(at, end) == busy) {
        let (at, end) = choose|at: int, end: int|
            0 <= at <= end <= message@.len() && (#[trigger] message@.subrange(at, end) == locked
                || message@.subrange(at, end) == busy);
        assert(message@.subrange(at, end).len() == end - at);
        if message@.subrange(at, end) == locked {
            assert(text_at(message@, locked, at));
        } else {
            assert(text_at(message@, busy, at));
        }
    }
}

/// A transient error is followed by another attempt after 10, 50 and 250 milliseconds, and surfaces
/// after the fourth attempt. Any other error surfaces at once.
pub proof fn law_transient_error_is_retried_three_times(
    attempt: usize,
    message: &str,
    is_transient: bool,
    millis: Option<u64>,
)
    requires
        call_ensures(is_transient_store_error, (message,), is_transient),
        call_ensures(retry_after, (attempt, message), millis),
    ensures
        !is_transient ==> millis is None,
        attempt >= 4 ==> millis is None,
        is_transient && attempt <= 1 ==> millis == Some(10u64),
        is_transient && attempt == 2 ==> millis == Some(50u64),
        is_transient && attempt == 3 ==> millis == Some(250u64),
{
}

} // verus!
