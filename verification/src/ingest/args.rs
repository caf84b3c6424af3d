//! Arguments of an ingestion.

use vstd::prelude::*;

verus! {

/// Where an operation belongs to.
#[derive(Clone, Copy, Debug, PartialEq, Eq)]
pub struct IngestArgs<L, TP> {
    /// The author's log.
    pub log_id: L,

    /// The topic which the log is associated with.
    pub topic: TP,

    /// Whether the operation makes all earlier ones of its log redundant.
    pub prune_flag: bool,
}

} // verus!
