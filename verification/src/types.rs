//! Identifiers, headers and operations.

use crate::shared::share;
use std::sync::Arc;
use vstd::prelude::*;

verus! {

/// Maximum size, in bytes, of any single CBOR item inside an encoded header (including the
/// `extensions` byte string).
///
/// This bounds how much memory a peer can be forced to allocate for a single header field while
/// decoding data received from the network, and what an encoder is willing to sign and store.
pub const MAX_HEADER_ITEM_LEN: usize = 64 * 1024;

/// Position of an operation in its log, counted from zero.
pub type SeqNum = u64;

/// Nodes are identified by the public key they sign with.
pub type NodeId = VerifyingKey;

/// BLAKE3 digest of an operation's header.
///
/// The 32 bytes are held as two big-endian words.
#[derive(Clone, Copy, Debug, PartialEq, Eq, Hash, Structural)]
pub struct OperationHash {
    pub high: u128,
    pub low: u128,
}

/// Ed25519 public key of an author or a node, held as two big-endian words.
#[derive(Clone, Copy, Debug, PartialEq, Eq, Hash, Structural)]
pub struct VerifyingKey {
    pub high: u128,
    pub low: u128,
}

/// Identifier of a topic, held as two big-endian words.
#[derive(Clone, Copy, Debug, PartialEq, Eq, Hash, Structural)]
pub struct Topic {
    pub high: u128,
    pub low: u128,
}

/// Identifier of one author's append-only log, held as two big-endian words.
#[derive(Clone, Copy, Debug, PartialEq, Eq, Hash, Structural)]
pub struct LogId {
    pub high: u128,
    pub low: u128,
}

/// One author's log.
///
/// Log ids alone name no single log: they are frequently shared by every author on a topic.
#[derive(Clone, Copy, Debug, PartialEq, Eq, Hash, Structural)]
pub struct AuthorLog {
    pub author: VerifyingKey,
    pub log_id: LogId,
}

/// The part of an operation's header that places it in its author's log.
#[derive(Clone, Copy, Debug, PartialEq, Eq, Structural)]
pub struct Header {
    /// Author of the operation.
    pub verifying_key: VerifyingKey,

    /// Position in the author's log.
    pub seq_num: SeqNum,

    /// Hash of the previous operation in the log, `None` for the first one.
    pub backlink: Option<OperationHash>,
}

/// The latest entry of a log.
#[derive(Clone, Copy, Debug, PartialEq, Eq, Structural)]
pub struct Frontier {
    /// Hash of the latest operation, which the next one has to link back to.
    pub hash: OperationHash,

    /// Header of the latest operation.
    pub header: Header,
}

/// An operation: its hash, its header and the content it carries.
///
/// The content (extensions, body, signature) never decides anything here and is shared between
/// copies of the operation.
#[derive(Clone, Debug, PartialEq, Eq)]
pub struct Operation<E> {
    pub hash: OperationHash,
    pub header: Header,
    pub content: Arc<E>,
}

impl<E> Operation<E> {
    /// Returns another copy of this operation.
    pub fn duplicate(&self) -> (copy: Self)
        ensures
            copy == *self,
    {
        Operation { hash: self.hash, header: self.header, content: share(&self.content) }
    }
}

/// Copies a whole batch of operations.
pub fn duplicate_all<E>(operations: &Vec<Operation<E>>) -> (copies: Vec<Operation<E>>)
    ensures
        copies@ == operations@,
{
    let mut copies: Vec<Operation<E>> = Vec::new();
    let mut index: usize = 0;
    while index < operations.len()
        invariant
            index <= operations@.len(),
            copies@ == operations@.take(index as int),
        decreases operations@.len() - index,
    {
        copies.push(operations[index].duplicate());
        index = index + 1;
    }
    copies
}

/// Copies of operations are no different from them, and a batch is copied in its order.
pub proof fn law_copies_are_the_same<E>(
    operation: &Operation<E>,
    copy: Operation<E>,
    operations: &Vec<Operation<E>>,
    copies: Vec<Operation<E>>,
)
    requires
        call_ensures(Operation::<E>::duplicate, (operation,), copy),
        call_ensures(duplicate_all::<E>, (operations,), copies),
    ensures
        copy.hash == operation.hash,
        copy.header == operation.header,
        copy.content == operation.content,
        copies@ == operations@,
{
}

} // verus!
