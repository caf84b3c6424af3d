//! The logs which a topic resolves to.

use crate::collections::{index_of, map_of, VecMap};
use crate::types::{LogId, VerifyingKey};
use vstd::prelude::*;

verus! {

/// Whether two lists name the same logs in the same order.
fn same_log_ids(left: &Vec<LogId>, right: &Vec<LogId>) -> (same: bool)
    ensures
        same == (left@ == right@),
{
    if left.len() != right.len() {
        return false;
    }
    let mut index: usize = 0;
    while index < left.len()
        invariant
            left@.len() == right@.len(),
            index <= left@.len(),
            forall|i: int| 0 <= i < index ==> left@[i] == right@[i],
        decreases left@.len() - index,
    {
        if left[index] != right[index] {
            return false;
        }
        index = index + 1;
    }
    assert(left@ =~= right@);
    true
}

/// The logs of every author which are part of a topic.
///
/// A sync session resolves them once when it starts. They are its baseline: logs which get
/// associated with the topic later are not part of that session.
#[derive(Debug)]
pub struct ResolvedLogs {
    authors: VecMap<VerifyingKey, Vec<LogId>>,
}

impl ResolvedLogs {
    /// The logs of every author.
    pub closed spec fn view(&self) -> Map<VerifyingKey, Seq<LogId>> {
        self.authors@.map_values(|logs: Vec<LogId>| logs@)
    }

    /// No author occurs twice.
    pub closed spec fn wf(&self) -> bool {
        self.authors.wf()
    }

    pub fn new() -> (logs: Self)
        ensures
            logs.wf(),
            logs@ == Map::<VerifyingKey, Seq<LogId>>::empty(),
    {
        let logs = ResolvedLogs { authors: VecMap::new() };
        assert(logs@ =~= Map::<VerifyingKey, Seq<LogId>>::empty());
        logs
    }

    /// Sets the logs of an author.
    pub fn insert(&mut self, author: VerifyingKey, logs: Vec<LogId>)
        requires
            old(self).wf(),
        ensures
            final(self).wf(),
            final(self)@ == old(self)@.insert(author, logs@),
    {
        self.authors.insert(author, logs);
        assert(self@ =~= old(self)@.insert(author, logs@));
    }

    /// Whether every author of `other` has the same logs here.
    fn covers(&self, other: &ResolvedLogs) -> (covers: bool)
        requires
            self.wf(),
            other.wf(),
        ensures
            covers == (forall|author: VerifyingKey| #[trigger]
                other@.contains_key(author) ==> self@.contains_key(author) && self@[author]
                    == other@[author]),
    {
        let ghost listed = other.authors.listed();
        proof {
            other.authors.lemma_listed();
        }
        let mut index: usize = 0;
        while index < other.authors.len()
            invariant
                self.wf(),
                other.wf(),
                index <= listed.len(),
                listed == other.authors.listed(),
                forall|i: int|
                    0 <= i < listed.len() ==> other.authors@.contains_key((#[trigger] listed[i]).0)
                        && other.authors@[listed[i].0] == listed[i].1,
                forall|i: int|
                    0 <= i < index ==> self@.contains_key((#[trigger] listed[i]).0)
                        && self@[listed[i].0] == listed[i].1@,
            decreases listed.len() - index,
        {
            let (author, logs) = other.authors.at(index);
            assert(other@.contains_key(*author) && other@[*author] == logs@);
            match self.authors.get(author) {
                Some(own) => {
                    if !same_log_ids(own, logs) {
                        return false;
                    }
                },
                None => {
                    return false;
                },
            }
            index = index + 1;
        }
        assert forall|author: VerifyingKey| #[trigger] other@.contains_key(author) implies self@.contains_key(
            author,
        ) && self@[author] == other@[author] by {
            assert(map_of(listed).contains_key(author));
            let i = index_of(listed, author);
            assert(listed[i].0 == author);
        }
        true
    }

    /// Whether both are the same logs.
    pub fn same(&self, other: &ResolvedLogs) -> (same: bool)
        requires
            self.wf(),
            other.wf(),
        ensures
            same == (self@ == other@),
    {
        let same = self.covers(other) && other.covers(self);
        if same {
            assert(self@ =~= other@);
        }
        same
    }
}

} // verus!
