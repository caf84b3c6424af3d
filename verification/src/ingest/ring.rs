//! Bounded buffer of items which wait for their predecessor.

use crate::ordered::{
    keys_distinct, ring_clear, ring_clone, ring_entries, ring_first, ring_insert, ring_len, ring_new,
    ring_remove_at, ring_remove_key, RingId, RingKey,
};
use crate::types::{AuthorLog, LogId, Operation, OperationHash, VerifyingKey};
use indexmap::IndexMap;
use vstd::multiset::Multiset;
use vstd::prelude::*;

verus! {

/// A buffered item, under the key it waits on.
pub struct RingEntry<T> {
    pub author: VerifyingKey,
    pub backlink: Option<OperationHash>,
    pub log_id: LogId,
    pub id: OperationHash,
    pub item: T,
}

/// Whether `entry` is the item which `author` wrote right after `backlink` in the log `log_id`.
pub open spec fn waits_on<T>(
    entry: RingEntry<T>,
    author: VerifyingKey,
    backlink: Option<OperationHash>,
    log_id: LogId,
) -> bool {
    entry.author == author && entry.backlink == backlink && entry.log_id == log_id
}

/// Whether some entry of `ring` waits on this position.
pub open spec fn holds<T>(
    ring: Seq<RingEntry<T>>,
    author: VerifyingKey,
    backlink: Option<OperationHash>,
    log_id: LogId,
) -> bool {
    exists|i: int| 0 <= i < ring.len() && waits_on(#[trigger] ring[i], author, backlink, log_id)
}

/// Index of the entry which waits on this position.
pub open spec fn position<T>(
    ring: Seq<RingEntry<T>>,
    author: VerifyingKey,
    backlink: Option<OperationHash>,
    log_id: LogId,
) -> int {
    choose|i: int| 0 <= i < ring.len() && waits_on(#[trigger] ring[i], author, backlink, log_id)
}

/// Whether no two entries of `ring` wait on the same position.
pub open spec fn positions_distinct<T>(ring: Seq<RingEntry<T>>) -> bool {
    forall|i: int, j: int|
        0 <= i < j < ring.len() ==> !waits_on(
            #[trigger] ring[i],
            (#[trigger] ring[j]).author,
            ring[j].backlink,
            ring[j].log_id,
        )
}

/// What a full ring loses before it takes another item: its oldest entry.
pub open spec fn evicted<T>(ring: Seq<RingEntry<T>>, capacity: nat) -> Seq<RingEntry<T>> {
    if ring.len() >= capacity && ring.len() > 0 {
        ring.remove(0)
    } else {
        ring
    }
}

/// The log whose oldest entry a full ring loses when it takes another item.
pub open spec fn evicted_log<T>(ring: Seq<RingEntry<T>>, capacity: nat) -> Option<AuthorLog> {
    if ring.len() >= capacity && ring.len() > 0 {
        Some(AuthorLog { author: ring[0].author, log_id: ring[0].log_id })
    } else {
        None
    }
}

/// The ring after `entry` was pushed. An entry waiting on the same position is replaced in place,
/// any other entry goes last.
pub open spec fn pushed<T>(ring: Seq<RingEntry<T>>, capacity: nat, entry: RingEntry<T>) -> Seq<
    RingEntry<T>,
> {
    let kept = evicted(ring, capacity);
    if holds(kept, entry.author, entry.backlink, entry.log_id) {
        kept.update(position(kept, entry.author, entry.backlink, entry.log_id), entry)
    } else {
        kept.push(entry)
    }
}

/// The unbroken chain of entries which starts right after `backlink`, in the order of the log.
pub open spec fn chain<T>(
    ring: Seq<RingEntry<T>>,
    author: VerifyingKey,
    backlink: Option<OperationHash>,
    log_id: LogId,
) -> Seq<RingEntry<T>>
    decreases ring.len(),
{
    if holds(ring, author, backlink, log_id) {
        let i = position(ring, author, backlink, log_id);
        seq![ring[i]] + chain(ring.remove(i), author, Some(ring[i].id), log_id)
    } else {
        seq![]
    }
}

/// The ring without the chain which starts right after `backlink`.
pub open spec fn without_chain<T>(
    ring: Seq<RingEntry<T>>,
    author: VerifyingKey,
    backlink: Option<OperationHash>,
    log_id: LogId,
) -> Seq<RingEntry<T>>
    decreases ring.len(),
{
    if holds(ring, author, backlink, log_id) {
        let i = position(ring, author, backlink, log_id);
        without_chain(ring.remove(i), author, Some(ring[i].id), log_id)
    } else {
        ring
    }
}

/// The items of a sequence of entries.
pub open spec fn items_of<T>(entries: Seq<RingEntry<T>>) -> Seq<T> {
    entries.map_values(|entry: RingEntry<T>| entry.item)
}

/// Ring buffer of items keyed by `(author, backlink, log_id)`.
///
/// If the buffer runs full the oldest item gets evicted first.
#[derive(Debug)]
pub struct ChainRing<T> {
    /// Keys and ids of the buffered items, oldest first.
    buffer: IndexMap<RingKey, RingId>,

    /// The item of every entry of `buffer`, at the same index.
    items: Vec<T>,

    capacity: usize,
}

spec fn key_words(author: VerifyingKey, backlink: Option<OperationHash>, log_id: LogId) -> RingKey {
    (
        (author.high, author.low),
        match backlink {
            Some(hash) => Some((hash.high, hash.low)),
            None => None,
        },
        (log_id.high, log_id.low),
    )
}

spec fn hash_of(words: RingId) -> OperationHash {
    OperationHash { high: words.0, low: words.1 }
}

spec fn entry_of<T>(entry: (RingKey, RingId), item: T) -> RingEntry<T> {
    RingEntry {
        author: VerifyingKey { high: entry.0.0.0, low: entry.0.0.1 },
        backlink: match entry.0.1 {
            Some(words) => Some(hash_of(words)),
            None => None,
        },
        log_id: LogId { high: entry.0.2.0, low: entry.0.2.1 },
        id: hash_of(entry.1),
        item,
    }
}

fn ring_key(author: VerifyingKey, backlink: Option<OperationHash>, log_id: LogId) -> (key: RingKey)
    ensures
        key == key_words(author, backlink, log_id),
{
    let link: Option<(u128, u128)> = match backlink {
        Some(hash) => Some((hash.high, hash.low)),
        None => None,
    };
    ((author.high, author.low), link, (log_id.high, log_id.low))
}

impl<T> ChainRing<T> {
    /// The buffered entries, oldest first.
    pub closed spec fn view(&self) -> Seq<RingEntry<T>> {
        Seq::new(
            self.items@.len(),
            |i: int| entry_of(ring_entries(self.buffer)[i], self.items@[i]),
        )
    }

    /// Number of entries the ring keeps.
    pub closed spec fn limit(&self) -> nat {
        self.capacity as nat
    }

    /// Every entry has its item, no two entries share a key, and there are no more of them than the
    /// ring keeps.
    pub closed spec fn wf(&self) -> bool {
        &&& ring_entries(self.buffer).len() == self.items@.len()
        &&& keys_distinct(ring_entries(self.buffer))
        &&& self.items@.len() <= self.capacity || self.items@.len() <= 1
    }

    /// A ring never holds more entries than its capacity, or one where the capacity is zero.
    pub proof fn law_ring_is_bounded(&self)
        requires
            self.wf(),
        ensures
            self@.len() <= self.limit() || self@.len() <= 1,
    {
    }

    /// No two entries of a ring wait on the same position.
    pub proof fn lemma_positions_distinct(&self)
        requires
            self.wf(),
        ensures
            positions_distinct(self@),
    {
        let entries = ring_entries(self.buffer);
        assert forall|i: int, j: int| 0 <= i < j < self@.len() implies !waits_on(
            #[trigger] self@[i],
            (#[trigger] self@[j]).author,
            self@[j].backlink,
            self@[j].log_id,
        ) by {
            lemma_entry_words(entries[i], self.items@[i]);
            lemma_entry_words(entries[j], self.items@[j]);
        }
    }

    pub fn with_capacity(capacity: usize) -> (ring: Self)
        ensures
            ring.wf(),
            ring@ == Seq::<RingEntry<T>>::empty(),
            ring.limit() == capacity,
    {
        let ring = ChainRing { buffer: ring_new(), items: Vec::new(), capacity };
        assert(ring@ =~= Seq::<RingEntry<T>>::empty());
        ring
    }

    /// The log whose oldest entry the next push evicts, `None` as long as the ring isn't full.
    pub fn evicts_next(&self) -> (log: Option<AuthorLog>)
        requires
            self.wf(),
        ensures
            log == evicted_log(self@, self.limit()),
    {
        if self.items.len() < self.capacity {
            return None;
        }
        match ring_first(&self.buffer) {
            Some((author, _, log_id)) => Some(
                AuthorLog {
                    author: VerifyingKey { high: author.0, low: author.1 },
                    log_id: LogId { high: log_id.0, low: log_id.1 },
                },
            ),
            None => None,
        }
    }

    /// Adds an item under the position it waits on.
    ///
    /// A full ring evicts its oldest entry first.
    pub fn push(
        &mut self,
        author: VerifyingKey,
        id: OperationHash,
        backlink: Option<OperationHash>,
        log_id: LogId,
        item: T,
    )
        requires
            old(self).wf(),
        ensures
            final(self).wf(),
            final(self).limit() == old(self).limit(),
            final(self)@ == pushed(
                old(self)@,
                old(self).limit(),
                (RingEntry { author, backlink, log_id, id, item }),
            ),
    {
        let ghost entry = RingEntry { author, backlink, log_id, id, item };
        if self.items.len() >= self.capacity {
            // Index 0 is always whichever surviving entry was inserted longest ago.
            let oldest = ring_remove_at(&mut self.buffer, 0);
            if oldest.is_some() {
                self.items.remove(0);
            }
        }
        let ghost kept = self@;
        assert(kept =~= evicted(old(self)@, old(self).limit()));
        let key: RingKey = ring_key(author, backlink, log_id);
        let ghost entries = ring_entries(self.buffer);
        let (index, replaced) = ring_insert(&mut self.buffer, key, (id.high, id.low));
        proof {
            lemma_holds_words(entries, self.items@, author, backlink, log_id);
            assert(kept =~= Seq::new(
                entries.len(),
                |i: int| entry_of(entries[i], self.items@[i]),
            ));
            lemma_entry_words((key, (id.high, id.low)), item);
        }
        if replaced.is_some() {
            self.items.set(index, item);
            proof {
                lemma_entry_words(entries[index as int], kept[index as int].item);
                assert(waits_on(kept[index as int], author, backlink, log_id));
                lemma_position_unique(entries, kept, index as int, author, backlink, log_id);
                assert(self@ =~= kept.update(index as int, entry));
            }
        } else {
            self.items.push(item);
            assert(self@ =~= kept.push(entry));
        }
    }

    /// Pops all items which have a complete chain from the given position, for `author`'s own log
    /// only.
    ///
    /// The position is the id of the item _before_ the to-be-popped range:
    ///
    /// ```text
    /// [3] <- [4] <- [5] <- [6]
    ///  ^
    /// pop_from(3) -> [4, 5, 6]
    /// ```
    pub fn pop_from(&mut self, author: VerifyingKey, backlink: Option<OperationHash>, log_id: LogId) -> (result:
        Vec<T>)
        requires
            old(self).wf(),
        ensures
            final(self).wf(),
            final(self).limit() == old(self).limit(),
            result@ == items_of(chain(old(self)@, author, backlink, log_id)),
            final(self)@ == without_chain(old(self)@, author, backlink, log_id),
    {
        let mut result: Vec<T> = Vec::new();
        let mut next: Option<OperationHash> = backlink;
        let ghost mut done: Seq<RingEntry<T>> = seq![];
        loop
            invariant
                self.wf(),
                self.limit() == old(self).limit(),
                result@ == items_of(done),
                chain(old(self)@, author, backlink, log_id) == done + chain(
                    self@,
                    author,
                    next,
                    log_id,
                ),
                without_chain(old(self)@, author, backlink, log_id) == without_chain(
                    self@,
                    author,
                    next,
                    log_id,
                ),
            ensures
                !holds(self@, author, next, log_id),
            decreases self@.len(),
        {
            let ghost before = self@;
            let ghost entries = ring_entries(self.buffer);
            let ghost items = self.items@;
            let key: RingKey = ring_key(author, next, log_id);
            let removed = ring_remove_key(&mut self.buffer, &key);
            proof {
                lemma_holds_words(entries, items, author, next, log_id);
                assert(before =~= Seq::new(entries.len(), |i: int| entry_of(entries[i], items[i])));
            }
            match removed {
                Some((index, _, id)) => {
                    let item = self.items.remove(index);
                    proof {
                        lemma_entry_words(entries[index as int], items[index as int]);
                        assert(waits_on(before[index as int], author, next, log_id));
                        lemma_position_unique(entries, before, index as int, author, next, log_id);
                        assert(self@ =~= before.remove(index as int));
                        done = done.push(before[index as int]);
                    }
                    result.push(item);
                    assert(result@ =~= items_of(done));
                    next = Some(OperationHash { high: id.0, low: id.1 });
                    assert(chain(old(self)@, author, backlink, log_id) =~= done + chain(
                        self@,
                        author,
                        next,
                        log_id,
                    ));
                },
                None => {
                    assert(self@ =~= before);
                    break;
                },
            }
        }
        assert(chain(old(self)@, author, backlink, log_id) =~= done);
        result
    }

    pub fn len(&self) -> (len: usize)
        requires
            self.wf(),
        ensures
            len == self@.len(),
    {
        ring_len(&self.buffer)
    }

    pub fn is_empty(&self) -> (empty: bool)
        requires
            self.wf(),
        ensures
            empty == (self@.len() == 0),
    {
        self.len() == 0
    }

    pub fn clear(&mut self)
        requires
            old(self).wf(),
        ensures
            final(self).wf(),
            final(self).limit() == old(self).limit(),
            final(self)@ == Seq::<RingEntry<T>>::empty(),
    {
        ring_clear(&mut self.buffer);
        self.items.clear();
        assert(self@ =~= Seq::<RingEntry<T>>::empty());
    }
}

impl<E> ChainRing<Operation<E>> {
    /// Returns a copy of the ring.
    pub(crate) fn duplicate(&self) -> (copy: Self)
        requires
            self.wf(),
        ensures
            copy.wf(),
            copy@ == self@,
            copy.limit() == self.limit(),
    {
        let items = crate::types::duplicate_all(&self.items);
        let copy = ChainRing { buffer: ring_clone(&self.buffer), items, capacity: self.capacity };
        assert(copy@ =~= self@);
        copy
    }
}

/// Words and entry say the same of an entry's key and id.
proof fn lemma_entry_words<T>(words: (RingKey, RingId), item: T)
    ensures
        words.0 == key_words(
            entry_of(words, item).author,
            entry_of(words, item).backlink,
            entry_of(words, item).log_id,
        ),
        forall|author: VerifyingKey, backlink: Option<OperationHash>, log_id: LogId|
            #[trigger] waits_on(entry_of(words, item), author, backlink, log_id) <==> words.0
                == key_words(author, backlink, log_id),
{
    assert forall|author: VerifyingKey, backlink: Option<OperationHash>, log_id: LogId|
        words.0 == key_words(author, backlink, log_id) implies #[trigger] waits_on(
        entry_of(words, item),
        author,
        backlink,
        log_id,
    ) by {
        match backlink {
            Some(hash) => {
                assert(words.0.1 == Some((hash.high, hash.low)));
            },
            None => {},
        }
    }
}

/// An entry waits on a position exactly when the map holds that position's key.
proof fn lemma_holds_words<T>(
    entries: Seq<(RingKey, RingId)>,
    items: Seq<T>,
    author: VerifyingKey,
    backlink: Option<OperationHash>,
    log_id: LogId,
)
    requires
        entries.len() == items.len(),
    ensures
        holds(
            Seq::new(entries.len(), |i: int| entry_of(entries[i], items[i])),
            author,
            backlink,
            log_id,
        ) <==> crate::ordered::has_key(entries, key_words(author, backlink, log_id)),
{
    let ring = Seq::new(entries.len(), |i: int| entry_of(entries[i], items[i]));
    let key = key_words(author, backlink, log_id);
    if crate::ordered::has_key(entries, key) {
        let i = choose|i: int| 0 <= i < entries.len() && (#[trigger] entries[i]).0 == key;
        lemma_entry_words(entries[i], items[i]);
        assert(waits_on(ring[i], author, backlink, log_id));
    }
    if holds(ring, author, backlink, log_id) {
        let i = position(ring, author, backlink, log_id);
        lemma_entry_words(entries[i], items[i]);
        assert(entries[i].0 == key);
    }
}

/// Where keys are distinct, at most one entry waits on a position.
proof fn lemma_position_unique<T>(
    entries: Seq<(RingKey, RingId)>,
    ring: Seq<RingEntry<T>>,
    index: int,
    author: VerifyingKey,
    backlink: Option<OperationHash>,
    log_id: LogId,
)
    requires
        keys_distinct(entries),
        entries.len() == ring.len(),
        forall|i: int|
            0 <= i < ring.len() ==> #[trigger] ring[i] == entry_of(entries[i], ring[i].item),
        0 <= index < ring.len(),
        waits_on(ring[index], author, backlink, log_id),
    ensures
        holds(ring, author, backlink, log_id),
        position(ring, author, backlink, log_id) == index,
{
    let other = position(ring, author, backlink, log_id);
    assert(waits_on(ring[other], author, backlink, log_id));
    lemma_entry_words(entries[index], ring[index].item);
    lemma_entry_words(entries[other], ring[other].item);
    assert(ring[other] == entry_of(entries[other], ring[other].item));
    assert(entries[index].0 == entries[other].0);
}

/// The entries of `ring` which are not part of the author's log `log_id`, in their order.
pub open spec fn other_logs<T>(
    ring: Seq<RingEntry<T>>,
    author: VerifyingKey,
    log_id: LogId,
) -> Seq<RingEntry<T>> {
    ring.filter(|entry: RingEntry<T>| entry.author != author || entry.log_id != log_id)
}

/// A full ring makes room for an item on a new position by evicting its oldest entry, all others
/// keep their order.
pub proof fn law_push_evicts_oldest<T>(ring: Seq<RingEntry<T>>, capacity: nat, entry: RingEntry<T>)
    requires
        ring.len() >= capacity,
        ring.len() > 0,
        !holds(ring.skip(1), entry.author, entry.backlink, entry.log_id),
    ensures
        pushed(ring, capacity, entry) == ring.skip(1).push(entry),
{
    assert(ring.remove(0) =~= ring.skip(1));
}

/// It can be told before an item is pushed whether an entry is evicted, and of which log.
pub proof fn law_eviction_is_foretold<T>(ring: Seq<RingEntry<T>>, capacity: nat)
    ensures
        match evicted_log(ring, capacity) {
            Some(log) => {
                &&& ring.len() > 0
                &&& ring[0].author == log.author
                &&& ring[0].log_id == log.log_id
                &&& evicted(ring, capacity) == ring.skip(1)
            },
            None => evicted(ring, capacity) == ring,
        },
{
    if ring.len() > 0 {
        assert(ring.remove(0) =~= ring.skip(1));
    }
}

/// Pushing keeps positions distinct: no two entries ever wait on the same position.
pub proof fn law_push_keeps_positions_distinct<T>(
    ring: Seq<RingEntry<T>>,
    capacity: nat,
    entry: RingEntry<T>,
)
    requires
        positions_distinct(ring),
    ensures
        positions_distinct(pushed(ring, capacity, entry)),
{
    let kept = evicted(ring, capacity);
    assert(positions_distinct(kept));
    if holds(kept, entry.author, entry.backlink, entry.log_id) {
        let at = position(kept, entry.author, entry.backlink, entry.log_id);
        assert(waits_on(kept[at], entry.author, entry.backlink, entry.log_id));
    }
}

/// A released chain starts right after the given position, every entry belongs to the author's log,
/// and each one links back to the one before it.
pub proof fn law_chain_is_linked<T>(
    ring: Seq<RingEntry<T>>,
    author: VerifyingKey,
    backlink: Option<OperationHash>,
    log_id: LogId,
)
    ensures
        ({
            let links = chain(ring, author, backlink, log_id);
            &&& forall|i: int|
                0 <= i < links.len() ==> (#[trigger] links[i]).author == author && links[i].log_id
                    == log_id
            &&& links.len() > 0 ==> links[0].backlink == backlink
            &&& forall|i: int|
                0 <= i < links.len() - 1 ==> #[trigger] links[i + 1].backlink == Some(links[i].id)
        }),
    decreases ring.len(),
{
    if holds(ring, author, backlink, log_id) {
        let at = position(ring, author, backlink, log_id);
        let links = chain(ring, author, backlink, log_id);
        let rest = chain(ring.remove(at), author, Some(ring[at].id), log_id);
        law_chain_is_linked(ring.remove(at), author, Some(ring[at].id), log_id);
        assert forall|i: int| 0 <= i < links.len() - 1 implies #[trigger] links[i + 1].backlink
            == Some(links[i].id) by {
            assert(links[i + 1] == rest[i]);
            if i > 0 {
                assert(links[i] == rest[i - 1]);
                assert(rest[(i - 1) + 1].backlink == Some(rest[i - 1].id));
            }
        }
    }
}

/// Every released entry was in the ring.
pub proof fn law_chain_comes_from_ring<T>(
    ring: Seq<RingEntry<T>>,
    author: VerifyingKey,
    backlink: Option<OperationHash>,
    log_id: LogId,
)
    ensures
        forall|i: int|
            0 <= i < chain(ring, author, backlink, log_id).len() ==> ring.contains(
                #[trigger] chain(ring, author, backlink, log_id)[i],
            ),
    decreases ring.len(),
{
    if holds(ring, author, backlink, log_id) {
        let at = position(ring, author, backlink, log_id);
        let links = chain(ring, author, backlink, log_id);
        let rest = chain(ring.remove(at), author, Some(ring[at].id), log_id);
        law_chain_comes_from_ring(ring.remove(at), author, Some(ring[at].id), log_id);
        assert forall|i: int| 0 <= i < links.len() implies ring.contains(#[trigger] links[i]) by {
            if i > 0 {
                assert(links[i] == rest[i - 1]);
                let j = choose|j: int|
                    0 <= j < ring.remove(at).len() && ring.remove(at)[j] == rest[i - 1];
                assert(ring[if j < at { j } else { j + 1 }] == links[i]);
            }
        }
    }
}

/// A released chain is complete: no entry which is left behind continues it.
pub proof fn law_chain_is_complete<T>(
    ring: Seq<RingEntry<T>>,
    author: VerifyingKey,
    backlink: Option<OperationHash>,
    log_id: LogId,
)
    ensures
        ({
            let links = chain(ring, author, backlink, log_id);
            let end = if links.len() > 0 {
                Some(links.last().id)
            } else {
                backlink
            };
            !holds(without_chain(ring, author, backlink, log_id), author, end, log_id)
        }),
    decreases ring.len(),
{
    if holds(ring, author, backlink, log_id) {
        let at = position(ring, author, backlink, log_id);
        law_chain_is_complete(ring.remove(at), author, Some(ring[at].id), log_id);
    }
}

/// Popping a chain loses nothing and invents nothing: what was in the ring is either released or
/// still there.
pub proof fn law_pop_conserves<T>(
    ring: Seq<RingEntry<T>>,
    author: VerifyingKey,
    backlink: Option<OperationHash>,
    log_id: LogId,
)
    ensures
        items_of(ring).to_multiset() == items_of(
            chain(ring, author, backlink, log_id),
        ).to_multiset().add(items_of(without_chain(ring, author, backlink, log_id)).to_multiset()),
    decreases ring.len(),
{
    broadcast use vstd::seq_lib::group_to_multiset_ensures;

    let links = items_of(chain(ring, author, backlink, log_id));
    let left = items_of(without_chain(ring, author, backlink, log_id));
    if holds(ring, author, backlink, log_id) {
        let at = position(ring, author, backlink, log_id);
        let rest = items_of(chain(ring.remove(at), author, Some(ring[at].id), log_id));
        law_pop_conserves(ring.remove(at), author, Some(ring[at].id), log_id);
        assert(items_of(ring.remove(at)) =~= items_of(ring).remove(at));
        assert(items_of(ring)[at] == ring[at].item);
        assert(links =~= seq![ring[at].item] + rest);
        vstd::seq_lib::lemma_multiset_commutative(seq![ring[at].item], rest);
        assert(seq![ring[at].item] =~= Seq::<T>::empty().push(ring[at].item));
        assert(seq![ring[at].item].to_multiset() =~= Multiset::empty().insert(ring[at].item));
        items_of(ring).to_multiset_ensures();
        let removed = items_of(ring).remove(at).to_multiset();
        assert(removed == items_of(ring).to_multiset().remove(ring[at].item));
        assert(items_of(ring).contains(ring[at].item));
        assert(items_of(ring).to_multiset().count(ring[at].item) > 0);
        assert(items_of(ring).to_multiset() =~= removed.insert(ring[at].item));
        assert(items_of(ring).to_multiset() =~= links.to_multiset().add(left.to_multiset()));
    } else {
        assert(links =~= Seq::<T>::empty());
        assert(links.to_multiset() =~= Multiset::<T>::empty());
        assert(links.to_multiset().add(left.to_multiset()) =~= left.to_multiset());
    }
}

/// Popping a chain leaves every entry of other authors and other logs in the ring, in their order.
pub proof fn law_pop_spares_other_logs<T>(
    ring: Seq<RingEntry<T>>,
    author: VerifyingKey,
    backlink: Option<OperationHash>,
    log_id: LogId,
)
    ensures
        other_logs(without_chain(ring, author, backlink, log_id), author, log_id) == other_logs(
            ring,
            author,
            log_id,
        ),
    decreases ring.len(),
{
    if holds(ring, author, backlink, log_id) {
        let at = position(ring, author, backlink, log_id);
        law_pop_spares_other_logs(ring.remove(at), author, Some(ring[at].id), log_id);
        lemma_filter_remove(
            ring,
            at,
            |entry: RingEntry<T>| entry.author != author || entry.log_id != log_id,
        );
    }
}

/// Popping the same chain a second time releases nothing.
pub proof fn law_pop_again_is_empty<T>(
    ring: Seq<RingEntry<T>>,
    author: VerifyingKey,
    backlink: Option<OperationHash>,
    log_id: LogId,
)
    requires
        positions_distinct(ring),
    ensures
        chain(
            without_chain(ring, author, backlink, log_id),
            author,
            backlink,
            log_id,
        ).len() == 0,
{
    if holds(ring, author, backlink, log_id) {
        let at = position(ring, author, backlink, log_id);
        assert(waits_on(ring[at], author, backlink, log_id));
        assert(!holds(ring.remove(at), author, backlink, log_id)) by {
            if holds(ring.remove(at), author, backlink, log_id) {
                let other = position(ring.remove(at), author, backlink, log_id);
                let index = if other < at { other } else { other + 1 };
                assert(ring.remove(at)[other] == ring[index]);
                assert(waits_on(ring[index], author, backlink, log_id));
            }
        }
        lemma_without_chain_holds_no_more(
            ring.remove(at),
            author,
            Some(ring[at].id),
            log_id,
            backlink,
        );
    }
}

/// Nothing which is left behind waits on a released entry.
pub proof fn law_nothing_waits_on_released<T>(
    ring: Seq<RingEntry<T>>,
    author: VerifyingKey,
    backlink: Option<OperationHash>,
    log_id: LogId,
)
    requires
        positions_distinct(ring),
    ensures
        forall|i: int|
            0 <= i < chain(ring, author, backlink, log_id).len() ==> !holds(
                without_chain(ring, author, backlink, log_id),
                author,
                Some((#[trigger] chain(ring, author, backlink, log_id)[i]).id),
                log_id,
            ),
    decreases ring.len(),
{
    if holds(ring, author, backlink, log_id) {
        let at = position(ring, author, backlink, log_id);
        let links = chain(ring, author, backlink, log_id);
        let left = without_chain(ring, author, backlink, log_id);
        let rest = chain(ring.remove(at), author, Some(ring[at].id), log_id);
        lemma_remove_keeps_distinct(ring, at);
        law_nothing_waits_on_released(ring.remove(at), author, Some(ring[at].id), log_id);
        law_pop_again_is_empty(ring.remove(at), author, Some(ring[at].id), log_id);
        assert(!holds(left, author, Some(ring[at].id), log_id));
        assert forall|i: int| 0 <= i < links.len() implies !holds(
            left,
            author,
            Some((#[trigger] links[i]).id),
            log_id,
        ) by {
            if i > 0 {
                assert(links[i] == rest[i - 1]);
            }
        }
    }
}

/// A position nothing waits on stays that way when a chain leaves the ring.
proof fn lemma_without_chain_holds_no_more<T>(
    ring: Seq<RingEntry<T>>,
    author: VerifyingKey,
    start: Option<OperationHash>,
    log_id: LogId,
    backlink: Option<OperationHash>,
)
    requires
        !holds(ring, author, backlink, log_id),
    ensures
        !holds(without_chain(ring, author, start, log_id), author, backlink, log_id),
    decreases ring.len(),
{
    if holds(ring, author, start, log_id) {
        let at = position(ring, author, start, log_id);
        assert(!holds(ring.remove(at), author, backlink, log_id)) by {
            if holds(ring.remove(at), author, backlink, log_id) {
                let other = position(ring.remove(at), author, backlink, log_id);
                let index = if other < at { other } else { other + 1 };
                assert(ring.remove(at)[other] == ring[index]);
                assert(waits_on(ring[index], author, backlink, log_id));
            }
        }
        lemma_without_chain_holds_no_more(
            ring.remove(at),
            author,
            Some(ring[at].id),
            log_id,
            backlink,
        );
    }
}

/// Every entry which is left behind was in the ring.
pub proof fn law_left_comes_from_ring<T>(
    ring: Seq<RingEntry<T>>,
    author: VerifyingKey,
    backlink: Option<OperationHash>,
    log_id: LogId,
)
    ensures
        forall|i: int|
            0 <= i < without_chain(ring, author, backlink, log_id).len() ==> ring.contains(
                #[trigger] without_chain(ring, author, backlink, log_id)[i],
            ),
    decreases ring.len(),
{
    let left = without_chain(ring, author, backlink, log_id);
    if !holds(ring, author, backlink, log_id) {
        assert forall|i: int| 0 <= i < left.len() implies ring.contains(#[trigger] left[i]) by {
            assert(ring[i] == left[i]);
        }
    } else {
        let at = position(ring, author, backlink, log_id);
        law_left_comes_from_ring(ring.remove(at), author, Some(ring[at].id), log_id);
        assert forall|i: int| 0 <= i < left.len() implies ring.contains(#[trigger] left[i]) by {
            let inner = without_chain(ring.remove(at), author, Some(ring[at].id), log_id);
            assert(left[i] == inner[i]);
            assert(ring.remove(at).contains(inner[i]));
            let j = choose|j: int| 0 <= j < ring.remove(at).len() && ring.remove(at)[j] == inner[i];
            assert(ring[if j < at { j } else { j + 1 }] == left[i]);
        }
    }
}

/// Every entry of the ring is either released or left behind.
pub proof fn law_pop_splits_ring<T>(
    ring: Seq<RingEntry<T>>,
    author: VerifyingKey,
    backlink: Option<OperationHash>,
    log_id: LogId,
    index: int,
)
    requires
        0 <= index < ring.len(),
    ensures
        chain(ring, author, backlink, log_id).contains(ring[index]) || without_chain(
            ring,
            author,
            backlink,
            log_id,
        ).contains(ring[index]),
    decreases ring.len(),
{
    let links = chain(ring, author, backlink, log_id);
    if holds(ring, author, backlink, log_id) {
        let at = position(ring, author, backlink, log_id);
        let rest = chain(ring.remove(at), author, Some(ring[at].id), log_id);
        if index == at {
            assert(links[0] == ring[index]);
        } else {
            let j = if index < at { index } else { index - 1 };
            assert(ring.remove(at)[j] == ring[index]);
            law_pop_splits_ring(ring.remove(at), author, Some(ring[at].id), log_id, j);
            if rest.contains(ring[index]) {
                let k = choose|k: int| 0 <= k < rest.len() && rest[k] == ring[index];
                assert(links[k + 1] == ring[index]);
            }
        }
    } else {
        assert(without_chain(ring, author, backlink, log_id)[index] == ring[index]);
    }
}

/// The position of a released entry is free afterwards.
pub proof fn law_released_position_is_free<T>(
    ring: Seq<RingEntry<T>>,
    author: VerifyingKey,
    backlink: Option<OperationHash>,
    log_id: LogId,
    released: RingEntry<T>,
)
    requires
        positions_distinct(ring),
        chain(ring, author, backlink, log_id).contains(released),
    ensures
        !holds(
            without_chain(ring, author, backlink, log_id),
            released.author,
            released.backlink,
            released.log_id,
        ),
    decreases ring.len(),
{
    let links = chain(ring, author, backlink, log_id);
    law_chain_is_linked(ring, author, backlink, log_id);
    let at = position(ring, author, backlink, log_id);
    let rest = chain(ring.remove(at), author, Some(ring[at].id), log_id);
    let k = choose|k: int| 0 <= k < links.len() && links[k] == released;
    if k == 0 {
        law_pop_again_is_empty(ring, author, backlink, log_id);
    } else {
        assert(rest[k - 1] == released);
        lemma_remove_keeps_distinct(ring, at);
        law_released_position_is_free(
            ring.remove(at),
            author,
            Some(ring[at].id),
            log_id,
            released,
        );
    }
}

/// No two entries of a released chain wait on the same position.
pub proof fn law_chain_positions_distinct<T>(
    ring: Seq<RingEntry<T>>,
    author: VerifyingKey,
    backlink: Option<OperationHash>,
    log_id: LogId,
)
    requires
        positions_distinct(ring),
    ensures
        positions_distinct(chain(ring, author, backlink, log_id)),
    decreases ring.len(),
{
    if holds(ring, author, backlink, log_id) {
        let at = position(ring, author, backlink, log_id);
        let links = chain(ring, author, backlink, log_id);
        let removed = ring.remove(at);
        let rest = chain(removed, author, Some(ring[at].id), log_id);
        lemma_remove_keeps_distinct(ring, at);
        law_chain_positions_distinct(removed, author, Some(ring[at].id), log_id);
        law_chain_comes_from_ring(removed, author, Some(ring[at].id), log_id);
        assert forall|i: int, j: int| 0 <= i < j < links.len() implies !waits_on(
            #[trigger] links[i],
            (#[trigger] links[j]).author,
            links[j].backlink,
            links[j].log_id,
        ) by {
            assert(links[j] == rest[j - 1]);
            if i > 0 {
                assert(links[i] == rest[i - 1]);
            } else {
                let k = choose|k: int| 0 <= k < removed.len() && removed[k] == rest[j - 1];
                let l = if k < at { k } else { k + 1 };
                assert(ring[l] == links[j]);
                assert(ring[at] == links[0]);
            }
        }
    }
}

/// Popping a chain keeps positions distinct.
pub proof fn law_pop_keeps_positions_distinct<T>(
    ring: Seq<RingEntry<T>>,
    author: VerifyingKey,
    backlink: Option<OperationHash>,
    log_id: LogId,
)
    requires
        positions_distinct(ring),
    ensures
        positions_distinct(without_chain(ring, author, backlink, log_id)),
    decreases ring.len(),
{
    if holds(ring, author, backlink, log_id) {
        let at = position(ring, author, backlink, log_id);
        lemma_remove_keeps_distinct(ring, at);
        law_pop_keeps_positions_distinct(ring.remove(at), author, Some(ring[at].id), log_id);
    }
}

/// Every entry of a ring was in it before a push, or is the one which was pushed.
pub proof fn law_push_adds_one_entry<T>(
    ring: Seq<RingEntry<T>>,
    capacity: nat,
    entry: RingEntry<T>,
)
    ensures
        forall|i: int|
            0 <= i < pushed(ring, capacity, entry).len() ==> #[trigger] pushed(
                ring,
                capacity,
                entry,
            )[i] == entry || ring.contains(pushed(ring, capacity, entry)[i]),
{
    let kept = evicted(ring, capacity);
    let after = pushed(ring, capacity, entry);
    assert forall|i: int| 0 <= i < after.len() implies #[trigger] after[i] == entry
        || ring.contains(after[i]) by {
        if after[i] != entry {
            assert(after[i] == kept[i]);
            let j = if kept.len() == ring.len() { i } else { i + 1 };
            assert(kept[i] == ring[j]);
        }
    }
}

/// Whether no two entries of `ring` have the same id.
pub open spec fn ids_distinct<T>(ring: Seq<RingEntry<T>>) -> bool {
    forall|i: int, j: int|
        0 <= i < j < ring.len() ==> (#[trigger] ring[i]).id != (#[trigger] ring[j]).id
}

/// Where all ids are distinct they stay so: among the released entries, among those which are left
/// behind, and between the two.
pub proof fn law_pop_keeps_ids_distinct<T>(
    ring: Seq<RingEntry<T>>,
    author: VerifyingKey,
    backlink: Option<OperationHash>,
    log_id: LogId,
)
    requires
        ids_distinct(ring),
    ensures
        ids_distinct(chain(ring, author, backlink, log_id)),
        ids_distinct(without_chain(ring, author, backlink, log_id)),
        forall|i: int, j: int|
            0 <= i < chain(ring, author, backlink, log_id).len() && 0 <= j < without_chain(
                ring,
                author,
                backlink,
                log_id,
            ).len() ==> (#[trigger] chain(ring, author, backlink, log_id)[i]).id != (
            #[trigger] without_chain(ring, author, backlink, log_id)[j]).id,
    decreases ring.len(),
{
    if holds(ring, author, backlink, log_id) {
        let at = position(ring, author, backlink, log_id);
        let links = chain(ring, author, backlink, log_id);
        let left = without_chain(ring, author, backlink, log_id);
        let removed = ring.remove(at);
        let rest = chain(removed, author, Some(ring[at].id), log_id);
        assert(ids_distinct(removed)) by {
            assert forall|i: int, j: int| 0 <= i < j < removed.len() implies (
            #[trigger] removed[i]).id != (#[trigger] removed[j]).id by {
                let k = if i < at { i } else { i + 1 };
                let l = if j < at { j } else { j + 1 };
                assert(removed[i] == ring[k] && removed[j] == ring[l]);
            }
        }
        law_pop_keeps_ids_distinct(removed, author, Some(ring[at].id), log_id);
        law_chain_comes_from_ring(removed, author, Some(ring[at].id), log_id);
        law_left_comes_from_ring(removed, author, Some(ring[at].id), log_id);
        assert forall|i: int| 0 <= i < removed.len() implies (#[trigger] removed[i]).id
            != ring[at].id by {
            let k = if i < at { i } else { i + 1 };
            assert(removed[i] == ring[k]);
        }
        assert forall|i: int, j: int| 0 <= i < j < links.len() implies (#[trigger] links[i]).id != (
        #[trigger] links[j]).id by {
            assert(links[j] == rest[j - 1]);
            if i > 0 {
                assert(links[i] == rest[i - 1]);
            } else {
                let k = choose|k: int| 0 <= k < removed.len() && removed[k] == rest[j - 1];
                assert(removed[k].id != ring[at].id);
            }
        }
        assert forall|i: int, j: int| 0 <= i < links.len() && 0 <= j < left.len() implies (
        #[trigger] links[i]).id != (#[trigger] left[j]).id by {
            if i > 0 {
                assert(links[i] == rest[i - 1]);
            } else {
                let inner = without_chain(removed, author, Some(ring[at].id), log_id);
                assert(left[j] == inner[j]);
                assert(removed.contains(inner[j]));
                let k = choose|k: int| 0 <= k < removed.len() && removed[k] == inner[j];
                assert(removed[k].id != ring[at].id);
            }
        }
    }
}

/// Where all ids are distinct they stay so when an entry is pushed whose id waits nowhere else.
pub proof fn law_push_keeps_ids_distinct<T>(
    ring: Seq<RingEntry<T>>,
    capacity: nat,
    entry: RingEntry<T>,
)
    requires
        positions_distinct(ring),
        ids_distinct(ring),
        forall|i: int|
            0 <= i < ring.len() && (#[trigger] ring[i]).id == entry.id ==> waits_on(
                ring[i],
                entry.author,
                entry.backlink,
                entry.log_id,
            ),
    ensures
        ids_distinct(pushed(ring, capacity, entry)),
{
    let kept = evicted(ring, capacity);
    let after = pushed(ring, capacity, entry);
    assert forall|i: int, j: int| 0 <= i < j < kept.len() implies (#[trigger] kept[i]).id != (
    #[trigger] kept[j]).id by {
        let offset: int = if kept.len() == ring.len() { 0 } else { 1 };
        assert(kept[i] == ring[i + offset] && kept[j] == ring[j + offset]);
    }
    assert forall|i: int| 0 <= i < kept.len() && (#[trigger] kept[i]).id == entry.id implies waits_on(
        kept[i],
        entry.author,
        entry.backlink,
        entry.log_id,
    ) by {
        let offset: int = if kept.len() == ring.len() { 0 } else { 1 };
        assert(kept[i] == ring[i + offset]);
    }
    if holds(kept, entry.author, entry.backlink, entry.log_id) {
        let at = position(kept, entry.author, entry.backlink, entry.log_id);
        assert(waits_on(kept[at], entry.author, entry.backlink, entry.log_id));
        assert forall|i: int| 0 <= i < kept.len() && i != at implies (#[trigger] kept[i]).id
            != entry.id by {
            if kept[i].id == entry.id {
                let offset: int = if kept.len() == ring.len() { 0 } else { 1 };
                assert(kept[i] == ring[i + offset] && kept[at] == ring[at + offset]);
            }
        }
    } else {
        assert forall|i: int| 0 <= i < kept.len() implies (#[trigger] kept[i]).id != entry.id by {}
    }
    assert(ids_distinct(after));
}

proof fn lemma_remove_keeps_distinct<T>(ring: Seq<RingEntry<T>>, at: int)
    requires
        positions_distinct(ring),
        0 <= at < ring.len(),
    ensures
        positions_distinct(ring.remove(at)),
{
    let removed = ring.remove(at);
    assert forall|i: int, j: int| 0 <= i < j < removed.len() implies !waits_on(
        #[trigger] removed[i],
        (#[trigger] removed[j]).author,
        removed[j].backlink,
        removed[j].log_id,
    ) by {
        let k = if i < at { i } else { i + 1 };
        let l = if j < at { j } else { j + 1 };
        assert(removed[i] == ring[k] && removed[j] == ring[l]);
    }
}

/// Removing an element which a filter drops changes nothing about what it keeps.
proof fn lemma_filter_remove<A>(s: Seq<A>, at: int, keep: spec_fn(A) -> bool)
    requires
        0 <= at < s.len(),
        !keep(s[at]),
    ensures
        s.remove(at).filter(keep) == s.filter(keep),
{
    broadcast use Seq::lemma_filter_push;

    let front = s.take(at);
    let back = s.skip(at + 1);
    assert(s.remove(at) =~= front + back);
    assert(s =~= front.push(s[at]) + back);
    Seq::filter_distributes_over_add(front, back, keep);
    Seq::filter_distributes_over_add(front.push(s[at]), back, keep);
}

} // verus!
