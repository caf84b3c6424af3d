//! Queue between a sender and a receiver.

use std::collections::VecDeque;
use vstd::prelude::*;

verus! {

/// Items which were sent and not received yet, oldest first.
#[derive(Debug)]
pub struct AsyncBuffer<T> {
    queue: VecDeque<T>,
}

impl<T> Default for AsyncBuffer<T> {
    fn default() -> (buffer: Self)
        ensures
            buffer@ == Seq::<T>::empty(),
    {
        Self::new()
    }
}

impl<T> AsyncBuffer<T> {
    pub closed spec fn view(&self) -> Seq<T> {
        self.queue@
    }

    pub fn new() -> (buffer: Self)
        ensures
            buffer@ == Seq::<T>::empty(),
    {
        AsyncBuffer { queue: VecDeque::new() }
    }

    /// Adds an item. Whoever waits for one can be woken up then.
    pub fn push(&mut self, item: T)
        ensures
            final(self)@ == old(self)@.push(item),
    {
        self.queue.push_back(item);
    }

    /// Takes the oldest item, `None` if there is nothing to receive yet.
    pub fn try_pop(&mut self) -> (item: Option<T>)
        ensures
            match item {
                Some(item) => {
                    &&& old(self)@.len() > 0
                    &&& item == old(self)@[0]
                    &&& final(self)@ == old(self)@.skip(1)
                },
                None => old(self)@.len() == 0 && final(self)@ == old(self)@,
            },
    {
        let item = self.queue.pop_front();
        if item.is_some() {
            assert(self@ =~= old(self)@.skip(1));
        }
        item
    }
}

/// Items are received in the order in which they were sent, each of them once, and nothing is received
/// from an empty buffer.
pub proof fn law_items_are_received_in_order<T>(
    fresh: AsyncBuffer<T>,
    sending: &mut AsyncBuffer<T>,
    receiving: &mut AsyncBuffer<T>,
    sent: T,
    received: Option<T>,
)
    requires
        call_ensures(AsyncBuffer::<T>::new, (), fresh) || call_ensures(
            <AsyncBuffer<T> as Default>::default,
            (),
            fresh,
        ),
        call_ensures(AsyncBuffer::<T>::push, (sending, sent), ()),
        call_ensures(AsyncBuffer::<T>::try_pop, (receiving,), received),
    ensures
        fresh@.len() == 0,
        final(sending)@.len() == old(sending)@.len() + 1,
        final(sending)@.last() == sent,
        old(sending)@.is_prefix_of(final(sending)@),
        old(receiving)@.len() == 0 ==> received is None && final(receiving)@.len() == 0,
        old(receiving)@.len() > 0 ==> (received matches Some(item) && old(receiving)@ == seq![item]
            + final(receiving)@),
{
    if old(receiving)@.len() > 0 {
        assert(old(receiving)@ =~= seq![old(receiving)@[0]] + old(receiving)@.skip(1));
    }
}

} // verus!
