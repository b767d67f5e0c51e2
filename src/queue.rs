//! The bounded queue between an extractor and the pipeline driver.

use concurrent_queue::ConcurrentQueue;
use vstd::prelude::*;

use crate::model::{DtError, DtItem};

verus! {

/// A bounded first-in first-out queue of items, held by one owner at a time.
/// Pushing into a full queue hands the item back, so the producer can wait
/// and retry while the monitor keeps sampling. Relies on
/// `concurrent_queue::ConcurrentQueue`, made bounded and never closed, for
/// the storage; `queue_items` and `queue_capacity` name what it holds and
/// what it was made for.
#[verifier::external_body]
pub struct ItemQueue {
    inner: ConcurrentQueue<DtItem>,
}

/// The items in a queue, oldest first.
pub uninterp spec fn queue_items(q: ItemQueue) -> Seq<DtItem>;

/// The number of items a queue was made to hold.
pub uninterp spec fn queue_capacity(q: ItemQueue) -> nat;

impl ItemQueue {
    /// An empty queue that holds up to `capacity` items; a configuration
    /// error for a capacity of zero.
    pub fn new(capacity: usize) -> (r: Result<ItemQueue, DtError>)
        ensures
            capacity == 0 <==> r is Err,
            r matches Err(e) ==> e is Config,
            r matches Ok(q) ==> queue_items(q) == Seq::<DtItem>::empty() && queue_capacity(q)
                == capacity,
    {
        if capacity == 0 {
            return Err(DtError::Config("queue capacity must be positive".to_string()));
        }
        Ok(ItemQueue::bounded(capacity))
    }

    /// Relies on `ConcurrentQueue::bounded`: an empty queue of the given
    /// capacity (it panics on a capacity of zero).
    #[verifier::external_body]
    pub(crate) fn bounded(capacity: usize) -> (q: ItemQueue)
        requires
            capacity > 0,
        ensures
            queue_items(q) == Seq::<DtItem>::empty(),
            queue_capacity(q) == capacity,
    {
        ItemQueue { inner: ConcurrentQueue::bounded(capacity) }
    }

    /// Relies on `ConcurrentQueue::push`: the item goes to the back unless the
    /// queue is full, in which case it comes back unchanged.
    #[verifier::external_body]
    pub fn push(&mut self, item: DtItem) -> (r: Result<(), DtItem>)
        ensures
            queue_capacity(*final(self)) == queue_capacity(*old(self)),
            queue_items(*old(self)).len() < queue_capacity(*old(self)) ==> r is Ok
                && queue_items(*final(self)) == queue_items(*old(self)).push(item),
            queue_items(*old(self)).len() >= queue_capacity(*old(self)) ==> (r matches Err(back) && back == item)
                && queue_items(*final(self)) == queue_items(*old(self)),
    {
        match self.inner.push(item) {
            Ok(()) => Ok(()),
            Err(e) => Err(e.into_inner()),
        }
    }

    /// Relies on `ConcurrentQueue::pop`: the oldest item, if there is one.
    #[verifier::external_body]
    pub fn pop(&mut self) -> (r: Option<DtItem>)
        ensures
            queue_capacity(*final(self)) == queue_capacity(*old(self)),
            queue_items(*old(self)).len() == 0 ==> r is None
                && queue_items(*final(self)) == queue_items(*old(self)),
            queue_items(*old(self)).len() > 0 ==> r == Some(queue_items(*old(self))[0])
                && queue_items(*final(self)) == queue_items(*old(self)).drop_first(),
    {
        self.inner.pop().ok()
    }

    /// Relies on `ConcurrentQueue::len`: the number of items held.
    #[verifier::external_body]
    pub fn len(&self) -> (r: usize)
        ensures
            r == queue_items(*self).len(),
    {
        self.inner.len()
    }

    /// Relies on `ConcurrentQueue::is_empty`: whether no item is held.
    #[verifier::external_body]
    pub fn is_empty(&self) -> (r: bool)
        ensures
            r == (queue_items(*self).len() == 0),
    {
        self.inner.is_empty()
    }

    /// Relies on `ConcurrentQueue::is_full`: whether the queue holds as many
    /// items as it was made for.
    #[verifier::external_body]
    pub fn is_full(&self) -> (r: bool)
        ensures
            r == (queue_items(*self).len() >= queue_capacity(*self)),
    {
        self.inner.is_full()
    }
}

/// Takes every item out of the queue, oldest first.
pub fn drain(queue: &mut ItemQueue) -> (r: Vec<DtItem>)
    ensures
        r@ == queue_items(*old(queue)),
        queue_items(*final(queue)) == Seq::<DtItem>::empty(),
        queue_capacity(*final(queue)) == queue_capacity(*old(queue)),
{
    let mut r: Vec<DtItem> = Vec::new();
    while !queue.is_empty()
        invariant
            r@ + queue_items(*queue) == queue_items(*old(queue)),
            queue_capacity(*queue) == queue_capacity(*old(queue)),
        decreases queue_items(*queue).len(),
    {
        let ghost before = queue_items(*queue);
        match queue.pop() {
            Some(item) => {
                r.push(item);
                assert(r@ + queue_items(*queue) =~= queue_items(*old(queue))) by {
                    assert(before =~= seq![before[0]] + before.drop_first());
                }
            },
            None => {},
        }
    }
    assert(r@ =~= r@ + queue_items(*queue));
    r
}

} // verus!
