//! A stream of items that can look ahead any distance and take items back at its front.
use std::collections::VecDeque;
use vstd::prelude::*;

verus! {

/// A stream that hands out the items pushed back at its front before the items it was
/// made with, and lets one look at any pending item without taking it.
#[derive(Debug)]
pub struct PrependingPeekableIterator<T> {
    /// Items pushed back at the front, still to be handed out.
    pub queue: VecDeque<T>,
    inner: VecDeque<T>,
}

impl<T> View for PrependingPeekableIterator<T> {
    type V = Seq<T>;

    /// The pending items, in the order they will be handed out.
    closed spec fn view(&self) -> Seq<T> {
        self.queue@ + self.inner@
    }
}

/// A double-ended queue holding the items of `v`, in order.
pub fn deque_of<T>(v: Vec<T>) -> (r: VecDeque<T>)
    ensures
        r@ == v@,
{
    let ghost v0 = v@;
    let mut v = v;
    let mut d: VecDeque<T> = VecDeque::new();
    while v.len() > 0
        invariant
            v0 == v@ + d@,
        decreases v@.len(),
    {
        let x = v.pop().unwrap();
        d.push_front(x);
        assert(v0 =~= v@ + d@);
    }
    assert(v@ + d@ =~= d@);
    d
}

/// Taking an item right after putting it back gives that item, and leaves the stream as
/// it was: `next` undoes `prepend`.
pub proof fn law_prepend_then_next<T>(pending: Seq<T>, item: T)
    ensures
        (seq![item] + pending).len() > 0,
        (seq![item] + pending)[0] == item,
        (seq![item] + pending).drop_first() == pending,
{
    assert((seq![item] + pending).drop_first() =~= pending);
}

impl<T> PrependingPeekableIterator<T> {
    pub fn new(items: Vec<T>) -> (r: Self)
        ensures
            r@ == items@,
    {
        let r = PrependingPeekableIterator { queue: VecDeque::new(), inner: deque_of(items) };
        assert(r@ =~= items@);
        r
    }

    /// Hands out the first pending item.
    pub fn next(&mut self) -> (r: Option<T>)
        ensures
            old(self)@.len() == 0 ==> r is None && final(self)@ == old(self)@,
            old(self)@.len() > 0 ==> r == Some(old(self)@[0]) && final(self)@ == old(self)@.drop_first(),
    {
        if let Some(item) = self.queue.pop_front() {
            assert(self@ =~= old(self)@.drop_first());
            Some(item)
        } else {
            let r = self.inner.pop_front();
            assert(self@ =~= old(self)@.drop_first() || old(self)@.len() == 0);
            r
        }
    }

    /// The first pending item, if any.
    pub fn peek(&self) -> (r: Option<&T>)
        ensures
            self@.len() > 0 ==> r == Some(&self@[0]),
            self@.len() == 0 ==> r is None,
    {
        self.peek_nth(0)
    }

    /// The `n`-th pending item, if any.
    pub fn peek_nth(&self, n: usize) -> (r: Option<&T>)
        ensures
            n < self@.len() ==> r == Some(&self@[n as int]),
            n >= self@.len() ==> r is None,
    {
        if n < self.queue.len() {
            Some(&self.queue[n])
        } else if n - self.queue.len() < self.inner.len() {
            Some(&self.inner[n - self.queue.len()])
        } else {
            None
        }
    }

    /// Puts `item` in front of the pending items.
    pub fn prepend(&mut self, item: T)
        ensures
            final(self)@ == seq![item] + old(self)@,
    {
        self.queue.insert(0, item);
        assert(self@ =~= seq![item] + old(self)@);
    }

    /// Puts `items`, in their order, in front of the pending items; returns how many.
    pub fn prepend_extend(&mut self, items: Vec<T>) -> (r: usize)
        ensures
            final(self)@ == items@ + old(self)@,
            r == items@.len(),
    {
        let ghost all = items@;
        let total = items.len();
        let mut items = deque_of(items);
        let mut index: usize = 0;
        while items.len() > 0
            invariant
                index <= all.len(),
                all.len() == total,
                items@ == all.skip(index as int),
                self.queue@ == all.take(index as int) + old(self).queue@,
                self.inner@ == old(self).inner@,
            decreases items@.len(),
        {
            let item = items.pop_front().unwrap();
            assert(index < all.len());
            self.queue.insert(index, item);
            assert(self.queue@ =~= all.take(index + 1) + old(self).queue@);
            index += 1;
            assert(items@ =~= all.skip(index as int));
        }
        assert(all.take(index as int) =~= all);
        assert(self@ =~= all + old(self)@);
        index
    }
}

} // verus!
