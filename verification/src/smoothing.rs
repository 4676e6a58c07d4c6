use vstd::prelude::*;

use std::collections::VecDeque;

verus! {

/// The most recent values pushed, oldest first, never more than a fixed
/// capacity of at least one.
#[derive(Debug, Clone)]
pub struct RecentWindow<T> {
    capacity: usize,
    values: VecDeque<T>,
}

/// The last `capacity` elements of `s`, or all of them when there are fewer.
pub open spec fn keep_last<T>(s: Seq<T>, capacity: nat) -> Seq<T> {
    if s.len() <= capacity {
        s
    } else {
        s.skip(s.len() - capacity)
    }
}

impl<T> RecentWindow<T> {
    /// The values held, oldest first.
    pub closed spec fn contents(&self) -> Seq<T> {
        self.values@
    }

    /// How many values the window holds at most.
    pub closed spec fn limit(&self) -> nat {
        self.capacity as nat
    }

    /// The window holds at least one value's room and never more than that.
    pub closed spec fn wf(&self) -> bool {
        &&& self.capacity >= 1
        &&& self.values@.len() <= self.capacity
    }

    /// An empty window; a capacity of zero is taken as one.
    pub fn new(capacity: usize) -> (r: Self)
        ensures
            r.wf(),
            r.contents() == Seq::<T>::empty(),
            r.limit() == (if capacity == 0 { 1 } else { capacity }),
    {
        RecentWindow { capacity: if capacity == 0 { 1 } else { capacity }, values: VecDeque::new() }
    }

    /// Adds `value` as the newest, dropping the oldest when the window is full.
    pub fn push(&mut self, value: T)
        requires
            old(self).wf(),
        ensures
            final(self).wf(),
            final(self).limit() == old(self).limit(),
            final(self).contents() == keep_last(old(self).contents().push(value), old(self).limit()),
    {
        if self.values.len() == self.capacity {
            self.values.pop_front();
        }
        self.values.push_back(value);
        proof {
            let s = old(self).values@.push(value);
            if s.len() > self.capacity {
                assert(self.values@ =~= s.skip(s.len() - self.capacity));
            }
        }
    }

    /// Drops every value.
    pub fn clear(&mut self)
        requires
            old(self).wf(),
        ensures
            final(self).wf(),
            final(self).limit() == old(self).limit(),
            final(self).contents() == Seq::<T>::empty(),
    {
        self.values.clear();
    }

    /// How many values the window holds.
    pub fn len(&self) -> (r: usize)
        ensures
            r == self.contents().len(),
    {
        self.values.len()
    }

    /// Whether the window holds no value.
    pub fn is_empty(&self) -> (r: bool)
        ensures
            r == (self.contents().len() == 0),
    {
        self.values.len() == 0
    }

    /// Whether the window holds as many values as it can.
    pub fn is_full(&self) -> (r: bool)
        requires
            self.wf(),
        ensures
            r == (self.contents().len() == self.limit()),
    {
        self.values.len() >= self.capacity
    }

    /// The values held, oldest first.
    pub fn values(&self) -> (r: &VecDeque<T>)
        ensures
            r@ == self.contents(),
    {
        &self.values
    }
}

/// A window keeps the last `capacity` of everything pushed into it: pushing
/// `value` into the last `capacity` values of `s` gives the last `capacity`
/// values of `s` followed by `value`.
pub proof fn lemma_keep_last_push<T>(s: Seq<T>, value: T, capacity: nat)
    requires
        capacity >= 1,
    ensures
        keep_last(keep_last(s, capacity).push(value), capacity) == keep_last(s.push(value), capacity),
{
    let k = keep_last(s, capacity);
    if s.len() > capacity {
        assert(keep_last(k.push(value), capacity) =~= keep_last(s.push(value), capacity));
    } else {
        assert(k == s);
    }
}

} // verus!
