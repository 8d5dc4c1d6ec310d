//! A bounded memory of recently seen identifiers.
//!
//! The worker uses one of these for the builds it has already reported and
//! one for the jobs it has already learned from.  Only the most recent
//! identifiers are kept, so memory use stays bounded.

use vstd::prelude::*;

verus! {

/// Keeps the most recently stored identifiers, oldest first, never more
/// than the configured size (one entry is kept even at size zero).
pub struct RecentlySeen {
    size: usize,
    seen: Vec<u64>,
}

impl View for RecentlySeen {
    type V = Seq<u64>;

    closed spec fn view(&self) -> Seq<u64> {
        self.seen@
    }
}

impl RecentlySeen {
    /// The configured bound.
    pub closed spec fn capacity(&self) -> int {
        self.size as int
    }

    pub fn new(size: usize) -> (r: RecentlySeen)
        ensures
            r@ == Seq::<u64>::empty(),
            r.capacity() == size,
    {
        RecentlySeen { size, seen: Vec::new() }
    }

    /// Whether `key` is among the remembered identifiers.
    pub fn recently_witnessed(&self, key: &u64) -> (r: bool)
        ensures
            r == self@.contains(*key),
    {
        let mut i: usize = 0;
        while i < self.seen.len()
            invariant
                i <= self.seen@.len(),
                forall|k: int| 0 <= k < i ==> self.seen@[k] != *key,
            decreases self.seen@.len() - i,
        {
            if self.seen[i] == *key {
                return true;
            }
            i += 1;
        }
        false
    }

    /// Remembers `key`.  A key already present is left where it is; when
    /// the memory is full, the oldest entry makes room.
    pub fn store(&mut self, key: u64)
        ensures
            final(self).capacity() == old(self).capacity(),
            final(self)@ == (if old(self)@.contains(key) {
                old(self)@
            } else if old(self)@.len() >= old(self).capacity() && old(self)@.len() > 0 {
                old(self)@.skip(1).push(key)
            } else {
                old(self)@.push(key)
            }),
    {
        if self.recently_witnessed(&key) {
            return;
        }
        if self.seen.len() >= self.size && self.seen.len() > 0 {
            self.seen.remove(0);
        }
        self.seen.push(key);
    }
}

} // verus!
