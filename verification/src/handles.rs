//! Numeric handles for running proxies, as the Android app holds them:
//! handing out a handle registers a value under it, and a handle can be
//! looked up or released once.

use std::collections::HashMap;
use vstd::prelude::*;

verus! {

broadcast use vstd::std_specs::hash::group_hash_axioms;

/// Running values by handle. Handles are handed out counting up from 1.
pub struct HandleTable<T> {
    next: u64,
    slots: HashMap<u64, T>,
}

impl<T> HandleTable<T> {
    /// The values held, by handle.
    pub closed spec fn view(&self) -> Map<u64, T> {
        self.slots@
    }

    /// The handle the next registration gets.
    pub closed spec fn next_handle(&self) -> u64 {
        self.next
    }

    /// Every handle held was handed out before `next_handle`, and 0 is never
    /// one.
    pub closed spec fn wf(&self) -> bool {
        forall|h: u64| #[trigger] self.slots@.contains_key(h) ==> 0 < h < self.next
    }

    /// An empty table whose first handle is 1.
    pub fn new() -> (t: Self)
        ensures
            t.wf(),
            t.view() == Map::<u64, T>::empty(),
            t.next_handle() == 1,
    {
        HandleTable { next: 1, slots: HashMap::new() }
    }

    /// Registers `v` under the next handle and returns that handle; the
    /// counter wraps around after `u64::MAX`.
    pub fn register(&mut self, v: T) -> (h: u64)
        ensures
            h == old(self).next_handle(),
            final(self).view() == old(self).view().insert(h, v),
            final(self).next_handle() == (if h == u64::MAX { 0 } else { h + 1 }),
            old(self).wf() && 0 < old(self).next_handle() ==> h != 0 && !old(self).view().contains_key(h),
            old(self).wf() && 0 < old(self).next_handle() < u64::MAX ==> final(self).wf(),
    {
        let h = self.next;
        self.next = self.next.wrapping_add(1);
        self.slots.insert(h, v);
        h
    }

    /// Removes and returns the value held under `h`.
    pub fn release(&mut self, h: u64) -> (r: Option<T>)
        ensures
            old(self).wf() ==> final(self).wf(),
            final(self).view() == old(self).view().remove(h),
            final(self).next_handle() == old(self).next_handle(),
            match r {
                Some(v) => old(self).view().contains_key(h) && v == old(self).view()[h],
                None => !old(self).view().contains_key(h),
            },
    {
        self.slots.remove(&h)
    }

    /// The value held under `h`.
    pub fn get(&self, h: u64) -> (r: Option<&T>)
        ensures
            match r {
                Some(v) => self.view().contains_key(h) && *v == self.view()[h],
                None => !self.view().contains_key(h),
            },
    {
        self.slots.get(&h)
    }
}

/// While the counter has not wrapped around, a new handle is never 0 and
/// never one already held, and releasing a handle twice finds nothing the
/// second time.
pub proof fn law_handles_fresh_and_released_once<T>(t: &HandleTable<T>, h: u64)
    requires
        t.wf(),
        0 < t.next_handle(),
    ensures
        t.next_handle() != 0,
        !t.view().contains_key(t.next_handle()),
        !t.view().remove(h).contains_key(h),
{
}

} // verus!
