//! The hybrid reference counter: one signed word holds both the count and
//! the access mode. A positive value is a count held by a single thread
//! (biased mode); a negative value is a shared count whose magnitude is the
//! true count. Zero is never a live count.
//!
//! Every operation takes `&mut self`, so for the length of a call the word is
//! held exclusively: a shared-mode update is then the same read-modify-write
//! that an atomic fetch-add performs.
use vstd::prelude::*;

verus! {

pub struct RefCounter(isize);

impl RefCounter {
    /// The value of the counter word.
    pub closed spec fn value(&self) -> int {
        self.0 as int
    }

    /// A counter for a freshly allocated object: one unique owner.
    pub fn new() -> (r: RefCounter)
        ensures
            r.value() == 1,
    {
        RefCounter(1)
    }

    /// A counter for a freshly shared object: one owner, shared mode.
    pub fn new_atomic() -> (r: RefCounter)
        ensures
            r.value() == -1,
    {
        RefCounter(-1)
    }

    /// Puts the counter in shared mode: a positive count is negated, a
    /// shared one is left as it is. There is no way back but
    /// [`RefCounter::make_unshared`].
    pub fn make_shared(&mut self)
        ensures
            final(self).value() == if old(self).value() > 0 {
                -old(self).value()
            } else {
                old(self).value()
            },
    {
        if self.0 > 0 {
            self.0 = -self.0;
        }
    }

    /// Leaves shared mode, which only a single shared owner (value `-1`)
    /// may do. Returns whether it did; otherwise the counter is unchanged.
    pub fn make_unshared(&mut self) -> (r: bool)
        ensures
            r == (old(self).value() == -1),
            final(self).value() == if r {
                1
            } else {
                old(self).value()
            },
    {
        if self.0 == -1 {
            self.0 = 1;
            true
        } else {
            false
        }
    }

    /// Adds an owner: the magnitude grows by one and the mode is kept. The
    /// counter must not be zero, and the new magnitude must fit the word.
    pub fn increment(&mut self)
        requires
            old(self).value() != 0,
            old(self).value() < isize::MAX,
            old(self).value() > isize::MIN,
        ensures
            final(self).value() == if old(self).value() > 0 {
                old(self).value() + 1
            } else {
                old(self).value() - 1
            },
    {
        if self.0 < 0 {
            self.0 = self.0 - 1;
        } else {
            self.0 = self.0 + 1;
        }
    }

    /// Drops an owner: the magnitude shrinks by one and the mode is kept.
    /// Returns the new value; `0` means the last owner is gone. The counter
    /// must not be zero.
    pub fn decrement(&mut self) -> (r: isize)
        requires
            old(self).value() != 0,
        ensures
            final(self).value() == if old(self).value() > 0 {
                old(self).value() - 1
            } else {
                old(self).value() + 1
            },
            r == final(self).value(),
    {
        if self.0 < 0 {
            self.0 = self.0 + 1;
        } else {
            self.0 = self.0 - 1;
        }
        self.0
    }

    /// The current value of the counter word.
    pub fn fetch_value(&mut self) -> (r: isize)
        ensures
            r == old(self).value(),
            final(self).value() == old(self).value(),
    {
        self.0
    }
}

} // verus!
