//! Sleeping one night at a time.
//!
//! [`Bed::one_night`] knows nothing of the platform: all it has is a way to sleep that can
//! be used once, so one night is one sleep. Whoever names the way to sleep, on the other
//! hand, cannot use it, for what leave is stays with this module.

use vstd::prelude::*;

verus! {

/// There is leave to sleep on `alarm` by way of `sleep`, after `nights` others.
pub closed spec fn leave<A, F: FnOnce(&A)>(sleep: F, alarm: A, nights: nat) -> bool {
    sleep.requires((&alarm,))
}

/// There is leave for what may be called.
pub proof fn lemma_leave<A, F: FnOnce(&A)>(sleep: F, alarm: A, nights: nat)
    requires
        sleep.requires((&alarm,)),
    ensures
        leave(sleep, alarm, nights),
{
}

/// An alarm to sleep on, and how often that was done.
pub struct Bed<A> {
    alarm: A,
    nights: Ghost<nat>,
}

impl<A> Bed<A> {
    /// The alarm that ends a sleep.
    pub closed spec fn alarm(&self) -> A {
        self.alarm
    }

    /// How often somebody has slept here.
    pub closed spec fn nights(&self) -> nat {
        self.nights@
    }

    /// Nobody has slept here yet.
    pub fn new(alarm: A) -> (bed: Self)
        ensures
            bed.alarm() == alarm,
            bed.nights() == 0,
    {
        Bed { alarm, nights: Ghost(0) }
    }

    /// Sleeps once, by way of `sleep`. Leave for this night is none for the next.
    pub fn one_night<F: FnOnce(&A)>(&mut self, sleep: F)
        requires
            leave(sleep, old(self).alarm(), old(self).nights()),
        ensures
            sleep.ensures((&old(self).alarm(),), ()),
            final(self).alarm() == old(self).alarm(),
            final(self).nights() == old(self).nights() + 1,
    {
        sleep(&self.alarm);
        proof {
            self.nights@ = self.nights@ + 1;
        }
    }
}

impl<A: Clone> Bed<A> {
    /// Another handle on the alarm.
    pub fn share_alarm(&self) -> (alarm: A)
        ensures
            cloned(self.alarm(), alarm),
    {
        self.alarm.clone()
    }
}

} // verus!
