//! The sleep of an executor, night by night.
//!
//! An executor never calls [`Sleep::sleep`] itself, and neither does its [`Sleeper`]: that
//! has a [`Bed`], which sleeps once for each night that there is leave for.

use vstd::prelude::*;

use crate::bed::{leave, lemma_leave, Bed};
use crate::core_traits::Sleep;

verus! {

/// There is leave to sleep on `alarm`, after `nights` others.
///
/// Whoever has leave can hand it to a [`Sleeper`], but cannot sleep.
pub closed spec fn grants<S: Sleep>(alarm: S::Alarm, nights: nat) -> bool {
    leave(S::sleep, alarm, nights)
}

/// Where one may sleep on an alarm, there is leave to do so.
pub proof fn lemma_grants<S: Sleep>(alarm: S::Alarm, nights: nat)
    requires
        S::may_sleep(&alarm),
    ensures
        grants::<S>(alarm, nights),
{
    lemma_leave(S::sleep, alarm, nights);
}

/// An alarm to sleep on, and how often that was done.
pub struct Sleeper<S: Sleep> {
    bed: Bed<S::Alarm>,
}

impl<S: Sleep> Sleeper<S> {
    /// The alarm that ends a sleep.
    pub closed spec fn alarm(&self) -> S::Alarm {
        self.bed.alarm()
    }

    /// How often this has slept.
    pub closed spec fn nights(&self) -> nat {
        self.bed.nights()
    }

    /// A new alarm to sleep on.
    pub fn new() -> (sleeper: Self)
        ensures
            call_ensures(S::make_alarm, (), sleeper.alarm()),
            sleeper.nights() == 0,
    {
        Sleeper { bed: Bed::new(S::make_alarm()) }
    }

    /// Another handle on the alarm.
    pub fn share_alarm(&self) -> (alarm: S::Alarm)
        ensures
            cloned(self.alarm(), alarm),
    {
        self.bed.share_alarm()
    }

    /// Sleeps until the alarm rings.
    pub fn sleep(&mut self)
        requires
            grants::<S>(old(self).alarm(), old(self).nights()),
        ensures
            call_ensures(S::sleep, (&old(self).alarm(),), ()),
            final(self).alarm() == old(self).alarm(),
            final(self).nights() == old(self).nights() + 1,
    {
        self.bed.one_night(S::sleep);
    }
}

} // verus!
