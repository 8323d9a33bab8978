//! Abstraction over platform-specific thread sleeping mechanisms.

use std::sync::atomic::{AtomicBool, Ordering};
use std::sync::Arc;

use vstd::prelude::*;

use crate::core_traits;
pub use crate::flag::Attempts;
use crate::flag::{
    lemma_atomic_bool, Flag, MakesFlag, NewFlag, OneSleep, Setting, SetsFlag, Taking, TakesFlag,
    TakesFlagIn, Use,
};

verus! {

/// Platform-agnostic Sleep trait
///
/// Provides a mechanism that can be used to sleep the
/// current thread.
pub trait Sleep {
    /// Put the current thread to sleep.
    fn sleep(&self);
}

/// `core::hint::spin_loop` tells the processor that it is in a spin loop; it
/// takes and returns nothing.
pub assume_specification[ core::hint::spin_loop ]();

/// The attempts of a sleep that is over: the last one has ended it, and no other has, or
/// all `u128::MAX` of them were in vain.
pub open spec fn ended(found: Seq<bool>, woken: bool) -> bool {
    &&& forall|n: int| 0 <= n < found.len() - 1 ==> !#[trigger] found[n]
    &&& found.len() > 0
    &&& found.last() == woken
    &&& !woken ==> found.len() == u128::MAX
}

/// `take` has found `found` in the attempt after `n` others.
pub open spec fn tried<K, T: Fn(&mut Attempts<K>) -> bool>(take: T, n: nat, found: bool) -> bool {
    exists|attempts: &mut Attempts<K>| #[trigger]
        take.ensures((attempts,), found) && attempts.found().len() == n
}

/// Calls `take` until it finds that the sleep is over, or until `u128::MAX` attempts have
/// found that it is not.
pub fn spin_until<K, T: Fn(&mut Attempts<K>) -> bool>(
    attempts: &mut Attempts<K>,
    take: T,
) -> (woken: bool)
    requires
        old(attempts).found().len() == 0,
        forall|attempts: &mut Attempts<K>| #[trigger] take.requires((attempts,)),
        forall|attempts: &mut Attempts<K>, found: bool| #[trigger]
            take.ensures((attempts,), found) ==> final(attempts).found()
                == attempts.found().push(found),
    ensures
        ended(final(attempts).found(), woken),
        forall|n: int|
            0 <= n < final(attempts).found().len() ==> tried(
                take,
                n as nat,
                #[trigger] final(attempts).found()[n],
            ),
{
    let mut turns: u128 = 0;
    while turns < u128::MAX
        invariant
            attempts.found().len() == turns,
            forall|attempts: &mut Attempts<K>| #[trigger] take.requires((attempts,)),
            forall|attempts: &mut Attempts<K>, found: bool| #[trigger]
                take.ensures((attempts,), found) ==> final(attempts).found()
                    == attempts.found().push(found),
            forall|n: int| 0 <= n < turns ==> !#[trigger] attempts.found()[n],
            forall|n: int|
                0 <= n < turns ==> tried(take, n as nat, #[trigger] attempts.found()[n]),
        decreases u128::MAX - turns,
    {
        let ghost before = attempts.found();
        let found = take(attempts);
        assert(exists|tries: &mut Attempts<K>| #[trigger]
            take.ensures((tries,), found) && tries.found() == before);
        assert(tried(take, turns as nat, found));
        assert(attempts.found() == before.push(found));
        assert forall|n: int| 0 <= n < attempts.found().len() implies tried(
            take,
            n as nat,
            #[trigger] attempts.found()[n],
        ) by {
            if n < turns {
                assert(attempts.found()[n] == before[n]);
            }
        }
        if found {
            return true;
        }
        core::hint::spin_loop();
        turns = turns + 1;
    }
    false
}

impl MakesFlag<AtomicBool> for Flag<AtomicBool> {
    open spec fn made(cell: AtomicBool, value: bool) -> bool {
        call_ensures(AtomicBool::new, (value,), cell)
    }

    fn make() -> NewFlag<AtomicBool> {
        proof {
            lemma_atomic_bool();
        }
        NewFlag::made_by(AtomicBool::new)
    }
}

impl SetsFlag<AtomicBool> for Flag<AtomicBool> {
    open spec fn stored(cell: AtomicBool, value: bool) -> bool {
        call_ensures(AtomicBool::store, (&cell, value, Ordering::Release), ())
    }

    fn set(setting: Setting<'_, AtomicBool>) {
        proof {
            lemma_atomic_bool();
        }
        setting.store_true(AtomicBool::store)
    }
}

impl TakesFlag<AtomicBool> for Flag<AtomicBool> {
    open spec fn swapped(cell: AtomicBool, value: bool, found: bool) -> bool {
        call_ensures(AtomicBool::swap, (&cell, value, Ordering::Acquire), found)
    }
}

impl<K> TakesFlagIn<AtomicBool, K> for Flag<AtomicBool> {
    fn take(taking: Taking<'_, AtomicBool>, attempts: &mut Attempts<K>) -> bool {
        proof {
            lemma_atomic_bool();
        }
        taking.swap_false(AtomicBool::swap, attempts)
    }
}

/// Simple atomic spinlock sleep implementation.
///
/// Clones share one flag: waking any of them ends the sleep of one of them. Other
/// threads may set and clear the flag at any time, so contracts do not say what it
/// holds, but how it was made, set and taken.
///
/// `C` is the type of the flag's cell. What wakes can do nothing but set the flag, and
/// what sleeps nothing but take it, for each is written for any cell that can be used so.
#[derive(Debug)]
pub struct SpinSleep<C = AtomicBool>(Arc<Flag<C>>);

impl<C> Clone for SpinSleep<C> {
    fn clone(&self) -> (sleep: SpinSleep<C>)
        ensures
            sleep == *self,
    {
        SpinSleep(self.0.clone())
    }
}

impl<C> SpinSleep<C> where Flag<C>: MakesFlag<C> {
    /// The flag is a new one, clear at first.
    pub closed spec fn starts_cleared(&self) -> bool {
        Flag::<C>::made(self.0.cell(), false)
    }
}

impl<C> Default for SpinSleep<C> where Flag<C>: MakesFlag<C> {
    fn default() -> (sleep: SpinSleep<C>)
        ensures
            sleep.starts_cleared(),
    {
        SpinSleep(Arc::new(Flag::<C>::make().into_flag()))
    }
}

impl<C> SpinSleep<C> where Flag<C>: SetsFlag<C> {
    /// The flag has been set: `true` was stored in it.
    pub closed spec fn was_set(&self) -> bool {
        Flag::<C>::stored(self.0.cell(), true)
    }

    /// Sets the flag that ends a sleep.
    pub fn wake(&self)
        ensures
            self.was_set(),
    {
        Flag::<C>::set(self.0.setting())
    }
}

impl<C> SpinSleep<C> where Flag<C>: TakesFlag<C> {
    /// The flag has been cleared, and was `found` before: this is what came back when
    /// `false` was swapped in.
    pub closed spec fn was_taken(&self, found: bool) -> bool {
        Flag::<C>::swapped(self.0.cell(), false, found)
    }

    /// Looks once whether the flag is set, clears it, and notes what it found.
    pub fn attempt<K>(&self, attempts: &mut Attempts<K>) -> (found: bool) where
        Flag<C>: TakesFlagIn<C, K>,

        ensures
            self.was_taken(found),
            final(attempts).found() == old(attempts).found().push(found),
    {
        Flag::<C>::take(self.0.taking(), attempts)
    }

    /// The attempt after `n` others found `found`.
    pub open spec fn attempted<K>(&self, n: nat, found: bool) -> bool where
        Flag<C>: TakesFlagIn<C, K>,
     {
        exists|attempts: &mut Attempts<K>| #[trigger]
            call_ensures(Self::attempt::<K>, (self, attempts), found) && attempts.found().len()
                == n
    }

    /// Spins until an attempt finds the flag set, or until `u128::MAX` attempts have found
    /// it clear.
    pub fn spin<K>(&self, attempts: &mut Attempts<K>) -> (woken: bool) where
        Flag<C>: TakesFlagIn<C, K>,

        requires
            old(attempts).found().len() == 0,
        ensures
            ended(final(attempts).found(), woken),
            forall|n: int|
                0 <= n < final(attempts).found().len() ==> self.attempted::<K>(
                    n as nat,
                    #[trigger] final(attempts).found()[n],
                ),
    {
        let take = |attempts: &mut Attempts<K>| -> (found: bool)
            ensures
                final(attempts).found() == old(attempts).found().push(found),
                self.attempted::<K>(old(attempts).found().len(), found),
            { self.attempt(attempts) };
        spin_until(attempts, take)
    }

    /// The flag was tried, from a first attempt on, until it was found set or the
    /// attempts were used up.
    pub open spec fn spun(&self, woken: bool) -> bool where
        Flag<C>: TakesFlagIn<C, OneSleep>,
     {
        exists|attempts: &mut Attempts<OneSleep>| #[trigger]
            call_ensures(Self::spin::<OneSleep>, (self, attempts), woken) && attempts.found().len() == 0
    }
}

impl<C> SpinSleep<C> where Flag<C>: SetsFlag<C> + TakesFlag<C> {
    /// The flag has been used like this.
    pub closed spec fn was_used(&self, by: Use) -> bool {
        match by {
            Use::Store { value } => Flag::<C>::stored(self.0.cell(), value),
            Use::Swap { value, found } => Flag::<C>::swapped(self.0.cell(), value, found),
        }
    }

    /// Waking sets the flag, as [`crate::flag::law_a_set_flag_is_found`] has it, and an
    /// attempt takes it, as [`crate::flag::law_finders_answer_setters`] has it.
    pub proof fn law_wakes_set_and_attempts_take(&self, by: Use)
        ensures
            by.sets() ==> self.was_used(by) == self.was_set(),
            by.takes(true) ==> self.was_used(by) == self.was_taken(true),
            by.takes(false) ==> self.was_used(by) == self.was_taken(false),
    {
    }
}

impl<C> Sleep for SpinSleep<C> where Flag<C>: TakesFlagIn<C, OneSleep> {
    /// Spins until the flag is found set, and clears it.
    ///
    /// The attempts are counted, so that every call ends: one that has made
    /// `u128::MAX` of them without a wake-up returns, too.
    fn sleep(&self)
        ensures
            self.spun(true) || self.spun(false),
    {
        let mut attempts = Attempts::new();
        self.spin(&mut attempts);
    }
}

impl<C: Send + Sync + 'static> core_traits::Alarm for SpinSleep<C> where
    Flag<C>: SetsFlag<C>,
 {
    /// Always.
    open spec fn may_ring(&self) -> bool {
        true
    }

    fn ring(&self)
        ensures
            self.was_set(),
    {
        self.wake();
    }
}

impl<C> core_traits::Sleep for SpinSleep<C> where
    Flag<C>: MakesFlag<C> + TakesFlagIn<C, OneSleep>,
    SpinSleep<C>: core_traits::Alarm,
 {
    type Alarm = SpinSleep<C>;

    /// An alarm that has not rung.
    fn make_alarm() -> (alarm: SpinSleep<C>)
        ensures
            alarm.starts_cleared(),
    {
        SpinSleep::default()
    }

    /// Always.
    open spec fn may_sleep(handle: &SpinSleep<C>) -> bool {
        true
    }

    fn sleep(handle: &SpinSleep<C>)
        ensures
            handle.spun(true) || handle.spun(false),
    {
        handle.sleep();
    }
}

} // verus!
