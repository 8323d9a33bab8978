//! A flag that wakers set and sleepers take.
//!
//! No function has at once a flag and a free hand. Here a flag is a cell of some type `C`,
//! of which nothing is known, and the operations on cells come in as functions that can be
//! called once. Where the operations of a type of cells are named, there is no cell to use
//! them on: only a [`Setting`], which sets its flag, or a [`Taking`], which takes it.
//! And a waker has only [`SetsFlag`], a sleeper only [`TakesFlagIn`] the attempts of one
//! sleep, each of which is noted.

use core::marker::PhantomData;
use std::sync::atomic::{AtomicBool, Ordering};

use vstd::prelude::*;

verus! {

/// `new` is the operation that makes a cell of type `C`.
pub closed spec fn makes<C, N: FnOnce(bool) -> C>(new: N) -> bool {
    forall|value: bool| #[trigger] new.requires((value,))
}

/// `store` is the operation that writes to a cell of type `C`.
pub closed spec fn stores<C, W: FnOnce(&C, bool, Ordering)>(store: W) -> bool {
    forall|cell: &C, value: bool, order: Ordering| #[trigger] store.requires((cell, value, order))
}

/// `swap` is the operation that writes to a cell of type `C` and gives what it held.
pub closed spec fn swaps<C, X: FnOnce(&C, bool, Ordering) -> bool>(swap: X) -> bool {
    forall|cell: &C, value: bool, order: Ordering| #[trigger] swap.requires((cell, value, order))
}

/// The operations of `AtomicBool`.
pub proof fn lemma_atomic_bool()
    ensures
        makes::<AtomicBool, _>(AtomicBool::new),
        stores::<AtomicBool, _>(AtomicBool::store),
        swaps::<AtomicBool, _>(AtomicBool::swap),
{
}

/// Marks the attempts of one sleep.
pub struct OneSleep;

/// What the attempts of a sleep to find that it is over have found, in their order.
///
/// `K` marks them. Whoever is handed attempts with a mark of which nothing is known can add
/// to them, but cannot begin others.
pub struct Attempts<K = OneSleep> {
    found: Ghost<Seq<bool>>,
    mark: PhantomData<K>,
}

impl Attempts<OneSleep> {
    /// No attempt yet.
    pub fn new() -> (attempts: Attempts<OneSleep>)
        ensures
            attempts.found().len() == 0,
    {
        Attempts { found: Ghost(Seq::empty()), mark: PhantomData }
    }
}

impl<K> Attempts<K> {
    /// What each attempt has found.
    pub closed spec fn found(&self) -> Seq<bool> {
        self.found@
    }

    /// One more attempt, which found `found`.
    pub fn note(&mut self, found: bool)
        ensures
            final(self).found() == old(self).found().push(found),
    {
        proof {
            self.found@ = self.found@.push(found);
        }
    }
}

/// A flag in a cell of type `C`.
#[derive(Debug)]
pub struct Flag<C> {
    cell: C,
}

impl<C> Flag<C> {
    /// The cell.
    pub closed spec fn cell(&self) -> C {
        self.cell
    }

    /// A way to set the flag.
    pub fn setting(&self) -> (setting: Setting<'_, C>)
        ensures
            setting.cell() == self.cell(),
    {
        Setting { cell: &self.cell }
    }

    /// A way to take the flag.
    pub fn taking(&self) -> (taking: Taking<'_, C>)
        ensures
            taking.cell() == self.cell(),
    {
        Taking { cell: &self.cell }
    }
}

/// A new flag, which is clear.
pub struct NewFlag<C> {
    cell: C,
}

impl<C> NewFlag<C> {
    /// The cell.
    pub closed spec fn cell(&self) -> C {
        self.cell
    }

    /// Makes a flag that is clear.
    pub fn made_by<N: FnOnce(bool) -> C>(new: N) -> (flag: NewFlag<C>)
        requires
            makes::<C, N>(new),
        ensures
            new.ensures((false,), flag.cell()),
    {
        NewFlag { cell: new(false) }
    }

    /// The flag, to be used.
    pub fn into_flag(self) -> (flag: Flag<C>)
        ensures
            flag.cell() == self.cell(),
    {
        Flag { cell: self.cell }
    }
}

/// A way to set one flag, once.
pub struct Setting<'c, C> {
    cell: &'c C,
}

impl<'c, C> Setting<'c, C> {
    /// The cell.
    pub closed spec fn cell(&self) -> C {
        *self.cell
    }

    /// Sets the flag: whatever it held, it holds `true`.
    pub fn store_true<W: FnOnce(&C, bool, Ordering)>(self, store: W)
        requires
            stores::<C, W>(store),
        ensures
            store.ensures((&self.cell(), true, Ordering::Release), ()),
    {
        store(self.cell, true, Ordering::Release)
    }
}

/// A way to take one flag, once.
pub struct Taking<'c, C> {
    cell: &'c C,
}

impl<'c, C> Taking<'c, C> {
    /// The cell.
    pub closed spec fn cell(&self) -> C {
        *self.cell
    }

    /// Clears the flag, says whether it was set, and notes that.
    pub fn swap_false<K, X: FnOnce(&C, bool, Ordering) -> bool>(
        self,
        swap: X,
        attempts: &mut Attempts<K>,
    ) -> (found: bool)
        requires
            swaps::<C, X>(swap),
        ensures
            swap.ensures((&self.cell(), false, Ordering::Acquire), found),
            final(attempts).found() == old(attempts).found().push(found),
    {
        let found = swap(self.cell, false, Ordering::Acquire);
        attempts.note(found);
        found
    }
}

/// Flags that can be made.
pub trait MakesFlag<C> {
    /// The cell is one that was made to hold `value`.
    spec fn made(cell: C, value: bool) -> bool;

    /// A new flag, which is clear.
    fn make() -> (flag: NewFlag<C>)
        ensures
            Self::made(flag.cell(), false),
    ;
}

/// Flags that can be set.
pub trait SetsFlag<C> {
    /// `value` was stored in the cell.
    spec fn stored(cell: C, value: bool) -> bool;

    /// Sets a flag.
    fn set(setting: Setting<'_, C>)
        ensures
            Self::stored(setting.cell(), true),
    ;
}

/// Flags that can be taken.
pub trait TakesFlag<C> {
    /// `value` was swapped for `found` in the cell.
    spec fn swapped(cell: C, value: bool, found: bool) -> bool;
}

/// Flags that can be taken by attempts marked `K`.
pub trait TakesFlagIn<C, K>: TakesFlag<C> {
    /// Clears a flag, says whether it was set, and notes that among the attempts.
    fn take(taking: Taking<'_, C>, attempts: &mut Attempts<K>) -> (found: bool)
        ensures
            Self::swapped(taking.cell(), false, found),
            final(attempts).found() == old(attempts).found().push(found),
    ;
}

/// What is done to a flag.
pub enum Use {
    /// A value is stored.
    Store { value: bool },
    /// A value is swapped for the one that was found.
    Swap { value: bool, found: bool },
}

impl Use {
    /// What the flag holds afterwards.
    pub open spec fn leaves(self) -> bool {
        match self {
            Use::Store { value } => value,
            Use::Swap { value, .. } => value,
        }
    }

    /// This is how a flag is set.
    pub open spec fn sets(self) -> bool {
        self == Use::Store { value: true }
    }

    /// This is how a flag is taken by somebody who found it set, or clear.
    pub open spec fn takes(self, found: bool) -> bool {
        self == Use::Swap { value: false, found }
    }
}

/// What a flag holds after `uses`, in the order in which they took effect, if it was clear
/// at first.
pub open spec fn held(uses: Seq<Use>) -> bool {
    uses.len() > 0 && uses.last().leaves()
}

/// Each use of the flag finds what the one before it has left.
pub open spec fn in_sequence(uses: Seq<Use>) -> bool {
    forall|i: int|
        0 <= i < uses.len() && #[trigger] uses[i] is Swap ==> uses[i]->found == held(uses.take(i))
}

/// Nobody uses the flag but to set or to take it.
pub open spec fn only_set_and_taken(uses: Seq<Use>) -> bool {
    forall|i: int|
        0 <= i < uses.len() ==> (#[trigger] uses[i]).sets() || uses[i].takes(true)
            || uses[i].takes(false)
}

/// How often the flag was set.
pub open spec fn times_set(uses: Seq<Use>) -> nat
    decreases uses.len(),
{
    if uses.len() == 0 {
        0
    } else {
        times_set(uses.drop_last()) + if uses.last().sets() {
            1nat
        } else {
            0nat
        }
    }
}

/// How often the flag was taken by somebody who found it set.
pub open spec fn times_found(uses: Seq<Use>) -> nat
    decreases uses.len(),
{
    if uses.len() == 0 {
        0
    } else {
        times_found(uses.drop_last()) + if uses.last().takes(true) {
            1nat
        } else {
            0nat
        }
    }
}

/// Whoever finds a flag set answers somebody who has set it: it is not found set more often
/// than it was set, and not as often while it stands set.
pub proof fn law_finders_answer_setters(uses: Seq<Use>)
    requires
        in_sequence(uses),
        only_set_and_taken(uses),
    ensures
        times_found(uses) + if held(uses) {
            1nat
        } else {
            0nat
        } <= times_set(uses),
    decreases uses.len(),
{
    if uses.len() > 0 {
        let n = uses.len() - 1;
        let before = uses.drop_last();
        assert(uses.take(n) =~= before);
        assert forall|i: int| 0 <= i < n implies #[trigger] before[i] == uses[i] && before.take(i)
            == uses.take(i) by {
            assert(before.take(i) =~= uses.take(i));
        }
        law_finders_answer_setters(before);
        assert(uses[n].sets() || uses[n].takes(true) || uses[n].takes(false));
    }
}

/// A flag that was set, however often, is found set by whoever takes it next.
pub proof fn law_a_set_flag_is_found(uses: Seq<Use>, i: int, j: int)
    requires
        in_sequence(uses),
        only_set_and_taken(uses),
        0 <= i < j < uses.len(),
        uses[i].sets(),
        uses[j] is Swap,
        forall|k: int| i < k < j ==> !(#[trigger] uses[k] is Swap),
    ensures
        uses[j].takes(true),
{
    assert(uses.take(j).last() == uses[j - 1]);
    assert(uses[j - 1].sets() || uses[j - 1].takes(true) || uses[j - 1].takes(false));
    assert(uses[j].sets() || uses[j].takes(true) || uses[j].takes(false));
}

} // verus!
