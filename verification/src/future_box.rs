//! Boxed futures.

use core::future::Future;
use core::pin::Pin;
use core::task::{Context, Waker};

use futures::task::{FutureObj, LocalFutureObj};
use vstd::future::FutureAdditionalSpecFns;
use vstd::prelude::*;

verus! {

/// `futures::task::FutureObj`, carried through without looking inside.
#[verifier::external_type_specification]
#[verifier::external_body]
#[verifier::reject_recursive_types(T)]
pub struct ExFutureObj<'a, T>(FutureObj<'a, T>);

/// Boxes a future: calls `FutureObj::new` on a box of it. Awaiting the object
/// gives what awaiting the future gives.
#[verifier::external_body]
pub fn make_obj<'a, F, T>(future: F) -> (obj: FutureObj<'a, T>) where
    F: Future<Output = T> + Send + 'a,

    ensures
        obj.view() == future.view(),
{
    FutureObj::new(Box::new(future))
}

/// `futures::task::LocalFutureObj`, carried through without looking inside.
#[verifier::external_type_specification]
#[verifier::external_body]
#[verifier::reject_recursive_types(T)]
pub struct ExLocalFutureObj<'a, T>(LocalFutureObj<'a, T>);

/// Boxes a future that stays on its thread: calls `LocalFutureObj::new` on a box of it.
/// Awaiting the object gives what awaiting the future gives.
#[verifier::external_body]
pub fn make_local<'a, F, T>(future: F) -> (obj: LocalFutureObj<'a, T>) where
    F: Future<Output = T> + 'a,

    ensures
        obj.view() == future.view(),
{
    LocalFutureObj::new(Box::new(future))
}

/// Whether polling `before` with `waker` may leave `after` behind, and have the
/// future ready or still pending.
pub uninterp spec fn poll_outcome(
    before: FutureObj<'_, ()>,
    waker: Waker,
    after: FutureObj<'_, ()>,
    ready: bool,
) -> bool;

/// Polls a future once, with a context that holds `waker`: calls
/// `Future::poll` on the object and says whether it is ready.
///
/// What comes out rests with the future, so all that is claimed is that it is
/// one of the outcomes that polling this future with this waker may have. A
/// future that panics when it is polled takes its caller with it.
#[verifier::external_body]
pub(crate) fn poll_future(future: &mut FutureObj<'_, ()>, waker: &Waker) -> (ready: bool)
    ensures
        poll_outcome(*old(future), *waker, *final(future), ready),
{
    Pin::new(future).poll(&mut Context::from_waker(waker)).is_ready()
}

} // verus!
