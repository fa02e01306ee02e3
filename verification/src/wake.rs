//! Receipts for waking what waits on a handle.

use std::sync::Arc;
use tokio::sync::Notify;
use vstd::prelude::*;

verus! {

/// A receipt: the waiters on a handle were notified. Nothing but `notify` makes one, and nothing
/// outside of this module can.
#[derive(Debug)]
pub struct Woken {
    handle: Arc<Notify>,
}

impl View for Woken {
    type V = Arc<Notify>;

    closed spec fn view(&self) -> Arc<Notify> {
        self.handle
    }
}

impl Woken {
    /// The handle whose waiters were notified.
    pub fn handle(&self) -> (r: &Arc<Notify>)
        ensures
            *r == self@,
    {
        &self.handle
    }
}

/// The handles that receipts are for.
pub open spec fn woken_handles(receipts: Seq<Woken>) -> Seq<Arc<Notify>> {
    receipts.map_values(|receipt: Woken| receipt@)
}

/// The handle that an optional receipt is for.
pub open spec fn woken_handle(receipt: Option<Woken>) -> Option<Arc<Notify>> {
    match receipt {
        Some(r) => Some(r@),
        None => None,
    }
}

/// `Notify::notify_waiters`: wakes what waits on the handle, and a receipt for that handle is given.
/// What the waiters do once they are woken is not said.
#[verifier::external_body]
pub(crate) fn notify(handle: Arc<Notify>) -> (receipt: Woken)
    ensures
        receipt@ == handle,
{
    handle.notify_waiters();
    Woken { handle }
}

/// Receipts are for the handles that they were given for: each for its own, in their order, and no
/// receipt is for none.
pub proof fn receipts_are_for_their_handles(receipts: Seq<Woken>, one: Woken, i: int)
    requires
        0 <= i < receipts.len(),
    ensures
        woken_handles(receipts).len() == receipts.len(),
        woken_handles(receipts)[i] == receipts[i]@,
        woken_handle(Some(one)) == Some(one@),
        woken_handle(None) is None,
{
}

} // verus!
