use std::sync::Arc;
use vstd::prelude::*;

verus! {

/// The value handed to every listener of an emitted event.
pub type EventPayload<T> = Arc<T>;

/// A shared handle to a user callback that receives an event payload.
///
/// The handle is a reference-counted pointer to the closure: cloning it makes
/// another pointer to the same allocation. In specifications two `Callback`
/// values are equal exactly when they point to the same allocation, which is
/// the identity by which listeners are told apart.
#[verifier::external_body]
#[verifier::reject_recursive_types(T)]
pub struct Callback<T>(pub Arc<dyn Fn(&EventPayload<T>) + Send + Sync>);

/// Evidence that a callback was run on a payload. Only `Callback::invoke`
/// makes one, so a sequence of these is a record of runs that really happened.
#[verifier::reject_recursive_types(T)]
pub struct Invoked<T> {
    ran: Ghost<(Callback<T>, EventPayload<T>)>,
}

impl<T> Invoked<T> {
    /// The callback that ran and the payload it ran on.
    pub closed spec fn record(self) -> (Callback<T>, EventPayload<T>) {
        self.ran@
    }
}

/// The records of a sequence of runs.
pub open spec fn records<T>(runs: Seq<Invoked<T>>) -> Seq<(Callback<T>, EventPayload<T>)> {
    runs.map_values(|ran: Invoked<T>| ran.record())
}

impl<T> Callback<T> {
    /// Runs the user closure on `payload` (a call of `Fn::call` through the
    /// `Arc`) and hands back evidence of that run. What the closure does is
    /// the user's code: nothing more is stated of it.
    #[verifier::external_body]
    pub(crate) fn invoke(&self, payload: &EventPayload<T>) -> (ran: Invoked<T>)
        ensures
            ran.record() == (*self, *payload),
    {
        (self.0)(payload);
        Invoked { ran: Ghost((*self, *payload)) }
    }

    /// `Arc::ptr_eq` on the two handles: true exactly when both point to the
    /// same allocation, which is what equality of `Callback` values means.
    #[verifier::external_body]
    pub(crate) fn same_as(&self, other: &Callback<T>) -> (same: bool)
        ensures
            same == (*self == *other),
    {
        Arc::ptr_eq(&self.0, &other.0)
    }
}

impl<T> Clone for Callback<T> {
    /// `Arc::clone` on the handle: the copy points to the same allocation, so
    /// it is equal to the original.
    #[verifier::external_body]
    fn clone(&self) -> (copy: Self)
        ensures
            copy == *self,
    {
        let inner = self.0.clone();
        Callback(inner)
    }
}

} // verus!
