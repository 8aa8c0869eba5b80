use crate::constants::{records, Callback, EventPayload, Invoked};
use std::sync::atomic::{AtomicU64, Ordering};
use std::sync::Arc;
use vstd::prelude::*;

verus! {

/// A call budget shared by a listener and all its clones: the number of calls
/// left, which every copy reads and decrements.
pub type SharedBudget = Arc<AtomicU64>;

/// The budget after one call is taken from `count`: one less, or `None` (no
/// call can be taken) when it is already zero.
pub open spec fn spec_decremented(count: u64) -> Option<u64> {
    if count > 0 {
        Some((count - 1) as u64)
    } else {
        None
    }
}

/// One step of the shared budget: one call fewer, or nothing when none is left.
pub fn decremented(count: u64) -> (next: Option<u64>)
    ensures
        next == spec_decremented(count),
{
    if count > 0 {
        Some(count - 1)
    } else {
        None
    }
}

/// `Arc::clone` on a budget: the copy points to the same counter, so it is
/// the same budget.
#[verifier::external_body]
pub(crate) fn share_budget(budget: &SharedBudget) -> (copy: SharedBudget)
    ensures
        copy == *budget,
{
    Arc::clone(budget)
}

/// Evidence that one call was taken from a budget counter. Only the
/// functions that take from a counter make one.
pub struct Taken {
    budget: Ghost<SharedBudget>,
}

impl Taken {
    /// The counter the call was taken from.
    pub closed spec fn budget(self) -> SharedBudget {
        self.budget@
    }
}

/// The counters of a sequence of takes.
pub open spec fn taken_from(takes: Seq<Taken>) -> Seq<SharedBudget> {
    takes.map_values(|taken: Taken| taken.budget())
}

/// `AtomicU64::fetch_sub(1)`: takes one call from the shared counter (a
/// counter at zero wraps around, as `u64` subtraction does in a release
/// build). The counter is shared with other copies of the listener, possibly
/// on other threads, so its value is not stated; which counter was taken
/// from is.
#[verifier::external_body]
pub(crate) fn take_one(budget: &SharedBudget) -> (taken: Taken)
    ensures
        taken.budget() == *budget,
{
    budget.fetch_sub(1, Ordering::SeqCst);
    Taken { budget: Ghost(*budget) }
}

/// Evidence that a take found a budget counter at zero and took nothing.
/// Only `take_call` makes one.
pub struct Refused {
    budget: Ghost<SharedBudget>,
    found: Ghost<u64>,
}

impl Refused {
    /// The counter that was found empty.
    pub closed spec fn budget(self) -> SharedBudget {
        self.budget@
    }

    /// The count that the take found on the counter.
    pub closed spec fn found(self) -> u64 {
        self.found@
    }
}

/// The counters of a sequence of refused takes.
pub open spec fn refused_from(refusals: Seq<Refused>) -> Seq<SharedBudget> {
    refusals.map_values(|refused: Refused| refused.budget())
}

/// `AtomicU64::fetch_update` with `decremented`: takes one call from the
/// shared counter unless it is zero. `Ok` carries the evidence of the take
/// (made exactly when the count found was above zero); `Err` carries the
/// evidence that the counter was found at zero and nothing was taken. The
/// counter is shared with other copies of the listener, possibly on other
/// threads, so which outcome comes is not stated.
#[verifier::external_body]
pub(crate) fn take_call(budget: &SharedBudget) -> (found: Result<Taken, Refused>)
    ensures
        found matches Ok(taken) ==> taken.budget() == *budget,
        found matches Err(refused) ==> refused.budget() == *budget && refused.found() == 0,
{
    match budget.fetch_update(Ordering::SeqCst, Ordering::SeqCst, |count| decremented(count)) {
        Ok(_) => Ok(Taken { budget: Ghost(*budget) }),
        Err(count) => Err(Refused { budget: Ghost(*budget), found: Ghost(count) }),
    }
}

/// The count that one load of a budget counter returned. Only
/// `Listener::read_budget` makes one, so a reading is a load that really
/// happened; the counter may have changed since.
pub struct Reading {
    count: u64,
    budget: Ghost<SharedBudget>,
}

impl Reading {
    /// The count that the load returned.
    pub closed spec fn count(self) -> u64 {
        self.count
    }

    /// The counter that was read.
    pub closed spec fn budget(self) -> SharedBudget {
        self.budget@
    }

    /// The count that the load returned.
    pub fn calls_left(&self) -> (count: u64)
        ensures
            count == self.count(),
    {
        self.count
    }
}

/// A callback registered to an event, with an optional call budget.
///
/// A listener created with `Some(n)` gets a counter of `n` calls, shared by
/// every clone of it; one created with `None` may be called any number of
/// times. The counter lives outside the listener and other copies may change
/// it at any time, so its current value is not part of the specification;
/// which counter a listener uses, and the count it was created with, are.
#[verifier::reject_recursive_types(T)]
pub struct Listener<T> {
    callback: Callback<T>,
    lifetime: Option<SharedBudget>,
    created_with: Ghost<Option<u64>>,
    runs: Vec<Invoked<T>>,
    takes: Vec<Taken>,
}

impl<T> Listener<T> {
    /// The callback that the listener runs.
    pub closed spec fn spec_callback(self) -> Callback<T> {
        self.callback
    }

    /// The shared call counter, `None` for an unlimited listener.
    pub closed spec fn spec_budget(self) -> Option<SharedBudget> {
        self.lifetime
    }

    /// Whether the listener has a call budget.
    pub open spec fn limited(self) -> bool {
        self.spec_budget() is Some
    }

    /// The number of calls that the shared counter was created with, `None`
    /// for an unlimited listener. Clones keep it: they share that counter.
    pub closed spec fn initial_budget(self) -> Option<u64> {
        self.created_with@
    }

    /// The runs that `call` has made through this value, oldest first: the
    /// callback with the payload it ran on.
    pub closed spec fn runs(self) -> Seq<(Callback<T>, EventPayload<T>)> {
        records(self.runs@)
    }

    /// The budget counters that `call` has taken a call from through this
    /// value, oldest first.
    pub closed spec fn budget_takes(self) -> Seq<SharedBudget> {
        taken_from(self.takes@)
    }

    /// Creates a listener for `callback` that may be called `lifetime` times
    /// (`None`: without limit): its shared counter is created holding
    /// `lifetime`. A budget of `Some(0)` gives a listener that is at its limit
    /// from the start.
    pub fn new(callback: Callback<T>, lifetime: Option<u64>) -> (listener: Self)
        ensures
            listener.spec_callback() == callback,
            listener.limited() == (lifetime is Some),
            listener.initial_budget() == lifetime,
            listener.runs() == Seq::<(Callback<T>, EventPayload<T>)>::empty(),
            listener.budget_takes() == Seq::<SharedBudget>::empty(),
    {
        let listener = match lifetime {
            Some(limit) => Listener {
                callback,
                lifetime: Some(Arc::new(AtomicU64::new(limit))),
                created_with: Ghost(Some(limit)),
                runs: Vec::new(),
                takes: Vec::new(),
            },
            None => Listener {
                callback,
                lifetime: None,
                created_with: Ghost(None),
                runs: Vec::new(),
                takes: Vec::new(),
            },
        };
        assert(listener.runs() =~= Seq::<(Callback<T>, EventPayload<T>)>::empty());
        assert(listener.budget_takes() =~= Seq::<SharedBudget>::empty());
        listener
    }

    /// Whether the listener is limited and its shared counter is at zero. An
    /// unlimited listener is never at its limit.
    pub fn at_limit(&self) -> (spent: bool)
        ensures
            !self.limited() ==> !spent,
    {
        match &self.lifetime {
            Some(count) => count.load(Ordering::SeqCst) == 0,
            None => false,
        }
    }

    /// Loads the shared counter once and hands back what it held, `None` for
    /// an unlimited listener.
    pub fn read_budget(&self) -> (read: Option<Reading>)
        ensures
            read is Some == self.limited(),
            read matches Some(r) ==> r.budget() == self.spec_budget()->0,
    {
        match &self.lifetime {
            Some(count) => Some(Reading { count: count.load(Ordering::SeqCst), budget: Ghost(*count) }),
            None => None,
        }
    }

    /// The calls left on the shared counter, `None` for an unlimited listener.
    pub fn remaining_calls(&self) -> (left: Option<u64>)
        ensures
            left is Some == self.limited(),
    {
        match &self.lifetime {
            Some(count) => Some(count.load(Ordering::SeqCst)),
            None => None,
        }
    }

    /// Takes one call from the shared counter, as a call does before it runs
    /// the callback (a counter at zero wraps around, as `u64` subtraction does
    /// in a release build). A limited listener hands back the evidence of the
    /// take; an unlimited one has nothing to take from. The listener itself is
    /// not changed.
    pub fn spend_call(&self) -> (taken: Option<Taken>)
        ensures
            taken is Some == self.limited(),
            taken matches Some(t) ==> t.budget() == self.spec_budget()->0,
    {
        match &self.lifetime {
            Some(count) => Some(take_one(count)),
            None => None,
        }
    }

    /// Takes one call from the budget and runs the callback on `payload`.
    pub fn call(&mut self, payload: &EventPayload<T>)
        ensures
            final(self).spec_callback() == old(self).spec_callback(),
            final(self).spec_budget() == old(self).spec_budget(),
            final(self).initial_budget() == old(self).initial_budget(),
            final(self).runs() == old(self).runs().push((old(self).spec_callback(), *payload)),
            old(self).limited() ==> final(self).budget_takes() == old(self).budget_takes().push(
                old(self).spec_budget()->0,
            ),
            !old(self).limited() ==> final(self).budget_takes() == old(self).budget_takes(),
    {
        match self.spend_call() {
            Some(taken) => {
                self.takes.push(taken);
                assert(taken_from(self.takes@) =~= taken_from(old(self).takes@).push(taken.budget()));
            },
            None => {},
        }
        let ran = self.callback.invoke(payload);
        self.runs.push(ran);
        assert(records(self.runs@) =~= records(old(self).runs@).push((old(self).spec_callback(), *payload)));
    }

    /// Whether `callback` is the very callback of this listener (the same
    /// allocation).
    pub fn eq_callback(&self, callback: Callback<T>) -> (same: bool)
        ensures
            same == (self.spec_callback() == callback),
    {
        self.callback.same_as(&callback)
    }

    /// The callback of this listener.
    pub fn callback(&self) -> (callback: &Callback<T>)
        ensures
            *callback == self.spec_callback(),
    {
        &self.callback
    }
}

impl<T> Clone for Listener<T> {
    /// A listener with the same callback that shares this listener's counter:
    /// a call through either copy uses up the budget of both. The copy has
    /// made no runs or takes of its own yet.
    fn clone(&self) -> (copy: Self)
        ensures
            copy.spec_callback() == self.spec_callback(),
            copy.spec_budget() == self.spec_budget(),
            copy.initial_budget() == self.initial_budget(),
            copy.runs() == Seq::<(Callback<T>, EventPayload<T>)>::empty(),
            copy.budget_takes() == Seq::<SharedBudget>::empty(),
    {
        let lifetime = match &self.lifetime {
            Some(count) => Some(share_budget(count)),
            None => None,
        };
        let copy = Listener {
            callback: self.callback.clone(),
            lifetime,
            created_with: Ghost(self.created_with@),
            runs: Vec::new(),
            takes: Vec::new(),
        };
        assert(copy.runs() =~= Seq::<(Callback<T>, EventPayload<T>)>::empty());
        assert(copy.budget_takes() =~= Seq::<SharedBudget>::empty());
        copy
    }
}

impl<T> PartialEq for Listener<T> {
    /// Two listeners are equal when they run the very same callback.
    fn eq(&self, other: &Self) -> (same: bool) {
        self.callback.same_as(&other.callback)
    }
}

impl<T> vstd::std_specs::cmp::PartialEqSpecImpl for Listener<T> {
    open spec fn obeys_eq_spec() -> bool {
        true
    }

    open spec fn eq_spec(&self, other: &Self) -> bool {
        self.spec_callback() == other.spec_callback()
    }
}

impl<T> Eq for Listener<T> {
}

} // verus!
