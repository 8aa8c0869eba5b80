use crate::constants::{records, Callback, EventPayload, Invoked};
use crate::listener::{refused_from, share_budget, take_call, taken_from, Refused, SharedBudget, Taken};
use std::sync::atomic::{AtomicU64, Ordering};
use std::sync::Arc;
use vstd::prelude::*;

verus! {

/// The tag of a listener, by its characters.
pub open spec fn tag_view(tag: Option<String>) -> Option<Seq<char>> {
    match tag {
        Some(text) => Some(text@),
        None => None,
    }
}

/// A callback with an optional tag and an optional call budget.
///
/// A budget of `None` or `Some(0)` makes the listener unlimited; `Some(n)`
/// gives it a counter of `n` calls, shared by every clone of it and managed
/// atomically. The tag is free metadata for the user.
#[verifier::reject_recursive_types(T)]
pub struct Listener<T> {
    tag: Option<String>,
    callback: Callback<T>,
    lifetime: Option<SharedBudget>,
    runs: Vec<Invoked<T>>,
    takes: Vec<Taken>,
    refusals: Vec<Refused>,
}

impl<T> Listener<T> {
    /// The tag, by its characters.
    pub closed spec fn spec_tag(self) -> Option<Seq<char>> {
        tag_view(self.tag)
    }

    /// The callback that the listener runs.
    pub closed spec fn spec_callback(self) -> Callback<T> {
        self.callback
    }

    /// The shared call counter, `None` for an unlimited listener.
    pub closed spec fn spec_budget(self) -> Option<SharedBudget> {
        self.lifetime
    }

    /// Whether the listener has a call budget.
    pub open spec fn limited(self) -> bool {
        self.spec_budget() is Some
    }

    /// The runs that `call` has made through this value, oldest first: the
    /// callback with the payload it ran on.
    pub closed spec fn runs(self) -> Seq<(Callback<T>, EventPayload<T>)> {
        records(self.runs@)
    }

    /// The budget counters that this value has taken a call from, oldest first.
    pub closed spec fn budget_takes(self) -> Seq<SharedBudget> {
        taken_from(self.takes@)
    }

    /// The budget counters that this value found at zero when it tried to
    /// take a call, oldest first.
    pub closed spec fn budget_refusals(self) -> Seq<SharedBudget> {
        refused_from(self.refusals@)
    }

    /// What `call` on `payload` does: tag, callback and budget stay. An
    /// unlimited listener runs its callback once on `payload` and touches no
    /// counter. A limited one either takes one call from its counter and runs
    /// its callback once on `payload`, or finds its counter at zero, takes
    /// nothing and runs nothing; the attempt is recorded either way.
    pub open spec fn call_outcome(before: Self, after: Self, payload: EventPayload<T>) -> bool {
        &&& after.spec_tag() == before.spec_tag()
        &&& after.spec_callback() == before.spec_callback()
        &&& after.spec_budget() == before.spec_budget()
        &&& !before.limited() ==> {
            &&& after.runs() == before.runs().push((before.spec_callback(), payload))
            &&& after.budget_takes() == before.budget_takes()
            &&& after.budget_refusals() == before.budget_refusals()
        }
        &&& before.limited() ==> {
            ||| {
                &&& after.runs() == before.runs().push((before.spec_callback(), payload))
                &&& after.budget_takes() == before.budget_takes().push(before.spec_budget()->0)
                &&& after.budget_refusals() == before.budget_refusals()
            }
            ||| {
                &&& after.runs() == before.runs()
                &&& after.budget_takes() == before.budget_takes()
                &&& after.budget_refusals() == before.budget_refusals().push(before.spec_budget()->0)
            }
        }
    }

    /// Creates a listener for `callback` with `tag`. A `lifetime` of `None` or
    /// `Some(0)` gives an unlimited listener, `Some(n)` one that runs `n` times.
    pub fn new(tag: Option<String>, callback: Callback<T>, lifetime: Option<u64>) -> (listener: Self)
        ensures
            listener.spec_tag() == tag_view(tag),
            listener.spec_callback() == callback,
            listener.limited() == (lifetime is Some && lifetime->0 > 0),
            listener.runs() == Seq::<(Callback<T>, EventPayload<T>)>::empty(),
            listener.budget_takes() == Seq::<SharedBudget>::empty(),
            listener.budget_refusals() == Seq::<SharedBudget>::empty(),
    {
        let listener = match lifetime {
            Some(limit) => {
                if limit == 0 {
                    Listener { tag, callback, lifetime: None, runs: Vec::new(), takes: Vec::new(), refusals: Vec::new() }
                } else {
                    Listener {
                        tag,
                        callback,
                        lifetime: Some(Arc::new(AtomicU64::new(limit))),
                        runs: Vec::new(),
                        takes: Vec::new(),
                        refusals: Vec::new(),
                    }
                }
            },
            None => Listener { tag, callback, lifetime: None, runs: Vec::new(), takes: Vec::new(), refusals: Vec::new() },
        };
        assert(listener.runs() =~= Seq::<(Callback<T>, EventPayload<T>)>::empty());
        assert(listener.budget_takes() =~= Seq::<SharedBudget>::empty());
        assert(listener.budget_refusals() =~= Seq::<SharedBudget>::empty());
        listener
    }

    /// Whether the listener is limited and has been called as often as it
    /// may be. An unlimited listener is never at its limit.
    pub fn at_limit(&self) -> (spent: bool)
        ensures
            !self.limited() ==> !spent,
    {
        match &self.lifetime {
            None => false,
            Some(count) => count.load(Ordering::SeqCst) == 0,
        }
    }

    /// The calls left for a limited listener, `None` for an unlimited one.
    pub fn remaining_calls(&self) -> (left: Option<u64>)
        ensures
            left is Some == self.limited(),
    {
        match &self.lifetime {
            Some(count) => Some(count.load(Ordering::SeqCst)),
            None => None,
        }
    }

    /// Takes one call from the shared counter if any is left, and tells
    /// whether the callback may run. An unlimited listener may always run; a
    /// limited one is granted exactly when it took a call from its counter,
    /// which it records.
    pub fn try_spend_call(&mut self) -> (granted: bool)
        ensures
            final(self).spec_tag() == old(self).spec_tag(),
            final(self).spec_callback() == old(self).spec_callback(),
            final(self).spec_budget() == old(self).spec_budget(),
            final(self).runs() == old(self).runs(),
            !old(self).limited() ==> granted && final(self).budget_takes() == old(self).budget_takes(),
            old(self).limited() && granted ==> final(self).budget_takes() == old(self).budget_takes().push(
                old(self).spec_budget()->0,
            ),
            old(self).limited() && !granted ==> final(self).budget_takes() == old(self).budget_takes(),
            old(self).limited() && !granted ==> final(self).budget_refusals()
                == old(self).budget_refusals().push(old(self).spec_budget()->0),
            !old(self).limited() || granted ==> final(self).budget_refusals() == old(self).budget_refusals(),
    {
        match &self.lifetime {
            Some(count) => match take_call(count) {
                Ok(taken) => {
                    self.takes.push(taken);
                    assert(taken_from(self.takes@) =~= taken_from(old(self).takes@).push(taken.budget()));
                    true
                },
                Err(refused) => {
                    self.refusals.push(refused);
                    assert(refused_from(self.refusals@) =~= refused_from(old(self).refusals@).push(
                        refused.budget(),
                    ));
                    false
                },
            },
            None => true,
        }
    }

    /// Runs the callback on `payload` if a call is left, taking it from the
    /// budget; a listener at its limit does nothing. An unlimited listener
    /// always runs its callback.
    pub fn call(&mut self, payload: &EventPayload<T>)
        ensures
            final(self).spec_tag() == old(self).spec_tag(),
            final(self).spec_callback() == old(self).spec_callback(),
            final(self).spec_budget() == old(self).spec_budget(),
            !old(self).limited() ==> final(self).runs() == old(self).runs().push(
                (old(self).spec_callback(), *payload),
            ) && final(self).budget_takes() == old(self).budget_takes(),
            old(self).limited() ==> {
                ||| final(self).runs() == old(self).runs() && final(self).budget_takes()
                    == old(self).budget_takes()
                ||| final(self).runs() == old(self).runs().push((old(self).spec_callback(), *payload))
                    && final(self).budget_takes() == old(self).budget_takes().push(
                    old(self).spec_budget()->0,
                )
            },
            Listener::call_outcome(*old(self), *final(self), *payload),
    {
        if self.try_spend_call() {
            let ran = self.callback.invoke(payload);
            self.runs.push(ran);
            assert(records(self.runs@) =~= records(old(self).runs@).push((old(self).spec_callback(), *payload)));
        }
    }

    /// The callback of this listener.
    pub fn callback(&self) -> (callback: &Callback<T>)
        ensures
            *callback == self.spec_callback(),
    {
        &self.callback
    }
}

/// Whether two optional tags hold the same characters.
fn same_tag(a: &Option<String>, b: &Option<String>) -> (same: bool)
    ensures
        same == (tag_view(*a) == tag_view(*b)),
{
    match (a, b) {
        (Some(x), Some(y)) => *x == *y,
        (None, None) => true,
        _ => false,
    }
}

impl<T> Clone for Listener<T> {
    /// A listener with the same tag and callback that shares this listener's
    /// counter: a call through either copy uses up the budget of both. The
    /// copy has made no runs or takes of its own yet.
    fn clone(&self) -> (copy: Self)
        ensures
            copy.spec_tag() == self.spec_tag(),
            copy.spec_callback() == self.spec_callback(),
            copy.spec_budget() == self.spec_budget(),
            copy.runs() == Seq::<(Callback<T>, EventPayload<T>)>::empty(),
            copy.budget_takes() == Seq::<SharedBudget>::empty(),
            copy.budget_refusals() == Seq::<SharedBudget>::empty(),
    {
        let tag = match &self.tag {
            Some(text) => Some(text.clone()),
            None => None,
        };
        let lifetime = match &self.lifetime {
            Some(count) => Some(share_budget(count)),
            None => None,
        };
        let copy = Listener { tag, callback: self.callback.clone(), lifetime, runs: Vec::new(), takes: Vec::new(), refusals: Vec::new() };
        assert(copy.runs() =~= Seq::<(Callback<T>, EventPayload<T>)>::empty());
        assert(copy.budget_refusals() =~= Seq::<SharedBudget>::empty());
        copy
    }
}

impl<T> PartialEq for Listener<T> {
    /// Two listeners are equal when they run the very same callback and carry the same tag.
    fn eq(&self, other: &Self) -> (same: bool) {
        self.callback.same_as(&other.callback) && same_tag(&self.tag, &other.tag)
    }
}

impl<T> vstd::std_specs::cmp::PartialEqSpecImpl for Listener<T> {
    open spec fn obeys_eq_spec() -> bool {
        true
    }

    open spec fn eq_spec(&self, other: &Self) -> bool {
        self.spec_callback() == other.spec_callback() && self.spec_tag() == other.spec_tag()
    }
}

impl<T> Eq for Listener<T> {
}

} // verus!
