//! Properties of the event system that span several operations.

use crate::constants::{Callback, EventPayload};
use crate::error::EventError;
use crate::event_emitter::{
    budget_for, firing_order, read_at_zero, keep_unspent, lemma_without_callback, runs_callback, spent_flags_fit,
    with_payload, without_callback, EventEmitter,
};
use crate::listener::{spec_decremented, Listener, SharedBudget};
use crate::threaded;
use vstd::prelude::*;

verus! {

/// The value of a budget counter started at `start` after `k` takes that
/// follow one another with no other change in between, each applying
/// `decremented`, the update that `take_call` applies to the counter
/// atomically.
pub open spec fn count_after_takes(start: u64, k: nat) -> u64
    decreases k,
{
    if k == 0 {
        start
    } else {
        let prev = count_after_takes(start, (k - 1) as nat);
        match spec_decremented(prev) {
            Some(next) => next,
            None => prev,
        }
    }
}

/// Under the update that `take_call` applies, a counter started at `n`
/// grants exactly `n` takes that follow one another with no other change in
/// between: after `k <= n` of them `n - k` calls are left, and from the
/// `n`-th on the counter stays at zero and every further take is refused.
pub proof fn law_budget_lasts_its_calls(start: u64, k: nat)
    ensures
        k <= start ==> count_after_takes(start, k) == start - k,
        k >= start ==> count_after_takes(start, k) == 0,
        spec_decremented(count_after_takes(start, k)) is Some <==> k < start,
    decreases k,
{
    if k > 0 {
        law_budget_lasts_its_calls(start, (k - 1) as nat);
    }
}

/// An emission never adds a listener: it keeps some of them, in their order.
pub proof fn law_emission_never_adds<T>(listeners: Seq<Listener<T>>, spent: Seq<bool>)
    ensures
        keep_unspent(listeners, spent).len() <= listeners.len(),
    decreases listeners.len(),
{
    if listeners.len() > 0 {
        law_emission_never_adds(listeners.drop_last(), spent.drop_last());
    }
}

/// An emission never drops a listener without a budget.
pub proof fn law_unlimited_listeners_stay<T>(listeners: Seq<Listener<T>>, spent: Seq<bool>, k: int)
    requires
        spent_flags_fit(listeners, spent),
        0 <= k < listeners.len(),
        !listeners[k].limited(),
    ensures
        keep_unspent(listeners, spent).contains(listeners[k]),
    decreases listeners.len(),
{
    let init = listeners.drop_last();
    let flags = spent.drop_last();
    let last = listeners.len() - 1;
    if k == last {
        assert(!spent[last]);
        let kept = keep_unspent(init, flags).push(listeners.last());
        assert(kept[kept.len() - 1] == listeners[k]);
    } else {
        assert forall|j: int| 0 <= j < flags.len() && #[trigger] flags[j] implies init[j].limited() by {
            assert(flags[j] == spent[j]);
            assert(init[j] == listeners[j]);
        }
        assert(init[k] == listeners[k]);
        law_unlimited_listeners_stay(init, flags, k);
        let rest = keep_unspent(init, flags);
        let j = choose|j: int| 0 <= j < rest.len() && rest[j] == listeners[k];
        if !spent[last] {
            assert(rest.push(listeners.last())[j] == listeners[k]);
        }
    }
}

/// An emission runs the callback of every listener of the event exactly
/// once, on the emitted payload: the `k`-th listener's run is the
/// `(n - 1 - k)`-th new entry of the record, and the record grows by `n`.
pub proof fn law_emission_runs_each_listener_once<T>(
    start: EventEmitter<T>,
    emitted: EventEmitter<T>,
    event_name: Seq<char>,
    payload: EventPayload<T>,
    result: Result<(), EventError>,
    k: int,
)
    requires
        EventEmitter::emit_outcome(start, emitted, event_name, payload, result),
        start.table().dom().contains(event_name),
        0 <= k < start.table()[event_name].len(),
    ensures
        emitted.invocations().len() == start.invocations().len() + start.table()[event_name].len(),
        emitted.invocations()[start.invocations().len() + start.table()[event_name].len() - 1 - k]
            == (start.table()[event_name][k].spec_callback(), payload),
{
    let listeners = start.table()[event_name];
    let added = with_payload(firing_order(listeners), payload);
    let n = listeners.len();
    assert(added[n - 1 - k] == (firing_order(listeners)[n - 1 - k], payload));
    assert(emitted.invocations()[start.invocations().len() + (n - 1 - k)] == added[n - 1 - k]);
}

/// A listener handed back by an add can be removed again: removing it right
/// afterwards succeeds, and when no listener of the event ran its callback
/// before, the event's listeners are as they were before the add.
pub proof fn law_remove_undoes_add<T>(
    start: EventEmitter<T>,
    added: EventEmitter<T>,
    removed: EventEmitter<T>,
    event_name: Seq<char>,
    callback: Callback<T>,
    budget: Option<u64>,
    add_result: Result<Listener<T>, EventError>,
    remove_result: Result<(), EventError>,
)
    requires
        EventEmitter::add_outcome(start, added, event_name, callback, budget, add_result),
        add_result is Ok,
        EventEmitter::remove_outcome(added, removed, event_name, add_result->Ok_0.spec_callback(), remove_result),
    ensures
        remove_result == Ok::<(), EventError>(()),
        removed.listeners_of(event_name).len() < added.listeners_of(event_name).len(),
        !runs_callback(start.listeners_of(event_name), callback) ==> removed.table() == start.table().insert(
            event_name,
            start.listeners_of(event_name),
        ),
{
    let before = start.listeners_of(event_name);
    let listener = added.table()[event_name].last();
    let with = before.push(listener);
    assert(added.table()[event_name] == with);
    assert(with[with.len() - 1] == listener);
    assert(runs_callback(with, callback));
    lemma_without_callback(with, callback);
    if !runs_callback(before, callback) {
        lemma_without_callback(before, callback);
        assert(with.drop_last() =~= before);
        assert(without_callback(with, callback) == without_callback(before, callback));
    }
}

/// An add never takes an event past the emitter's limit: an accepted add
/// grows the event's list by one, a refused one leaves it as it was.
pub proof fn law_add_respects_limit<T>(
    start: EventEmitter<T>,
    added: EventEmitter<T>,
    event_name: Seq<char>,
    callback: Callback<T>,
    budget: Option<u64>,
    result: Result<Listener<T>, EventError>,
)
    requires
        EventEmitter::add_outcome(start, added, event_name, callback, budget, result),
    ensures
        start.listeners_of(event_name).len() <= start.limit() ==> added.listeners_of(event_name).len()
            <= added.limit(),
        result is Ok ==> added.listeners_of(event_name).len() == start.listeners_of(event_name).len() + 1,
        result is Err ==> added.listeners_of(event_name) == start.listeners_of(event_name),
        result is Err <==> start.listeners_of(event_name).len() >= start.limit(),
{
}

/// After a final emission the event is gone: it has no listeners, and a
/// further emission, final emission or removal of it is refused with
/// `EventNotFound` and runs nothing.
pub proof fn law_final_emission_retires_event<T>(
    start: EventEmitter<T>,
    finished: EventEmitter<T>,
    later: EventEmitter<T>,
    event_name: Seq<char>,
    payload: EventPayload<T>,
    later_payload: EventPayload<T>,
    result: Result<(), EventError>,
    later_result: Result<(), EventError>,
)
    requires
        EventEmitter::emit_final_outcome(start, finished, event_name, payload, result),
        EventEmitter::emit_outcome(finished, later, event_name, later_payload, later_result)
            || EventEmitter::emit_final_outcome(finished, later, event_name, later_payload, later_result)
            || EventEmitter::remove_all_outcome(finished, later, event_name, later_result),
    ensures
        finished.listeners_of(event_name).len() == 0,
        later_result == Err::<(), EventError>(EventError::EventNotFound),
        later.invocations() == finished.invocations(),
{
}

/// Removing all listeners of an event leaves it without listeners and leaves
/// every other event as it was.
pub proof fn law_remove_all_clears_event<T>(
    start: EventEmitter<T>,
    cleared: EventEmitter<T>,
    event_name: Seq<char>,
    other: Seq<char>,
    result: Result<(), EventError>,
)
    requires
        EventEmitter::remove_all_outcome(start, cleared, event_name, result),
        other != event_name,
    ensures
        cleared.listeners_of(event_name).len() == 0,
        cleared.listeners_of(other) == start.listeners_of(other),
{
}

/// An emission touches only the emitted event.
pub proof fn law_emit_touches_only_its_event<T>(
    start: EventEmitter<T>,
    emitted: EventEmitter<T>,
    event_name: Seq<char>,
    other: Seq<char>,
    payload: EventPayload<T>,
    result: Result<(), EventError>,
)
    requires
        EventEmitter::emit_outcome(start, emitted, event_name, payload, result),
        other != event_name,
    ensures
        emitted.listeners_of(other) == start.listeners_of(other),
{
    if start.table().dom().contains(event_name) {
        let spent = choose|spent: Seq<bool>|
            spent_flags_fit(start.table()[event_name], spent) && emitted.table()
                == #[trigger] EventEmitter::emission_table(start, event_name, spent);
    }
}

/// A call of a limited tagged listener runs its callback exactly when it
/// takes a call from the listener's own counter: either it takes one call and
/// runs the callback once on the payload, or it finds the counter at zero,
/// takes nothing and runs nothing. A call is never spent without a run, and
/// the callback never runs without a call spent.
pub proof fn law_tagged_call_runs_iff_it_takes<T>(
    before: threaded::Listener<T>,
    after: threaded::Listener<T>,
    payload: EventPayload<T>,
)
    requires
        before.limited(),
        threaded::Listener::call_outcome(before, after, payload),
    ensures
        after.runs().len() == before.runs().len() + 1 || after.runs() == before.runs(),
        after.runs().len() == before.runs().len() + 1 <==> after.budget_takes() == before.budget_takes().push(
            before.spec_budget()->0,
        ),
        after.runs().len() == before.runs().len() + 1 ==> after.runs().last() == (
            before.spec_callback(),
            payload,
        ) && after.budget_refusals() == before.budget_refusals(),
        after.runs() == before.runs() <==> after.budget_refusals() == before.budget_refusals().push(
            before.spec_budget()->0,
        ),
        after.runs() == before.runs() ==> after.budget_takes() == before.budget_takes(),
{
    let budget: SharedBudget = before.spec_budget()->0;
    assert(before.budget_takes().push(budget).len() == before.budget_takes().len() + 1);
    assert(before.budget_refusals().push(budget).len() == before.budget_refusals().len() + 1);
    assert(before.runs().push((before.spec_callback(), payload)).len() == before.runs().len() + 1);
}

/// A listener added with a limit of `n > 0` gets a counter created with
/// exactly `n` calls, whatever the emitter's `max_listeners`: the handle
/// handed back and the listener stored for the event share that one counter.
/// Under the update that a take applies, such a counter grants `n` calls and
/// is at zero after the `n`-th.
pub proof fn law_added_listener_starts_with_its_limit<T>(
    start: EventEmitter<T>,
    added: EventEmitter<T>,
    event_name: Seq<char>,
    callback: Callback<T>,
    n: u64,
    result: Result<Listener<T>, EventError>,
)
    requires
        EventEmitter::add_outcome(start, added, event_name, callback, budget_for(n), result),
        n > 0,
        start.listeners_of(event_name).len() < start.limit(),
    ensures
        result is Ok,
        result->Ok_0.initial_budget() == Some(n),
        added.listeners_of(event_name).last().initial_budget() == Some(n),
        added.listeners_of(event_name).last().spec_budget() == result->Ok_0.spec_budget(),
        result->Ok_0.limited(),
        count_after_takes(result->Ok_0.initial_budget()->0, n as nat) == 0,
        forall|k: nat| k < n ==> spec_decremented(#[trigger] count_after_takes(n, k)) is Some,
{
    law_budget_lasts_its_calls(n, n as nat);
    assert forall|k: nat| k < n implies spec_decremented(#[trigger] count_after_takes(n, k)) is Some by {
        law_budget_lasts_its_calls(n, k);
    }
}

/// A listener that an emission does not mark stays among the event's
/// listeners.
proof fn lemma_unmarked_stays<T>(listeners: Seq<Listener<T>>, marks: Seq<bool>, k: int)
    requires
        marks.len() == listeners.len(),
        0 <= k < listeners.len(),
        !marks[k],
    ensures
        keep_unspent(listeners, marks).contains(listeners[k]),
    decreases listeners.len(),
{
    let init = listeners.drop_last();
    let flags = marks.drop_last();
    let last = listeners.len() - 1;
    if k == last {
        let kept = keep_unspent(init, flags).push(listeners.last());
        assert(kept[kept.len() - 1] == listeners[k]);
    } else {
        assert(init[k] == listeners[k]);
        assert(flags[k] == marks[k]);
        lemma_unmarked_stays(init, flags, k);
        let rest = keep_unspent(init, flags);
        let j = choose|j: int| 0 <= j < rest.len() && rest[j] == listeners[k];
        if !marks[last] {
            assert(rest.push(listeners.last())[j] == listeners[k]);
        }
    }
}

/// After an emission the counter of every limited listener of the event has
/// been read once, after the calls, and a listener is dropped exactly when it
/// is limited and that reading of its own counter found it at zero: the
/// event keeps, in their order, the listeners not read at zero, so a limited
/// listener read with calls left stays, as does every listener without a
/// budget.
pub proof fn law_emission_drops_exactly_the_spent<T>(
    start: EventEmitter<T>,
    emitted: EventEmitter<T>,
    event_name: Seq<char>,
    payload: EventPayload<T>,
    result: Result<(), EventError>,
    k: int,
)
    requires
        EventEmitter::emit_outcome(start, emitted, event_name, payload, result),
        start.table().dom().contains(event_name),
        0 <= k < start.table()[event_name].len(),
    ensures
        ({
            let listeners = start.table()[event_name];
            let fresh = EventEmitter::fresh_reads(start, emitted);
            let at_zero = Seq::new(
                listeners.len(),
                |j: int| fresh[j] matches Some(r) && r.count() == 0,
            );
            &&& fresh.len() == listeners.len()
            &&& (fresh[k] is Some) == listeners[k].limited()
            &&& fresh[k] matches Some(r) ==> r.budget() == listeners[k].spec_budget()->0
            &&& emitted.listeners_of(event_name) == keep_unspent(listeners, at_zero)
            &&& !at_zero[k] ==> emitted.listeners_of(event_name).contains(listeners[k])
        }),
{
    let listeners = start.table()[event_name];
    let fresh = EventEmitter::fresh_reads(start, emitted);
    let at_zero = Seq::new(listeners.len(), |j: int| fresh[j] matches Some(r) && r.count() == 0);
    assert(read_at_zero(fresh) =~= at_zero);
    assert(emitted.table()[event_name] == keep_unspent(listeners, at_zero));
    if !at_zero[k] {
        lemma_unmarked_stays(listeners, at_zero, k);
    }
}

} // verus!
