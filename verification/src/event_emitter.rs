use crate::constants::{records, Callback, EventPayload, Invoked};
use crate::error::EventError;
use crate::event_handler::EventHandler;
use crate::listener::{taken_from, Listener, Reading, SharedBudget, Taken};
use std::sync::Arc;
use vstd::prelude::*;

verus! {

/// An emitter shared between owners.
pub type EventManager<T> = Arc<EventEmitter<T>>;

/// The listeners of one event, by the event's name.
#[verifier::reject_recursive_types(T)]
struct EventEntry<T> {
    name: String,
    listeners: Vec<Listener<T>>,
}

/// The name of the entry at position `i`.
spec fn key_at<T>(entries: Seq<EventEntry<T>>, i: int) -> Seq<char> {
    entries[i].name@
}

/// No two entries carry the same event name.
spec fn names_unique<T>(entries: Seq<EventEntry<T>>) -> bool {
    forall|i: int, j: int|
        0 <= i < entries.len() && 0 <= j < entries.len() && i != j ==> #[trigger] key_at(entries, i)
            != #[trigger] key_at(entries, j)
}

/// Whether some entry is named `key`.
spec fn has_key<T>(entries: Seq<EventEntry<T>>, key: Seq<char>) -> bool {
    exists|i: int| 0 <= i < entries.len() && #[trigger] key_at(entries, i) == key
}

/// A position of an entry named `key`.
spec fn position_of<T>(entries: Seq<EventEntry<T>>, key: Seq<char>) -> int {
    choose|i: int| 0 <= i < entries.len() && #[trigger] key_at(entries, i) == key
}

/// The map from event names to listener lists that the entries stand for.
spec fn table_of<T>(entries: Seq<EventEntry<T>>) -> Map<Seq<char>, Seq<Listener<T>>> {
    Map::new(
        |key: Seq<char>| has_key(entries, key),
        |key: Seq<char>| entries[position_of(entries, key)].listeners@,
    )
}

proof fn lemma_table_at<T>(entries: Seq<EventEntry<T>>, i: int)
    requires
        names_unique(entries),
        0 <= i < entries.len(),
    ensures
        table_of(entries).dom().contains(key_at(entries, i)),
        table_of(entries)[key_at(entries, i)] == entries[i].listeners@,
{
    let key = key_at(entries, i);
    assert(has_key(entries, key));
    let p = position_of(entries, key);
    assert(key_at(entries, p) == key);
}

proof fn lemma_table_update<T>(entries: Seq<EventEntry<T>>, i: int, entry: EventEntry<T>)
    requires
        names_unique(entries),
        0 <= i < entries.len(),
        entry.name@ == key_at(entries, i),
    ensures
        names_unique(entries.update(i, entry)),
        table_of(entries.update(i, entry)) == table_of(entries).insert(
            entry.name@,
            entry.listeners@,
        ),
{
    let updated = entries.update(i, entry);
    assert forall|a: int, b: int|
        0 <= a < updated.len() && 0 <= b < updated.len() && a != b implies #[trigger] key_at(
        updated,
        a,
    ) != #[trigger] key_at(updated, b) by {
        assert(key_at(updated, a) == key_at(entries, a));
        assert(key_at(updated, b) == key_at(entries, b));
    }
    let lhs = table_of(updated);
    let rhs = table_of(entries).insert(entry.name@, entry.listeners@);
    assert forall|key: Seq<char>| #[trigger] lhs.dom().contains(key) <==> rhs.dom().contains(key) by {
        if has_key(updated, key) {
            let j = choose|j: int| 0 <= j < updated.len() && #[trigger] key_at(updated, j) == key;
            assert(key_at(entries, j) == key);
        }
        if has_key(entries, key) {
            let j = choose|j: int| 0 <= j < entries.len() && #[trigger] key_at(entries, j) == key;
            assert(key_at(updated, j) == key);
        }
        if key == entry.name@ {
            assert(key_at(updated, i) == key);
        }
    }
    assert forall|key: Seq<char>| #[trigger] lhs.dom().contains(key) implies lhs[key] == rhs[key] by {
        let j = choose|j: int| 0 <= j < updated.len() && #[trigger] key_at(updated, j) == key;
        lemma_table_at(updated, j);
        if j != i {
            lemma_table_at(entries, j);
        }
    }
    assert(lhs =~= rhs);
}

proof fn lemma_table_remove<T>(entries: Seq<EventEntry<T>>, i: int)
    requires
        names_unique(entries),
        0 <= i < entries.len(),
    ensures
        names_unique(entries.remove(i)),
        table_of(entries.remove(i)) == table_of(entries).remove(key_at(entries, i)),
{
    let removed = entries.remove(i);
    assert forall|a: int| 0 <= a < removed.len() implies #[trigger] key_at(removed, a) == key_at(
        entries,
        if a < i { a } else { a + 1 },
    ) by {}
    assert forall|a: int, b: int|
        0 <= a < removed.len() && 0 <= b < removed.len() && a != b implies #[trigger] key_at(
        removed,
        a,
    ) != #[trigger] key_at(removed, b) by {
        assert(key_at(removed, a) == key_at(entries, if a < i { a } else { a + 1 }));
        assert(key_at(removed, b) == key_at(entries, if b < i { b } else { b + 1 }));
    }
    let lhs = table_of(removed);
    let rhs = table_of(entries).remove(key_at(entries, i));
    assert forall|key: Seq<char>| #[trigger] lhs.dom().contains(key) <==> rhs.dom().contains(key) by {
        if has_key(removed, key) {
            let j = choose|j: int| 0 <= j < removed.len() && #[trigger] key_at(removed, j) == key;
            let src = if j < i { j } else { j + 1 };
            assert(key_at(removed, j) == key_at(entries, src));
            assert(key_at(entries, src) == key);
        }
        if has_key(entries, key) && key != key_at(entries, i) {
            let j = choose|j: int| 0 <= j < entries.len() && #[trigger] key_at(entries, j) == key;
            assert(j != i);
            let dst = if j < i { j } else { j - 1 };
            assert(key_at(removed, dst) == key_at(entries, j));
        }
    }
    assert forall|key: Seq<char>| #[trigger] lhs.dom().contains(key) implies lhs[key] == rhs[key] by {
        let j = choose|j: int| 0 <= j < removed.len() && #[trigger] key_at(removed, j) == key;
        let src = if j < i { j } else { j + 1 };
        assert(key_at(removed, j) == key_at(entries, src));
        lemma_table_at(removed, j);
        lemma_table_at(entries, src);
    }
    assert(lhs =~= rhs);
}

proof fn lemma_table_push<T>(entries: Seq<EventEntry<T>>, entry: EventEntry<T>)
    requires
        names_unique(entries),
        !has_key(entries, entry.name@),
    ensures
        names_unique(entries.push(entry)),
        table_of(entries.push(entry)) == table_of(entries).insert(entry.name@, entry.listeners@),
{
    let pushed = entries.push(entry);
    let n = entries.len() as int;
    assert forall|a: int| 0 <= a < n implies #[trigger] key_at(pushed, a) == key_at(entries, a) by {}
    assert forall|a: int, b: int|
        0 <= a < pushed.len() && 0 <= b < pushed.len() && a != b implies #[trigger] key_at(
        pushed,
        a,
    ) != #[trigger] key_at(pushed, b) by {
        if a < n && b < n {
            assert(key_at(pushed, a) == key_at(entries, a));
            assert(key_at(pushed, b) == key_at(entries, b));
        } else if a < n {
            assert(key_at(pushed, a) == key_at(entries, a));
        } else if b < n {
            assert(key_at(pushed, b) == key_at(entries, b));
        }
    }
    let lhs = table_of(pushed);
    let rhs = table_of(entries).insert(entry.name@, entry.listeners@);
    assert forall|key: Seq<char>| #[trigger] lhs.dom().contains(key) <==> rhs.dom().contains(key) by {
        if has_key(pushed, key) {
            let j = choose|j: int| 0 <= j < pushed.len() && #[trigger] key_at(pushed, j) == key;
            if j < n {
                assert(key_at(entries, j) == key);
            }
        }
        if has_key(entries, key) {
            let j = choose|j: int| 0 <= j < entries.len() && #[trigger] key_at(entries, j) == key;
            assert(key_at(pushed, j) == key);
        }
        if key == entry.name@ {
            assert(key_at(pushed, n) == key);
        }
    }
    assert forall|key: Seq<char>| #[trigger] lhs.dom().contains(key) implies lhs[key] == rhs[key] by {
        let j = choose|j: int| 0 <= j < pushed.len() && #[trigger] key_at(pushed, j) == key;
        lemma_table_at(pushed, j);
        if j < n {
            assert(key_at(entries, j) == key);
            lemma_table_at(entries, j);
        }
    }
    assert(lhs =~= rhs);
}

/// The callbacks that an emission runs, in the order it runs them: the
/// listener registered last is called first.
pub open spec fn firing_order<T>(listeners: Seq<Listener<T>>) -> Seq<Callback<T>> {
    Seq::new(listeners.len(), |k: int| listeners[listeners.len() - 1 - k].spec_callback())
}

/// The callbacks that a final emission runs, in registration order.
pub open spec fn final_firing_order<T>(listeners: Seq<Listener<T>>) -> Seq<Callback<T>> {
    Seq::new(listeners.len(), |k: int| listeners[k].spec_callback())
}

/// The listeners that remain when those running `callback` are taken out.
/// The order is kept.
pub open spec fn without_callback<T>(listeners: Seq<Listener<T>>, callback: Callback<T>) -> Seq<Listener<T>>
    decreases listeners.len(),
{
    if listeners.len() == 0 {
        seq![]
    } else {
        let rest = without_callback(listeners.drop_last(), callback);
        if listeners.last().spec_callback() == callback {
            rest
        } else {
            rest.push(listeners.last())
        }
    }
}

/// Whether some listener of `listeners` runs `callback`.
pub open spec fn runs_callback<T>(listeners: Seq<Listener<T>>, callback: Callback<T>) -> bool {
    exists|k: int| 0 <= k < listeners.len() && (#[trigger] listeners[k]).spec_callback() == callback
}

/// Taking out the listeners of a callback shortens the list exactly when some
/// listener runs it, and leaves the list as it was otherwise.
pub proof fn lemma_without_callback<T>(listeners: Seq<Listener<T>>, callback: Callback<T>)
    ensures
        without_callback(listeners, callback).len() <= listeners.len(),
        without_callback(listeners, callback).len() < listeners.len() <==> runs_callback(
            listeners,
            callback,
        ),
        !runs_callback(listeners, callback) ==> without_callback(listeners, callback) == listeners,
    decreases listeners.len(),
{
    if listeners.len() > 0 {
        let init = listeners.drop_last();
        lemma_without_callback(init, callback);
        if runs_callback(init, callback) {
            let k = choose|k: int| 0 <= k < init.len() && (#[trigger] init[k]).spec_callback() == callback;
            assert(listeners[k] == init[k]);
        }
        if runs_callback(listeners, callback) && listeners.last().spec_callback() != callback {
            let k = choose|k: int| 0 <= k < listeners.len() && (#[trigger] listeners[k]).spec_callback() == callback;
            assert(k < init.len());
            assert(init[k] == listeners[k]);
        }
        if listeners.last().spec_callback() == callback {
            assert(listeners[listeners.len() - 1].spec_callback() == callback);
        }
        if !runs_callback(listeners, callback) {
            assert forall|k: int| 0 <= k < init.len() implies (#[trigger] init[k]).spec_callback() != callback by {
                assert(init[k] == listeners[k]);
            }
            assert(listeners[listeners.len() - 1].spec_callback() != callback);
            assert(init.push(listeners.last()) =~= listeners);
        }
    }
}

/// Looks up the position of the entry named `key`.
fn find_entry<T>(entries: &Vec<EventEntry<T>>, key: &String) -> (found: Option<usize>)
    ensures
        found matches Some(i) ==> i < entries@.len() && key_at(entries@, i as int) == key@,
        found is None ==> !has_key(entries@, key@),
{
    let n = entries.len();
    let mut i: usize = 0;
    while i < n
        invariant
            n == entries@.len(),
            0 <= i <= n,
            forall|j: int| 0 <= j < i ==> #[trigger] key_at(entries@, j) != key@,
        decreases n - i,
    {
        if entries[i].name == *key {
            return Some(i);
        }
        i += 1;
    }
    None
}

/// Puts `entry` back at position `i` of `entries`, from which it was taken.
fn restore_entry<T>(
    events: &mut Vec<EventEntry<T>>,
    i: usize,
    entry: EventEntry<T>,
    Ghost(entries): Ghost<Seq<EventEntry<T>>>,
)
    requires
        names_unique(entries),
        i < entries.len(),
        old(events)@ == entries.remove(i as int),
        entry.name@ == key_at(entries, i as int),
    ensures
        names_unique(final(events)@),
        table_of(final(events)@) == table_of(entries).insert(entry.name@, entry.listeners@),
{
    events.insert(i, entry);
    proof {
        assert(events@ =~= entries.update(i as int, entry));
        lemma_table_update(entries, i as int, entry);
    }
}

/// Takes the entry at position `i` out of the table.
fn drop_entry<T>(events: &mut Vec<EventEntry<T>>, i: usize) -> (entry: EventEntry<T>)
    requires
        names_unique(old(events)@),
        i < old(events)@.len(),
    ensures
        entry == old(events)@[i as int],
        names_unique(final(events)@),
        table_of(final(events)@) == table_of(old(events)@).remove(key_at(old(events)@, i as int)),
{
    let ghost entries = events@;
    let entry = events.remove(i);
    proof {
        lemma_table_remove(entries, i as int);
    }
    entry
}

/// The call budget that a limit of `limit` asks for: `limit` calls, or none
/// (without limit) for `0`.
pub open spec fn budget_for(limit: u64) -> Option<u64> {
    if limit > 0 {
        Some(limit)
    } else {
        None
    }
}

/// The listeners of `listeners` that `drop` does not mark, in their order.
pub open spec fn keep_unspent<T>(listeners: Seq<Listener<T>>, drop: Seq<bool>) -> Seq<Listener<T>>
    decreases listeners.len(),
{
    if listeners.len() == 0 {
        seq![]
    } else {
        let rest = keep_unspent(listeners.drop_last(), drop.drop_last());
        if drop.last() {
            rest
        } else {
            rest.push(listeners.last())
        }
    }
}

/// `spent` has one flag per listener and marks only limited listeners: a
/// listener without a budget is never found spent.
pub open spec fn spent_flags_fit<T>(listeners: Seq<Listener<T>>, spent: Seq<bool>) -> bool {
    &&& spent.len() == listeners.len()
    &&& forall|k: int| 0 <= k < spent.len() && #[trigger] spent[k] ==> listeners[k].limited()
}

/// `reads` holds one reading per listener of `listeners`: a reading of the
/// listener's own counter for a limited listener, none for an unlimited one.
pub open spec fn readings_fit<T>(listeners: Seq<Listener<T>>, reads: Seq<Option<Reading>>) -> bool {
    &&& reads.len() == listeners.len()
    &&& forall|k: int| 0 <= k < reads.len() ==> (#[trigger] reads[k] is Some) == listeners[k].limited()
    &&& forall|k: int|
        0 <= k < reads.len() && #[trigger] reads[k] is Some ==> reads[k]->0.budget()
            == listeners[k].spec_budget()->0
}

/// Which of `reads` found their counter at zero.
pub open spec fn read_at_zero(reads: Seq<Option<Reading>>) -> Seq<bool> {
    reads.map_values(|read: Option<Reading>| read matches Some(r) && r.count() == 0)
}

/// The callbacks in `callbacks`, each run on `payload`.
pub open spec fn with_payload<T>(callbacks: Seq<Callback<T>>, payload: EventPayload<T>) -> Seq<(Callback<T>, EventPayload<T>)> {
    callbacks.map_values(|callback: Callback<T>| (callback, payload))
}

/// The budget counters of the limited listeners of `listeners`, in order.
pub open spec fn budgets_of<T>(listeners: Seq<Listener<T>>) -> Seq<SharedBudget>
    decreases listeners.len(),
{
    if listeners.len() == 0 {
        seq![]
    } else {
        let rest = budgets_of(listeners.drop_last());
        match listeners.last().spec_budget() {
            Some(budget) => rest.push(budget),
            None => rest,
        }
    }
}

/// Dropping the listeners that run `callback` is `without_callback`.
proof fn lemma_drop_matched<T>(listeners: Seq<Listener<T>>, matched: Seq<bool>, callback: Callback<T>)
    requires
        matched.len() == listeners.len(),
        forall|k: int| 0 <= k < listeners.len() ==> #[trigger] matched[k] == (listeners[k].spec_callback() == callback),
    ensures
        keep_unspent(listeners, matched) == without_callback(listeners, callback),
    decreases listeners.len(),
{
    if listeners.len() > 0 {
        let init = listeners.drop_last();
        let flags = matched.drop_last();
        assert forall|k: int| 0 <= k < init.len() implies #[trigger] flags[k] == (init[k].spec_callback() == callback) by {
            assert(flags[k] == matched[k]);
            assert(init[k] == listeners[k]);
        }
        lemma_drop_matched(init, flags, callback);
        assert(matched.last() == matched[listeners.len() - 1]);
    }
}

/// The listeners of `listeners` that `spent` does not mark, in their order.
/// The listeners are moved, not copied.
pub fn drop_spent<T>(listeners: Vec<Listener<T>>, spent: &Vec<bool>) -> (kept: Vec<Listener<T>>)
    requires
        spent@.len() == listeners@.len(),
    ensures
        kept@ == keep_unspent(listeners@, spent@),
{
    let ghost original = listeners@;
    let n = listeners.len();
    let mut rest = listeners;
    let mut kept: Vec<Listener<T>> = Vec::new();
    let mut i: usize = 0;
    while i < n
        invariant
            n == original.len(),
            n == spent@.len(),
            0 <= i <= n,
            rest@ == original.skip(i as int),
            kept@ == keep_unspent(original.take(i as int), spent@.take(i as int)),
        decreases n - i,
    {
        assert(rest@[0] == original[i as int]);
        let listener = rest.remove(0);
        if !spent[i] {
            kept.push(listener);
        }
        assert(rest@ =~= original.skip(i + 1));
        assert(original.take(i + 1).drop_last() =~= original.take(i as int));
        assert(spent@.take(i + 1).drop_last() =~= spent@.take(i as int));
        i += 1;
    }
    assert(original.take(n as int) =~= original);
    assert(spent@.take(n as int) =~= spent@);
    kept
}

/// Marks the listeners of `listeners` that run the callback of `target`.
fn matching_flags<T>(listeners: &Vec<Listener<T>>, target: &Listener<T>) -> (matched: Vec<bool>)
    ensures
        matched@.len() == listeners@.len(),
        forall|k: int|
            0 <= k < listeners@.len() ==> #[trigger] matched@[k] == (listeners@[k].spec_callback()
                == target.spec_callback()),
{
    let n = listeners.len();
    let mut matched: Vec<bool> = Vec::new();
    let mut i: usize = 0;
    while i < n
        invariant
            n == listeners@.len(),
            0 <= i <= n,
            matched@.len() == i,
            forall|k: int|
                0 <= k < i ==> #[trigger] matched@[k] == (listeners@[k].spec_callback()
                    == target.spec_callback()),
        decreases n - i,
    {
        let same = listeners[i].eq_callback(target.callback().clone());
        matched.push(same);
        i += 1;
    }
    matched
}

/// Reads, after an emission, which listeners are at their limit: the counter
/// of every limited listener is read once, the reading is added to `reads`,
/// and a listener is marked exactly when its own counter was read at zero.
fn spent_flags<T>(listeners: &Vec<Listener<T>>, reads: &mut Vec<Option<Reading>>) -> (spent: Vec<bool>)
    ensures
        final(reads)@.len() == old(reads)@.len() + listeners@.len(),
        final(reads)@.take(old(reads)@.len() as int) == old(reads)@,
        readings_fit(listeners@, final(reads)@.skip(old(reads)@.len() as int)),
        spent@ == read_at_zero(final(reads)@.skip(old(reads)@.len() as int)),
        spent_flags_fit(listeners@, spent@),
{
    let ghost start = old(reads)@;
    let n = listeners.len();
    let mut spent: Vec<bool> = Vec::new();
    let mut i: usize = 0;
    while i < n
        invariant
            n == listeners@.len(),
            0 <= i <= n,
            spent@.len() == i,
            reads@.len() == start.len() + i,
            reads@.take(start.len() as int) == start,
            readings_fit(listeners@.take(i as int), reads@.skip(start.len() as int)),
            spent@ == read_at_zero(reads@.skip(start.len() as int)),
        decreases n - i,
    {
        let read = listeners[i].read_budget();
        let at_limit = match &read {
            Some(r) => r.calls_left() == 0,
            None => false,
        };
        let ghost before = reads@;
        reads.push(read);
        spent.push(at_limit);
        proof {
            assert(reads@.take(start.len() as int) =~= before.take(start.len() as int));
            assert(reads@.skip(start.len() as int) =~= before.skip(start.len() as int).push(read));
            assert(listeners@.take(i + 1) =~= listeners@.take(i as int).push(listeners@[i as int]));
            assert(spent@ =~= read_at_zero(reads@.skip(start.len() as int)));
        }
        i += 1;
    }
    proof {
        assert(listeners@.take(n as int) =~= listeners@);
        let fresh = reads@.skip(start.len() as int);
        assert forall|k: int| 0 <= k < spent@.len() && #[trigger] spent@[k] implies listeners@[k].limited() by {
            assert(fresh[k] is Some);
        }
    }
    spent
}

/// Takes one call from the budget of `listener` and adds the evidence to `takes`.
fn spend_into<T>(listener: &Listener<T>, takes: &mut Vec<Taken>)
    ensures
        taken_from(final(takes)@) == taken_from(old(takes)@) + budgets_of(seq![*listener]),
{
    let taken = listener.spend_call();
    proof {
        assert(seq![*listener].drop_last() =~= Seq::<Listener<T>>::empty());
        assert(budgets_of(Seq::<Listener<T>>::empty()) == Seq::<SharedBudget>::empty());
        assert(seq![*listener].last() == *listener);
    }
    match taken {
        Some(t) => {
            takes.push(t);
            assert(budgets_of(seq![*listener]) =~= seq![t.budget()]);
            assert(taken_from(takes@) =~= taken_from(old(takes)@) + seq![t.budget()]);
        },
        None => {
            assert(taken_from(takes@) =~= taken_from(old(takes)@) + Seq::<SharedBudget>::empty());
        },
    }
}

/// The budgets that the listeners of `listeners` followed by `listener` are
/// taken from.
proof fn lemma_budgets_push<T>(listeners: Seq<Listener<T>>, listener: Listener<T>)
    ensures
        budgets_of(listeners.push(listener)) == budgets_of(listeners) + budgets_of(seq![listener]),
{
    assert(listeners.push(listener).drop_last() =~= listeners);
    assert(seq![listener].drop_last() =~= Seq::<Listener<T>>::empty());
    assert(budgets_of(Seq::<Listener<T>>::empty()) =~= Seq::<SharedBudget>::empty());
    assert(budgets_of(listeners.push(listener)) =~= budgets_of(listeners) + budgets_of(seq![listener]));
}

/// Runs one emission step over `listeners`, the last registered first: each
/// takes one call from its budget and, when `payload` is given, runs its
/// callback on it. Returns the callbacks in that order; the evidence of the
/// takes and of the runs is added to `takes` and `runs`.
fn emit_last_first<T>(
    listeners: &Vec<Listener<T>>,
    payload: Option<&EventPayload<T>>,
    takes: &mut Vec<Taken>,
    runs: &mut Vec<Invoked<T>>,
) -> (firing: Vec<Callback<T>>)
    ensures
        firing@ == firing_order(listeners@),
        taken_from(final(takes)@) == taken_from(old(takes)@) + budgets_of(listeners@.reverse()),
        payload matches Some(p) ==> records(final(runs)@) == records(old(runs)@) + with_payload(
            firing_order(listeners@),
            *p,
        ),
        payload is None ==> final(runs)@ == old(runs)@,
{
    let ghost order = listeners@.reverse();
    let n = listeners.len();
    let mut firing: Vec<Callback<T>> = Vec::new();
    let mut j: usize = n;
    while j > 0
        invariant
            n == listeners@.len(),
            order == listeners@.reverse(),
            j <= n,
            firing@ == firing_order(listeners@).take(n - j),
            taken_from(takes@) == taken_from(old(takes)@) + budgets_of(order.take(n - j)),
            payload matches Some(p) ==> records(runs@) == records(old(runs)@) + with_payload(
                firing_order(listeners@).take(n - j),
                *p,
            ),
            payload is None ==> runs@ == old(runs)@,
        decreases j,
    {
        j -= 1;
        let ghost before_takes = taken_from(takes@);
        let ghost before_runs = records(runs@);
        spend_into(&listeners[j], takes);
        let callback = listeners[j].callback();
        proof {
            assert(order[n - 1 - j] == listeners@[j as int]);
            assert(order.take(n - j) =~= order.take(n - 1 - j).push(listeners@[j as int]));
            lemma_budgets_push(order.take(n - 1 - j), listeners@[j as int]);
            assert(firing_order(listeners@).take(n - j) =~= firing_order(listeners@).take(n - 1 - j).push(
                listeners@[j as int].spec_callback(),
            ));
        }
        match payload {
            Some(p) => {
                let ran = callback.invoke(p);
                runs.push(ran);
                assert(records(runs@) =~= before_runs.push((listeners@[j as int].spec_callback(), *p)));
                assert(with_payload(firing_order(listeners@).take(n - j), *p) =~= with_payload(
                    firing_order(listeners@).take(n - 1 - j),
                    *p,
                ).push((listeners@[j as int].spec_callback(), *p)));
            },
            None => {},
        }
        firing.push(callback.clone());
    }
    assert(order.take(n as int) =~= order);
    assert(firing_order(listeners@).take(n as int) =~= firing_order(listeners@));
    firing
}

/// Runs one final emission step over `listeners`, in registration order:
/// each takes one call from its budget and, when `payload` is given, runs its
/// callback on it. Returns the callbacks in that order; the evidence of the
/// takes and of the runs is added to `takes` and `runs`.
fn emit_in_order<T>(
    listeners: &Vec<Listener<T>>,
    payload: Option<&EventPayload<T>>,
    takes: &mut Vec<Taken>,
    runs: &mut Vec<Invoked<T>>,
) -> (firing: Vec<Callback<T>>)
    ensures
        firing@ == final_firing_order(listeners@),
        taken_from(final(takes)@) == taken_from(old(takes)@) + budgets_of(listeners@),
        payload matches Some(p) ==> records(final(runs)@) == records(old(runs)@) + with_payload(
            final_firing_order(listeners@),
            *p,
        ),
        payload is None ==> final(runs)@ == old(runs)@,
{
    let n = listeners.len();
    let mut firing: Vec<Callback<T>> = Vec::new();
    let mut i: usize = 0;
    while i < n
        invariant
            n == listeners@.len(),
            i <= n,
            firing@ == final_firing_order(listeners@).take(i as int),
            taken_from(takes@) == taken_from(old(takes)@) + budgets_of(listeners@.take(i as int)),
            payload matches Some(p) ==> records(runs@) == records(old(runs)@) + with_payload(
                final_firing_order(listeners@).take(i as int),
                *p,
            ),
            payload is None ==> runs@ == old(runs)@,
        decreases n - i,
    {
        let ghost before_runs = records(runs@);
        spend_into(&listeners[i], takes);
        let callback = listeners[i].callback();
        proof {
            assert(listeners@.take(i + 1) =~= listeners@.take(i as int).push(listeners@[i as int]));
            lemma_budgets_push(listeners@.take(i as int), listeners@[i as int]);
            assert(final_firing_order(listeners@).take(i + 1) =~= final_firing_order(listeners@).take(
                i as int,
            ).push(listeners@[i as int].spec_callback()));
        }
        match payload {
            Some(p) => {
                let ran = callback.invoke(p);
                runs.push(ran);
                assert(records(runs@) =~= before_runs.push((listeners@[i as int].spec_callback(), *p)));
                assert(with_payload(final_firing_order(listeners@).take(i + 1), *p) =~= with_payload(
                    final_firing_order(listeners@).take(i as int),
                    *p,
                ).push((listeners@[i as int].spec_callback(), *p)));
            },
            None => {},
        }
        firing.push(callback.clone());
        i += 1;
    }
    assert(listeners@.take(n as int) =~= listeners@);
    assert(final_firing_order(listeners@).take(n as int) =~= final_firing_order(listeners@));
    firing
}

/// Keeps, for every event name, the listeners registered to it, and never more
/// than `max_listeners` added to one event.
#[verifier::reject_recursive_types(T)]
pub struct EventEmitter<T> {
    max_listeners: usize,
    events: Vec<EventEntry<T>>,
    runs: Vec<Invoked<T>>,
    takes: Vec<Taken>,
    reads: Vec<Option<Reading>>,
}

impl<T> EventEmitter<T> {
    #[verifier::type_invariant]
    spec fn well_formed(self) -> bool {
        names_unique(self.events@)
    }

    /// The listeners of each registered event.
    pub closed spec fn table(&self) -> Map<Seq<char>, Seq<Listener<T>>> {
        table_of(self.events@)
    }

    /// The most listeners that may be added to one event.
    pub closed spec fn limit(&self) -> usize {
        self.max_listeners
    }

    /// Every callback that the emitter has run, with the payload it ran on,
    /// oldest first. Each entry stands for a run that `Callback::invoke` made.
    pub closed spec fn invocations(&self) -> Seq<(Callback<T>, EventPayload<T>)> {
        records(self.runs@)
    }

    /// Every budget counter that the emitter has taken a call from, oldest
    /// first. Each entry stands for a take that really happened.
    pub closed spec fn budget_takes(&self) -> Seq<SharedBudget> {
        taken_from(self.takes@)
    }

    /// The readings of budget counters that emissions have made to decide
    /// which listeners to drop, oldest first: one per listener of the emitted
    /// event, none for a listener without a budget.
    pub closed spec fn budget_reads(&self) -> Seq<Option<Reading>> {
        self.reads@
    }

    /// The readings that were made between `before` and `after`.
    pub open spec fn fresh_reads(before: Self, after: Self) -> Seq<Option<Reading>> {
        after.budget_reads().skip(before.budget_reads().len() as int)
    }

    /// The listeners registered to `name`, empty where the event is unknown.
    pub open spec fn listeners_of(&self, name: Seq<char>) -> Seq<Listener<T>> {
        if self.table().dom().contains(name) {
            self.table()[name]
        } else {
            seq![]
        }
    }

    /// Neither a callback runs nor a budget is taken from or read.
    pub open spec fn quiet(before: Self, after: Self) -> bool {
        &&& after.invocations() == before.invocations()
        &&& after.budget_takes() == before.budget_takes()
        &&& after.budget_reads() == before.budget_reads()
    }

    /// What adding a listener for `callback` with call budget `budget`
    /// (`None`: without limit) to `event_name` does: below the limit a new
    /// listener, whose counter is created with `budget`, is appended to the
    /// event's list and a handle to it is returned, with the same callback and
    /// the same shared budget; at the limit the request is refused with
    /// `OverloadedEvent`. Either way the event is registered afterwards.
    pub open spec fn add_outcome(
        before: Self,
        after: Self,
        event_name: Seq<char>,
        callback: Callback<T>,
        budget: Option<u64>,
        result: Result<Listener<T>, EventError>,
    ) -> bool {
        &&& after.limit() == before.limit()
        &&& EventEmitter::quiet(before, after)
        &&& before.listeners_of(event_name).len() < before.limit() ==> {
            let stored = after.table()[event_name].last();
            &&& result is Ok
            &&& result->Ok_0.spec_callback() == callback
            &&& result->Ok_0.limited() == (budget is Some)
            &&& result->Ok_0.initial_budget() == budget
            &&& result->Ok_0.runs() == Seq::<(Callback<T>, EventPayload<T>)>::empty()
            &&& stored.spec_callback() == callback
            &&& stored.spec_budget() == result->Ok_0.spec_budget()
            &&& stored.initial_budget() == budget
            &&& after.table() == before.table().insert(
                event_name,
                before.listeners_of(event_name).push(stored),
            )
        }
        &&& before.listeners_of(event_name).len() >= before.limit() ==> {
            &&& result is Err
            &&& result->Err_0 == EventError::OverloadedEvent
            &&& after.table() == before.table().insert(event_name, before.listeners_of(event_name))
        }
    }

    /// What removing the listeners of `callback` from `event_name` does: an
    /// unknown event is refused with `EventNotFound` and an event without such
    /// a listener with `ListenerNotFound`, both leaving the table as it was;
    /// otherwise every listener of the event that runs `callback` is removed.
    pub open spec fn remove_outcome(
        before: Self,
        after: Self,
        event_name: Seq<char>,
        callback: Callback<T>,
        result: Result<(), EventError>,
    ) -> bool {
        &&& after.limit() == before.limit()
        &&& EventEmitter::quiet(before, after)
        &&& if !before.table().dom().contains(event_name) {
            &&& result == Err::<(), EventError>(EventError::EventNotFound)
            &&& after.table() == before.table()
        } else if !runs_callback(before.table()[event_name], callback) {
            &&& result == Err::<(), EventError>(EventError::ListenerNotFound)
            &&& after.table() == before.table()
        } else {
            &&& result == Ok::<(), EventError>(())
            &&& after.table() == before.table().insert(
                event_name,
                without_callback(before.table()[event_name], callback),
            )
        }
    }

    /// What removing all listeners of `event_name` does: the event leaves the
    /// table; an unknown event is refused with `EventNotFound`.
    pub open spec fn remove_all_outcome(
        before: Self,
        after: Self,
        event_name: Seq<char>,
        result: Result<(), EventError>,
    ) -> bool {
        &&& after.limit() == before.limit()
        &&& EventEmitter::quiet(before, after)
        &&& after.table() == before.table().remove(event_name)
        &&& if before.table().dom().contains(event_name) {
            result == Ok::<(), EventError>(())
        } else {
            result == Err::<(), EventError>(EventError::EventNotFound)
        }
    }

    /// The table after an emission of `event_name` that found the listeners
    /// marked by `spent` at their limit: those are dropped, the others stay in
    /// their order, and every other event is as it was.
    pub open spec fn emission_table(before: Self, event_name: Seq<char>, spent: Seq<bool>) -> Map<Seq<char>, Seq<Listener<T>>> {
        before.table().insert(event_name, keep_unspent(before.table()[event_name], spent))
    }

    /// The bookkeeping of an emission of `event_name`: the budget of every
    /// limited listener of the event is taken from once, the listener
    /// registered last first; then the counter of every limited listener is
    /// read once, and exactly the listeners whose counter is read at zero are
    /// dropped (listeners without a budget always stay).
    pub open spec fn emission_bookkeeping(before: Self, after: Self, event_name: Seq<char>) -> bool {
        &&& after.budget_takes() == before.budget_takes() + budgets_of(before.table()[event_name].reverse())
        &&& after.budget_reads().len() == before.budget_reads().len() + before.table()[event_name].len()
        &&& after.budget_reads().take(before.budget_reads().len() as int) == before.budget_reads()
        &&& readings_fit(before.table()[event_name], EventEmitter::fresh_reads(before, after))
        &&& after.table() == EventEmitter::emission_table(
            before,
            event_name,
            read_at_zero(EventEmitter::fresh_reads(before, after)),
        )
        &&& exists|spent: Seq<bool>|
            spent_flags_fit(before.table()[event_name], spent) && after.table()
                == #[trigger] EventEmitter::emission_table(before, event_name, spent)
    }

    /// What emitting `event_name` with `payload` does: the bookkeeping of an
    /// emission, and the callback of every listener of the event runs once on
    /// `payload`, the listener registered last first. An unknown event is
    /// refused with `EventNotFound` and nothing runs or changes.
    pub open spec fn emit_outcome(
        before: Self,
        after: Self,
        event_name: Seq<char>,
        payload: EventPayload<T>,
        result: Result<(), EventError>,
    ) -> bool {
        &&& after.limit() == before.limit()
        &&& if before.table().dom().contains(event_name) {
            &&& result == Ok::<(), EventError>(())
            &&& after.invocations() == before.invocations() + with_payload(
                firing_order(before.table()[event_name]),
                payload,
            )
            &&& EventEmitter::emission_bookkeeping(before, after, event_name)
        } else {
            &&& result == Err::<(), EventError>(EventError::EventNotFound)
            &&& EventEmitter::quiet(before, after)
            &&& after.table() == before.table()
        }
    }

    /// What a final emission of `event_name` with `payload` does: the budget
    /// of every limited listener of the event is taken from once and the
    /// callback of every listener runs once on `payload`, in registration
    /// order; then the event leaves the table with all its listeners. An
    /// unknown event is refused with `EventNotFound` and nothing runs.
    pub open spec fn emit_final_outcome(
        before: Self,
        after: Self,
        event_name: Seq<char>,
        payload: EventPayload<T>,
        result: Result<(), EventError>,
    ) -> bool {
        &&& after.limit() == before.limit()
        &&& after.table() == before.table().remove(event_name)
        &&& after.budget_reads() == before.budget_reads()
        &&& if before.table().dom().contains(event_name) {
            &&& result == Ok::<(), EventError>(())
            &&& after.invocations() == before.invocations() + with_payload(
                final_firing_order(before.table()[event_name]),
                payload,
            )
            &&& after.budget_takes() == before.budget_takes() + budgets_of(before.table()[event_name])
        } else {
            &&& result == Err::<(), EventError>(EventError::EventNotFound)
            &&& EventEmitter::quiet(before, after)
        }
    }

    /// Creates an emitter with no events that admits `max_listeners` listeners per event.
    pub fn new(max_listeners: usize) -> (emitter: Self)
        ensures
            emitter.limit() == max_listeners,
            emitter.table() == Map::<Seq<char>, Seq<Listener<T>>>::empty(),
            emitter.invocations() == Seq::<(Callback<T>, EventPayload<T>)>::empty(),
            emitter.budget_takes() == Seq::<SharedBudget>::empty(),
            emitter.budget_reads() == Seq::<Option<Reading>>::empty(),
    {
        let emitter = EventEmitter {
            max_listeners,
            events: Vec::new(),
            runs: Vec::new(),
            takes: Vec::new(),
            reads: Vec::new(),
        };
        assert(emitter.table() =~= Map::<Seq<char>, Seq<Listener<T>>>::empty());
        assert(emitter.invocations() =~= Seq::<(Callback<T>, EventPayload<T>)>::empty());
        assert(emitter.budget_takes() =~= Seq::<SharedBudget>::empty());
        emitter
    }

    /// Carries out the bookkeeping of an emission of `event_name` without
    /// running any callback: every limited listener takes one call from its
    /// budget, the listener registered last first, and those whose budget is
    /// then found used up are dropped. Returns the callbacks to run, in that
    /// order. Fails with `EventNotFound` for an unknown event.
    pub fn prepare_emit(&mut self, event_name: &str) -> (result: Result<Vec<Callback<T>>, EventError>)
        ensures
            final(self).limit() == old(self).limit(),
            final(self).invocations() == old(self).invocations(),
            !old(self).table().dom().contains(event_name@) ==> {
                &&& result is Err
                &&& result->Err_0 == EventError::EventNotFound
                &&& final(self).table() == old(self).table()
                &&& final(self).budget_takes() == old(self).budget_takes()
            },
            old(self).table().dom().contains(event_name@) ==> {
                &&& result is Ok
                &&& result->Ok_0@ == firing_order(old(self).table()[event_name@])
                &&& EventEmitter::emission_bookkeeping(*old(self), *final(self), event_name@)
            },
    {
        self.run_emission(event_name, None)
    }

    /// The bookkeeping of an emission of `event_name`, and the runs of its
    /// callbacks on `payload` when one is given.
    fn run_emission(&mut self, event_name: &str, payload: Option<&EventPayload<T>>) -> (result: Result<Vec<Callback<T>>, EventError>)
        ensures
            final(self).limit() == old(self).limit(),
            payload is None ==> final(self).invocations() == old(self).invocations(),
            !old(self).table().dom().contains(event_name@) ==> {
                &&& result is Err
                &&& result->Err_0 == EventError::EventNotFound
                &&& final(self).table() == old(self).table()
                &&& EventEmitter::quiet(*old(self), *final(self))
            },
            old(self).table().dom().contains(event_name@) ==> {
                &&& result is Ok
                &&& result->Ok_0@ == firing_order(old(self).table()[event_name@])
                &&& EventEmitter::emission_bookkeeping(*old(self), *final(self), event_name@)
                &&& payload matches Some(p) ==> final(self).invocations() == old(self).invocations()
                    + with_payload(firing_order(old(self).table()[event_name@]), *p)
            },
    {
        proof {
            use_type_invariant(&*self);
        }
        let key = event_name.to_owned();
        match find_entry(&self.events, &key) {
            Some(i) => {
                let mut events: Vec<EventEntry<T>> = Vec::new();
                std::mem::swap(&mut events, &mut self.events);
                let ghost entries = events@;
                proof {
                    lemma_table_at(entries, i as int);
                }
                let entry = events.remove(i);
                let EventEntry { name, listeners } = entry;
                let mut takes: Vec<Taken> = Vec::new();
                std::mem::swap(&mut takes, &mut self.takes);
                let mut runs: Vec<Invoked<T>> = Vec::new();
                std::mem::swap(&mut runs, &mut self.runs);
                let firing = emit_last_first(&listeners, payload, &mut takes, &mut runs);
                self.takes = takes;
                self.runs = runs;
                let mut reads: Vec<Option<Reading>> = Vec::new();
                std::mem::swap(&mut reads, &mut self.reads);
                let spent = spent_flags(&listeners, &mut reads);
                self.reads = reads;
                let ghost listed = listeners@;
                let kept = drop_spent(listeners, &spent);
                restore_entry(&mut events, i, EventEntry { name, listeners: kept }, Ghost(entries));
                self.events = events;
                proof {
                    assert(listed == old(self).table()[event_name@]);
                    assert(final(self).table() == EventEmitter::emission_table(*old(self), event_name@, spent@));
                }
                Ok(firing)
            },
            None => Err(EventError::EventNotFound),
        }
    }

    /// Carries out the bookkeeping of a final emission of `event_name` without
    /// running any callback: every limited listener takes one call from its
    /// budget, in registration order, and the event is removed with all its
    /// listeners. Returns the callbacks to run, in that order. Fails with
    /// `EventNotFound` for an unknown event.
    pub fn prepare_emit_final(&mut self, event_name: &str) -> (result: Result<Vec<Callback<T>>, EventError>)
        ensures
            final(self).limit() == old(self).limit(),
            final(self).invocations() == old(self).invocations(),
            final(self).table() == old(self).table().remove(event_name@),
            final(self).budget_reads() == old(self).budget_reads(),
            !old(self).table().dom().contains(event_name@) ==> {
                &&& result is Err
                &&& result->Err_0 == EventError::EventNotFound
                &&& final(self).budget_takes() == old(self).budget_takes()
            },
            old(self).table().dom().contains(event_name@) ==> {
                &&& result is Ok
                &&& result->Ok_0@ == final_firing_order(old(self).table()[event_name@])
                &&& final(self).budget_takes() == old(self).budget_takes() + budgets_of(old(self).table()[event_name@])
            },
    {
        self.run_final_emission(event_name, None)
    }

    /// The bookkeeping of a final emission of `event_name`, and the runs of
    /// its callbacks on `payload` when one is given.
    fn run_final_emission(&mut self, event_name: &str, payload: Option<&EventPayload<T>>) -> (result: Result<Vec<Callback<T>>, EventError>)
        ensures
            final(self).limit() == old(self).limit(),
            final(self).table() == old(self).table().remove(event_name@),
            final(self).budget_reads() == old(self).budget_reads(),
            payload is None ==> final(self).invocations() == old(self).invocations(),
            !old(self).table().dom().contains(event_name@) ==> {
                &&& result is Err
                &&& result->Err_0 == EventError::EventNotFound
                &&& EventEmitter::quiet(*old(self), *final(self))
            },
            old(self).table().dom().contains(event_name@) ==> {
                &&& result is Ok
                &&& result->Ok_0@ == final_firing_order(old(self).table()[event_name@])
                &&& final(self).budget_takes() == old(self).budget_takes() + budgets_of(old(self).table()[event_name@])
                &&& payload matches Some(p) ==> final(self).invocations() == old(self).invocations()
                    + with_payload(final_firing_order(old(self).table()[event_name@]), *p)
            },
    {
        proof {
            use_type_invariant(&*self);
        }
        let key = event_name.to_owned();
        match find_entry(&self.events, &key) {
            Some(i) => {
                let mut events: Vec<EventEntry<T>> = Vec::new();
                std::mem::swap(&mut events, &mut self.events);
                proof {
                    lemma_table_at(events@, i as int);
                }
                let entry = drop_entry(&mut events, i);
                let mut takes: Vec<Taken> = Vec::new();
                std::mem::swap(&mut takes, &mut self.takes);
                let mut runs: Vec<Invoked<T>> = Vec::new();
                std::mem::swap(&mut runs, &mut self.runs);
                let firing = emit_in_order(&entry.listeners, payload, &mut takes, &mut runs);
                self.takes = takes;
                self.runs = runs;
                self.events = events;
                Ok(firing)
            },
            None => {
                assert(old(self).table().remove(event_name@) =~= old(self).table());
                Err(EventError::EventNotFound)
            },
        }
    }
}

impl<T> Default for EventEmitter<T> {
    /// An emitter with no events that admits 10 listeners per event.
    fn default() -> (emitter: Self)
        ensures
            emitter.limit() == 10,
            emitter.table() == Map::<Seq<char>, Seq<Listener<T>>>::empty(),
            emitter.invocations() == Seq::<(Callback<T>, EventPayload<T>)>::empty(),
            emitter.budget_takes() == Seq::<SharedBudget>::empty(),
    {
        EventEmitter::new(10)
    }
}

impl<T> EventHandler<T> for EventEmitter<T> {
    open spec fn registered_count(&self, event_name: Seq<char>) -> nat {
        self.listeners_of(event_name).len()
    }


    /// The number of listeners registered to `event_name` (0 for an unknown event).
    fn listener_count(&self, event_name: &str) -> (count: usize)
        ensures
            count == self.listeners_of(event_name@).len(),
    {
        proof {
            use_type_invariant(self);
        }
        let key = event_name.to_owned();
        match find_entry(&self.events, &key) {
            Some(i) => {
                proof {
                    lemma_table_at(self.events@, i as int);
                }
                self.events[i].listeners.len()
            },
            None => 0,
        }
    }

    /// Adds a listener for `callback` to `event_name` that may be called
    /// `limit` times (`0`: without limit). The event is registered even when
    /// the listener is refused because the event already has `max_listeners`
    /// listeners.
    fn add_limited_listener(&mut self, event_name: &str, callback: Callback<T>, limit: u64) -> (result: Result<Listener<T>, EventError>)
        ensures
            EventEmitter::add_outcome(*old(self), *final(self), event_name@, callback, budget_for(limit), result),
    {
        proof {
            use_type_invariant(&*self);
        }
        let key = event_name.to_owned();
        let mut events: Vec<EventEntry<T>> = Vec::new();
        std::mem::swap(&mut events, &mut self.events);
        let ghost entries = events@;
        let found = find_entry(&events, &key);
        let mut entry = match found {
            Some(i) => {
                proof {
                    lemma_table_at(entries, i as int);
                }
                events.remove(i)
            },
            None => EventEntry { name: key, listeners: Vec::new() },
        };
        let ghost before = entry.listeners@;
        assert(before == old(self).listeners_of(event_name@));
        let result = if entry.listeners.len() < self.max_listeners {
            let listener = Listener::new(callback, if limit > 0 { Some(limit) } else { None });
            let handle = listener.clone();
            entry.listeners.push(listener);
            Ok(handle)
        } else {
            Err(EventError::OverloadedEvent)
        };
        match found {
            Some(i) => {
                events.insert(i, entry);
                proof {
                    assert(events@ =~= entries.update(i as int, entry));
                    lemma_table_update(entries, i as int, entry);
                }
            },
            None => {
                events.push(entry);
                proof {
                    lemma_table_push(entries, entry);
                }
            },
        }
        self.events = events;
        result
    }

    /// Removes the listeners of `event_name` that run the callback of
    /// `listener`. Fails with `EventNotFound` for an unknown event and with
    /// `ListenerNotFound` when no listener of the event runs that callback.
    fn remove_listener(&mut self, event_name: &str, listener: &Listener<T>) -> (result: Result<(), EventError>)
        ensures
            EventEmitter::remove_outcome(*old(self), *final(self), event_name@, listener.spec_callback(), result),
    {
        proof {
            use_type_invariant(&*self);
        }
        let key = event_name.to_owned();
        match find_entry(&self.events, &key) {
            Some(i) => {
                let mut events: Vec<EventEntry<T>> = Vec::new();
                std::mem::swap(&mut events, &mut self.events);
                let ghost entries = events@;
                proof {
                    lemma_table_at(entries, i as int);
                    lemma_without_callback(entries[i as int].listeners@, listener.spec_callback());
                }
                let entry = events.remove(i);
                let EventEntry { name, listeners } = entry;
                let original_len = listeners.len();
                let matched = matching_flags(&listeners, listener);
                proof {
                    lemma_drop_matched(listeners@, matched@, listener.spec_callback());
                }
                let kept = drop_spent(listeners, &matched);
                let removed_some = kept.len() < original_len;
                restore_entry(&mut events, i, EventEntry { name, listeners: kept }, Ghost(entries));
                self.events = events;
                proof {
                    if !removed_some {
                        assert(table_of(self.events@) =~= table_of(entries));
                    }
                }
                if removed_some {
                    Ok(())
                } else {
                    Err(EventError::ListenerNotFound)
                }
            },
            None => Err(EventError::EventNotFound),
        }
    }

    /// Removes `event_name` with all its listeners. Fails with `EventNotFound`
    /// for an unknown event.
    fn remove_all_listeners(&mut self, event_name: &str) -> (result: Result<(), EventError>)
        ensures
            EventEmitter::remove_all_outcome(*old(self), *final(self), event_name@, result),
    {
        proof {
            use_type_invariant(&*self);
        }
        let key = event_name.to_owned();
        match find_entry(&self.events, &key) {
            Some(i) => {
                let mut events: Vec<EventEntry<T>> = Vec::new();
                std::mem::swap(&mut events, &mut self.events);
                let _entry = drop_entry(&mut events, i);
                self.events = events;
                Ok(())
            },
            None => {
                assert(old(self).table().remove(event_name@) =~= old(self).table());
                Err(EventError::EventNotFound)
            },
        }
    }

    /// Emits `event_name`: every listener takes one call from its budget
    /// and runs its callback on `payload`, the listener registered last
    /// first; limited listeners whose budget is used up are then dropped.
    /// Fails with `EventNotFound` for an unknown event.
    fn emit(&mut self, event_name: &str, payload: EventPayload<T>) -> (result: Result<(), EventError>)
        ensures
            EventEmitter::emit_outcome(*old(self), *final(self), event_name@, payload, result),
    {
        match self.run_emission(event_name, Some(&payload)) {
            Ok(_) => Ok(()),
            Err(error) => Err(error),
        }
    }

    /// Emits `event_name` for the last time: every listener takes one call
    /// from its budget and runs its callback on `payload`, in registration
    /// order, and the event is removed with all its listeners. Fails with
    /// `EventNotFound` for an unknown event.
    fn emit_final(&mut self, event_name: &str, payload: EventPayload<T>) -> (result: Result<(), EventError>)
        ensures
            EventEmitter::emit_final_outcome(*old(self), *final(self), event_name@, payload, result),
    {
        match self.run_final_emission(event_name, Some(&payload)) {
            Ok(_) => Ok(()),
            Err(error) => Err(error),
        }
    }

    /// The names of the events that have at least one listener, each once.
    fn event_names(&self) -> (names: Vec<String>)
        ensures
            forall|a: int|
                0 <= a < names@.len() ==> self.table().dom().contains(#[trigger] names@[a]@)
                    && self.table()[names@[a]@].len() > 0,
            forall|key: Seq<char>|
                #[trigger] self.table().dom().contains(key) && self.table()[key].len() > 0
                    ==> exists|a: int| 0 <= a < names@.len() && #[trigger] names@[a]@ == key,
            forall|a: int, b: int|
                0 <= a < names@.len() && 0 <= b < names@.len() && a != b ==> #[trigger] names@[a]@
                    != #[trigger] names@[b]@,
    {
        proof {
            use_type_invariant(self);
        }
        let ghost entries = self.events@;
        let n = self.events.len();
        let mut names: Vec<String> = Vec::new();
        let ghost mut origin: Seq<int> = seq![];
        let mut i: usize = 0;
        while i < n
            invariant
                n == entries.len(),
                entries == self.events@,
                names_unique(entries),
                0 <= i <= n,
                origin.len() == names@.len(),
                forall|a: int|
                    0 <= a < names@.len() ==> 0 <= #[trigger] origin[a] < i && names@[a]@ == key_at(
                        entries,
                        origin[a],
                    ) && entries[origin[a]].listeners@.len() > 0,
                forall|a: int, b: int| 0 <= a < b < names@.len() ==> #[trigger] origin[a] < #[trigger] origin[b],
                forall|j: int|
                    0 <= j < i && entries[j].listeners@.len() > 0 ==> exists|a: int|
                        0 <= a < names@.len() && #[trigger] origin[a] == j,
            decreases n - i,
        {
            let ghost before = origin;
            if self.events[i].listeners.len() > 0 {
                let name = self.events[i].name.clone();
                names.push(name);
                proof {
                    origin = origin.push(i as int);
                    assert(origin[origin.len() - 1] == i as int);
                }
            }
            proof {
                assert forall|j: int|
                    0 <= j < i + 1 && entries[j].listeners@.len() > 0 implies exists|a: int|
                    0 <= a < names@.len() && #[trigger] origin[a] == j by {
                    if j < i {
                        let a = choose|a: int| 0 <= a < before.len() && #[trigger] before[a] == j;
                        assert(origin[a] == before[a]);
                    } else {
                        assert(origin[origin.len() - 1] == j);
                    }
                }
            }
            i += 1;
        }
        proof {
            assert forall|a: int|
                0 <= a < names@.len() implies self.table().dom().contains(#[trigger] names@[a]@)
                && self.table()[names@[a]@].len() > 0 by {
                lemma_table_at(entries, origin[a]);
            }
            assert forall|key: Seq<char>|
                #[trigger] self.table().dom().contains(key) && self.table()[key].len() > 0
                implies exists|a: int| 0 <= a < names@.len() && #[trigger] names@[a]@ == key by {
                let j = choose|j: int| 0 <= j < entries.len() && #[trigger] key_at(entries, j) == key;
                lemma_table_at(entries, j);
                let a = choose|a: int| 0 <= a < names@.len() && #[trigger] origin[a] == j;
                assert(names@[a]@ == key);
            }
            assert forall|a: int, b: int|
                0 <= a < names@.len() && 0 <= b < names@.len() && a != b implies #[trigger] names@[a]@
                != #[trigger] names@[b]@ by {
                if a < b {
                    assert(origin[a] < origin[b]);
                } else {
                    assert(origin[b] < origin[a]);
                }
                assert(key_at(entries, origin[a]) != key_at(entries, origin[b]));
            }
        }
        names
    }

    /// Sets the most listeners that may be added to one event.
    fn set_max_listeners(&mut self, max: usize)
        ensures
            final(self).limit() == max,
            final(self).table() == old(self).table(),
            EventEmitter::quiet(*old(self), *final(self)),
    {
        proof {
            use_type_invariant(&*self);
        }
        self.max_listeners = max;
    }

    /// The most listeners that may be added to one event.
    fn max_listeners(&self) -> (max: usize)
        ensures
            max == self.limit(),
    {
        self.max_listeners
    }

    /// Whether `event_name` has at least one listener.
    fn has_listener(&self, event_name: &str) -> (active: bool)
        ensures
            active == (self.listeners_of(event_name@).len() > 0),
    {
        self.listener_count(event_name) > 0
    }

    /// Adds a listener without limit for `callback` to `event_name`.
    fn add_listener(&mut self, event_name: &str, callback: Callback<T>) -> (result: Result<Listener<T>, EventError>)
        ensures
            EventEmitter::add_outcome(*old(self), *final(self), event_name@, callback, None, result),
    {
        self.add_limited_listener(event_name, callback, 0)
    }

    /// Adds a listener for `callback` to `event_name` that is called once.
    fn add_once(&mut self, event_name: &str, callback: Callback<T>) -> (result: Result<Listener<T>, EventError>)
        ensures
            EventEmitter::add_outcome(*old(self), *final(self), event_name@, callback, Some(1), result),
    {
        self.add_limited_listener(event_name, callback, 1)
    }

    /// Adds a listener for `callback` to `event_name` that may be called
    /// `lifetime` times; `None` or `Some(0)` gives a listener without limit.
    fn add(&mut self, event_name: &str, lifetime: Option<u64>, callback: Callback<T>) -> (result: Result<Listener<T>, EventError>)
        ensures
            EventEmitter::add_outcome(
                *old(self),
                *final(self),
                event_name@,
                callback,
                if lifetime is Some && lifetime->0 > 0 {
                    lifetime
                } else {
                    None
                },
                result,
            ),
    {
        let limit = match lifetime {
            Some(n) => n,
            None => 0,
        };
        self.add_limited_listener(event_name, callback, limit)
    }
}

} // verus!
