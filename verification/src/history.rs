//! The mathematical model: a history is the sequence of items that the merged input streams
//! delivered, each tagged with the position (slot) of the stream that yielded it.

use vstd::prelude::*;

verus! {

/// The slot of the primary stream of `with_latest_from`.
pub open spec fn primary_slot() -> int {
    0
}

/// The item that the stream in `slot` yielded last in `events`, or `None` if it has not yielded.
pub open spec fn latest_of<T>(events: Seq<(usize, T)>, slot: int) -> Option<T>
    decreases events.len(),
{
    if events.len() == 0 {
        None
    } else if events.last().0 == slot {
        Some(events.last().1)
    } else {
        latest_of(events.drop_last(), slot)
    }
}

/// The latest item of each of `arity` streams after `events`.
pub open spec fn snapshot<T>(arity: nat, events: Seq<(usize, T)>) -> Seq<Option<T>> {
    Seq::new(arity, |j: int| latest_of(events, j))
}

/// Every stream has yielded at least once.
pub open spec fn all_present<T>(s: Seq<Option<T>>) -> bool {
    forall|j: int| 0 <= j < s.len() ==> #[trigger] s[j] is Some
}

/// The items of a snapshot in which every stream has yielded.
pub open spec fn unwrap_all<T>(s: Seq<Option<T>>) -> Seq<T> {
    Seq::new(s.len(), |j: int| s[j].unwrap())
}

/// Every item of `events` comes from one of `arity` streams.
pub open spec fn slots_in_range<T>(arity: nat, events: Seq<(usize, T)>) -> bool {
    forall|k: int| 0 <= k < events.len() ==> #[trigger] events[k].0 < arity
}

/// The stream in `slot` yields somewhere in `events`.
pub open spec fn yields_in<T>(events: Seq<(usize, T)>, slot: int) -> bool {
    exists|k: int| 0 <= k < events.len() && #[trigger] events[k].0 == slot
}

/// What `combine_latest_opt` yields: one snapshot per item, taken right after it.
pub open spec fn opt_trace<T>(arity: nat, events: Seq<(usize, T)>) -> Seq<Seq<Option<T>>> {
    Seq::new(events.len(), |k: int| snapshot(arity, events.take(k + 1)))
}

/// What `combine_latest` yields: after each item, the latest item of every stream, once every
/// stream has yielded.
pub open spec fn combine_trace<T>(arity: nat, events: Seq<(usize, T)>) -> Seq<Seq<T>>
    decreases events.len(),
{
    if events.len() == 0 {
        Seq::empty()
    } else {
        let earlier = combine_trace(arity, events.drop_last());
        let now = snapshot(arity, events);
        if all_present(now) {
            earlier.push(unwrap_all(now))
        } else {
            earlier
        }
    }
}

/// What `with_latest_from` yields: after each item of the primary stream, the latest item of
/// every stream, once every stream has yielded; items of the other streams yield nothing.
pub open spec fn with_latest_trace<T>(arity: nat, events: Seq<(usize, T)>) -> Seq<Seq<T>>
    decreases events.len(),
{
    if events.len() == 0 {
        Seq::empty()
    } else {
        let earlier = with_latest_trace(arity, events.drop_last());
        let now = snapshot(arity, events);
        if events.last().0 == primary_slot() && all_present(now) {
            earlier.push(unwrap_all(now))
        } else {
            earlier
        }
    }
}

/// An item from `slot` replaces that stream's latest item and leaves the others as they were.
pub proof fn lemma_snapshot_push<T>(arity: nat, events: Seq<(usize, T)>, slot: usize, value: T)
    requires
        slot < arity,
    ensures
        snapshot(arity, events.push((slot, value))) == snapshot(arity, events).update(
            slot as int,
            Some(value),
        ),
{
    let pushed = events.push((slot, value));
    assert(pushed.drop_last() =~= events);
    assert(snapshot(arity, pushed) =~= snapshot(arity, events).update(slot as int, Some(value)));
}

/// Before any item, no stream has yielded.
pub proof fn lemma_snapshot_empty<T>(arity: nat)
    ensures
        snapshot(arity, Seq::<(usize, T)>::empty()) == Seq::new(arity, |j: int| None::<T>),
{
    assert(snapshot(arity, Seq::<(usize, T)>::empty()) =~= Seq::new(arity, |j: int| None::<T>));
}

/// A stream has a latest item exactly when it has yielded.
pub proof fn lemma_latest_some_iff_yields<T>(events: Seq<(usize, T)>, slot: int)
    ensures
        latest_of(events, slot) is Some <==> yields_in(events, slot),
    decreases events.len(),
{
    if events.len() > 0 {
        let rest = events.drop_last();
        lemma_latest_some_iff_yields(rest, slot);
        if yields_in(events, slot) && events.last().0 != slot {
            let k = choose|k: int| 0 <= k < events.len() && #[trigger] events[k].0 == slot;
            assert(rest[k].0 == slot);
        }
        if yields_in(rest, slot) {
            let k = choose|k: int| 0 <= k < rest.len() && #[trigger] rest[k].0 == slot;
            assert(events[k].0 == slot);
        }
        if events.last().0 == slot {
            assert(events[events.len() - 1].0 == slot);
        }
    }
}

} // verus!
