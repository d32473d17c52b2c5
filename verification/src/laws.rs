//! Laws of the combinators over any history of items.

use vstd::prelude::*;
use crate::history::{
    all_present, combine_trace, lemma_latest_some_iff_yields, latest_of, opt_trace,
    primary_slot, snapshot, unwrap_all, with_latest_trace, yields_in,
};
use crate::latest::{clones_of, option_clones_of, option_refs_of, refs_of};

verus! {

/// What `combine_latest` keeps of a snapshot: the items, when every stream has yielded.
pub open spec fn complete_items<T>(s: Seq<Option<T>>) -> Option<Seq<T>> {
    if all_present(s) {
        Some(unwrap_all(s))
    } else {
        None
    }
}

/// What `with_latest_from` keeps of an item's slot and the snapshot after it: the items, when
/// the item came from the primary stream and every stream has yielded.
pub open spec fn primary_complete_items<T>(p: (usize, Seq<Option<T>>)) -> Option<Seq<T>> {
    if p.0 == primary_slot() && all_present(p.1) {
        Some(unwrap_all(p.1))
    } else {
        None
    }
}

/// Each item of the history paired with the snapshot taken right after it.
pub open spec fn slots_with_snapshots<T>(arity: nat, events: Seq<(usize, T)>) -> Seq<
    (usize, Seq<Option<T>>),
> {
    Seq::new(events.len(), |k: int| (events[k].0, opt_trace(arity, events)[k]))
}

proof fn lemma_opt_trace_push<T>(arity: nat, events: Seq<(usize, T)>)
    requires
        events.len() > 0,
    ensures
        opt_trace(arity, events) == opt_trace(arity, events.drop_last()).push(
            snapshot(arity, events),
        ),
{
    let rest = events.drop_last();
    assert forall|k: int| 0 <= k < rest.len() implies #[trigger] rest.take(k + 1) == events.take(
        k + 1,
    ) by {
        assert(rest.take(k + 1) =~= events.take(k + 1));
    }
    assert(events.take(events.len() as int) =~= events);
    assert(opt_trace(arity, events) =~= opt_trace(arity, rest).push(snapshot(arity, events)));
}

/// `combine_latest` yields exactly what `combine_latest_opt` yields, keeping only the tuples in
/// which every stream has yielded, with the items unwrapped.
pub proof fn law_combine_latest_is_complete_opt<T>(arity: nat, events: Seq<(usize, T)>)
    ensures
        combine_trace(arity, events) == opt_trace(arity, events).filter_map(
            |s: Seq<Option<T>>| complete_items(s),
        ),
    decreases events.len(),
{
    if events.len() == 0 {
        assert(opt_trace(arity, events) =~= Seq::<Seq<Option<T>>>::empty());
    } else {
        let rest = events.drop_last();
        law_combine_latest_is_complete_opt(arity, rest);
        lemma_opt_trace_push(arity, events);
        let f = |s: Seq<Option<T>>| complete_items(s);
        let ot = opt_trace(arity, events);
        assert(ot.drop_last() =~= opt_trace(arity, rest));
        assert(ot.last() == snapshot(arity, events));
        if all_present(snapshot(arity, events)) {
            assert(ot.filter_map(f) =~= opt_trace(arity, rest).filter_map(f) + seq![
                unwrap_all(snapshot(arity, events)),
            ]);
        }
    }
}

proof fn lemma_slots_with_snapshots_push<T>(arity: nat, events: Seq<(usize, T)>)
    requires
        events.len() > 0,
    ensures
        slots_with_snapshots(arity, events) == slots_with_snapshots(
            arity,
            events.drop_last(),
        ).push((events.last().0, snapshot(arity, events))),
{
    lemma_opt_trace_push(arity, events);
    let rest = events.drop_last();
    assert(slots_with_snapshots(arity, events) =~= slots_with_snapshots(arity, rest).push(
        (events.last().0, snapshot(arity, events)),
    ));
}

/// `with_latest_from` yields, for each item of the primary stream after which every stream has
/// yielded, the tuple that `combine_latest_opt` yields for that item, unwrapped; items of the
/// other streams yield nothing.
pub proof fn law_with_latest_from_is_primary_complete_opt<T>(
    arity: nat,
    events: Seq<(usize, T)>,
)
    ensures
        with_latest_trace(arity, events) == slots_with_snapshots(arity, events).filter_map(
            |p: (usize, Seq<Option<T>>)| primary_complete_items(p),
        ),
    decreases events.len(),
{
    if events.len() == 0 {
        assert(slots_with_snapshots(arity, events) =~= Seq::<(usize, Seq<Option<T>>)>::empty());
    } else {
        let rest = events.drop_last();
        law_with_latest_from_is_primary_complete_opt(arity, rest);
        lemma_slots_with_snapshots_push(arity, events);
        let f = |p: (usize, Seq<Option<T>>)| primary_complete_items(p);
        let zs = slots_with_snapshots(arity, events);
        assert(zs.drop_last() =~= slots_with_snapshots(arity, rest));
        if events.last().0 == primary_slot() && all_present(snapshot(arity, events)) {
            assert(zs.filter_map(f) =~= slots_with_snapshots(arity, rest).filter_map(f) + seq![
                unwrap_all(snapshot(arity, events)),
            ]);
        }
    }
}

proof fn lemma_yields_in_prefix<T>(events: Seq<(usize, T)>, slot: int, n: int, m: int)
    requires
        0 <= n <= m <= events.len(),
        yields_in(events.take(n), slot),
    ensures
        yields_in(events.take(m), slot),
{
    let k = choose|k: int| 0 <= k < events.take(n).len() && #[trigger] events.take(n)[k].0 == slot;
    assert(events.take(m)[k].0 == slot);
}

/// Once every stream has yielded, every stream stays present in all later snapshots: from the
/// first tuple that `combine_latest` yields on, it yields a tuple for every item.
pub proof fn law_all_present_persists<T>(
    arity: nat,
    events: Seq<(usize, T)>,
    earlier: int,
    later: int,
)
    requires
        0 <= earlier <= later < events.len(),
        all_present(opt_trace(arity, events)[earlier]),
    ensures
        all_present(opt_trace(arity, events)[later]),
{
    assert forall|j: int| 0 <= j < arity implies #[trigger] opt_trace(arity, events)[later][j] is Some by {
        assert(opt_trace(arity, events)[earlier][j] is Some);
        lemma_latest_some_iff_yields(events.take(earlier + 1), j);
        lemma_yields_in_prefix(events, j, earlier + 1, later + 1);
        lemma_latest_some_iff_yields(events.take(later + 1), j);
    }
}

/// After every stream has yielded, `combine_latest` yields one tuple for each further item.
pub proof fn law_combine_latest_yields_per_item_once_complete<T>(
    arity: nat,
    before: Seq<(usize, T)>,
    after: Seq<(usize, T)>,
)
    requires
        all_present(snapshot(arity, before)),
    ensures
        combine_trace(arity, before + after).len() == combine_trace(arity, before).len()
            + after.len(),
    decreases after.len(),
{
    if after.len() == 0 {
        assert(before + after =~= before);
    } else {
        let shorter = after.drop_last();
        law_combine_latest_yields_per_item_once_complete(arity, before, shorter);
        let all = before + after;
        assert(all.drop_last() =~= before + shorter);
        assert forall|j: int| 0 <= j < arity implies #[trigger] snapshot(arity, all)[j] is Some by {
            assert(snapshot(arity, before)[j] is Some);
            lemma_latest_some_iff_yields(before, j);
            let k = choose|k: int| 0 <= k < before.len() && #[trigger] before[k].0 == j;
            assert(all[k].0 == j);
            lemma_latest_some_iff_yields(all, j);
        }
    }
}

/// While some stream has not yielded, neither `combine_latest` nor `with_latest_from` yields
/// anything.
pub proof fn law_silent_stream_blocks_output<T>(arity: nat, events: Seq<(usize, T)>, slot: int)
    requires
        0 <= slot < arity,
        !yields_in(events, slot),
    ensures
        combine_trace(arity, events).len() == 0,
        with_latest_trace(arity, events).len() == 0,
    decreases events.len(),
{
    if events.len() > 0 {
        let rest = events.drop_last();
        if yields_in(rest, slot) {
            let k = choose|k: int| 0 <= k < rest.len() && #[trigger] rest[k].0 == slot;
            assert(events[k].0 == slot);
        }
        law_silent_stream_blocks_output(arity, rest, slot);
        lemma_latest_some_iff_yields(events, slot);
        assert(snapshot(arity, events)[slot] is None);
    }
}

/// `combine_latest_opt` yields one tuple per item, and in it the stream that just yielded holds
/// that item.
pub proof fn law_combine_latest_opt_yields_every_item<T>(
    arity: nat,
    events: Seq<(usize, T)>,
    k: int,
)
    requires
        0 <= k < events.len(),
        events[k].0 < arity,
    ensures
        opt_trace(arity, events).len() == events.len(),
        opt_trace(arity, events)[k][events[k].0 as int] == Some(events[k].1),
{
    let prefix = events.take(k + 1);
    assert(prefix.last() == events[k]);
    assert(latest_of(prefix, events[k].0 as int) == Some(events[k].1));
}


/// The primary stream of `with_latest_from` is the first one.
pub proof fn law_primary_is_first()
    ensures
        primary_slot() == 0,
{
}

/// Before any item no stream has a latest item; after an item of stream `slot`, that stream's
/// latest item is the new one and every other stream keeps its latest item.
pub proof fn law_latest_of_push<T>(events: Seq<(usize, T)>, slot: usize, value: T, other: int)
    ensures
        latest_of(Seq::<(usize, T)>::empty(), other) is None,
        latest_of(events.push((slot, value)), slot as int) == Some(value),
        other != slot ==> latest_of(events.push((slot, value)), other) == latest_of(events, other),
{
    assert(events.push((slot, value)).drop_last() =~= events);
}

/// A snapshot lists, for each of the streams, the item it yielded last.
pub proof fn law_snapshot_is_latest_of_each<T>(arity: nat, events: Seq<(usize, T)>, j: int)
    requires
        0 <= j < arity,
    ensures
        snapshot(arity, events).len() == arity,
        snapshot(arity, events)[j] == latest_of(events, j),
{
}

/// Every stream has yielded exactly when each position of the snapshot holds an item.
pub proof fn law_all_present_iff_every_position<T>(s: Seq<Option<T>>)
    ensures
        all_present(s) <==> (forall|j: int| 0 <= j < s.len() ==> #[trigger] s[j] is Some),
{
}

/// Unwrapping a complete snapshot keeps each position's item in place.
pub proof fn law_unwrap_all_keeps_positions<T>(s: Seq<Option<T>>, j: int)
    requires
        0 <= j < s.len(),
    ensures
        unwrap_all(s).len() == s.len(),
        unwrap_all(s)[j] == s[j].unwrap(),
{
}

/// The relations between cached items and handed-out items mean what their names say.
pub proof fn law_output_relations<T: Clone>(
    items: Seq<T>,
    out: Seq<T>,
    opt_items: Seq<Option<T>>,
    opt_out: Seq<Option<T>>,
    refs: Seq<&T>,
    opt_refs: Seq<Option<&T>>,
)
    ensures
        clones_of(items, out) <==> (out.len() == items.len() && forall|j: int|
            0 <= j < items.len() ==> cloned::<T>(#[trigger] items[j], out[j])),
        option_clones_of(opt_items, opt_out) <==> (opt_out.len() == opt_items.len() && forall|j: int|
            0 <= j < opt_items.len() ==> ((#[trigger] opt_out[j] is Some <==> opt_items[j] is Some)
                && (opt_items[j] is Some ==> cloned::<T>(opt_items[j].unwrap(), opt_out[j].unwrap())))),
        refs_of(opt_items, refs) <==> (refs.len() == opt_items.len() && forall|j: int|
            0 <= j < opt_items.len() ==> opt_items[j] == Some(*#[trigger] refs[j])),
        option_refs_of(opt_items, opt_refs) <==> (opt_refs.len() == opt_items.len() && forall|j: int|
            0 <= j < opt_items.len() ==> (#[trigger] opt_refs[j] is Some <==> opt_items[j] is Some)
                && (opt_items[j] is Some ==> opt_items[j] == Some(*opt_refs[j].unwrap()))),
{
    if option_refs_of(opt_items, opt_refs) {
        assert forall|j: int| 0 <= j < opt_items.len() implies (#[trigger] opt_refs[j] is Some
            <==> opt_items[j] is Some) && (opt_items[j] is Some ==> opt_items[j] == Some(
            *opt_refs[j].unwrap(),
        )) by {
            match opt_refs[j] {
                Some(r) => {},
                None => {},
            }
        }
    }
    if opt_refs.len() == opt_items.len() && forall|j: int|
        0 <= j < opt_items.len() ==> (#[trigger] opt_refs[j] is Some <==> opt_items[j] is Some)
            && (opt_items[j] is Some ==> opt_items[j] == Some(*opt_refs[j].unwrap())) {
        assert forall|j: int| 0 <= j < opt_items.len() implies match #[trigger] opt_refs[j] {
            Some(r) => opt_items[j] == Some(*r),
            None => opt_items[j] is None,
        } by {
            match opt_refs[j] {
                Some(r) => {},
                None => {},
            }
        }
    }
}

/// Once every stream has yielded, the snapshot holds an item for each of them.
pub proof fn law_every_stream_yielded_completes<T>(arity: nat, events: Seq<(usize, T)>)
    ensures
        (forall|j: int| 0 <= j < arity ==> #[trigger] yields_in(events, j)) <==> all_present(
            snapshot(arity, events),
        ),
        (forall|j: int| 0 <= j < arity ==> #[trigger] yields_in(events, j)) <==> (forall|j: int|
            0 <= j < arity ==> #[trigger] latest_of(events, j) is Some),
{
    assert forall|j: int| 0 <= j < arity implies #[trigger] yields_in(events, j) <==> latest_of(
        events,
        j,
    ) is Some by {
        lemma_latest_some_iff_yields(events, j);
    }
    if forall|j: int| 0 <= j < arity ==> #[trigger] yields_in(events, j) {
        assert forall|j: int| 0 <= j < arity implies #[trigger] snapshot(arity, events)[j] is Some by {
            assert(yields_in(events, j));
        }
    }
    if all_present(snapshot(arity, events)) {
        assert forall|j: int| 0 <= j < arity implies #[trigger] yields_in(events, j) by {
            assert(snapshot(arity, events)[j] is Some);
        }
    }
    if forall|j: int| 0 <= j < arity ==> #[trigger] latest_of(events, j) is Some {
        assert forall|j: int| 0 <= j < arity implies #[trigger] yields_in(events, j) by {
            assert(latest_of(events, j) is Some);
        }
    }
    if forall|j: int| 0 <= j < arity ==> #[trigger] yields_in(events, j) {
        assert forall|j: int| 0 <= j < arity implies #[trigger] latest_of(events, j) is Some by {
            assert(yields_in(events, j));
        }
    }
}

/// The tuple of the latest item of each stream, once every stream has yielded.
pub open spec fn latest_tuple<T>(arity: nat, events: Seq<(usize, T)>) -> Seq<T> {
    Seq::new(arity, |j: int| latest_of(events, j).unwrap())
}

/// `combine_latest_opt` yields, for each item, the latest item (or none) of every stream up to
/// and including that item.
pub proof fn law_combine_latest_opt_entries<T>(
    arity: nat,
    events: Seq<(usize, T)>,
    k: int,
    j: int,
)
    requires
        0 <= k < events.len(),
        0 <= j < arity,
    ensures
        opt_trace(arity, events).len() == events.len(),
        opt_trace(arity, events)[k].len() == arity,
        opt_trace(arity, events)[k][j] == latest_of(events.take(k + 1), j),
{
}

/// What `combine_latest` yields for an empty history and after one more item: nothing at all
/// at first; after an item, one more tuple, of the latest item of each stream in its own
/// position, exactly when every stream has yielded by then, and nothing more otherwise.
pub proof fn law_combine_latest_step<T>(
    arity: nat,
    events: Seq<(usize, T)>,
    slot: usize,
    value: T,
)
    ensures
        combine_trace(arity, Seq::<(usize, T)>::empty()) == Seq::<Seq<T>>::empty(),
        combine_trace(arity, events.push((slot, value))) == if (forall|j: int|
            0 <= j < arity ==> #[trigger] yields_in(events.push((slot, value)), j)) {
            combine_trace(arity, events).push(latest_tuple(arity, events.push((slot, value))))
        } else {
            combine_trace(arity, events)
        },
{
    let after = events.push((slot, value));
    assert(after.drop_last() =~= events);
    law_every_stream_yielded_completes(arity, after);
    assert(unwrap_all(snapshot(arity, after)) =~= latest_tuple(arity, after));
}

/// Each component of the tuple that `combine_latest` yields after the last item is the latest
/// item of the stream in that position, once every stream has yielded.
pub proof fn law_combine_latest_last_is_latest<T>(arity: nat, events: Seq<(usize, T)>, j: int)
    requires
        events.len() > 0,
        forall|i: int| 0 <= i < arity ==> #[trigger] yields_in(events, i),
        0 <= j < arity,
    ensures
        combine_trace(arity, events).len() > 0,
        combine_trace(arity, events).last().len() == arity,
        combine_trace(arity, events).last()[j] == latest_of(events, j).unwrap(),
{
    let rest = events.drop_last();
    assert(rest.push(events.last()) =~= events);
    law_combine_latest_step(arity, rest, events.last().0, events.last().1);
}

/// What `with_latest_from` yields for an empty history and after one more item: nothing at all
/// at first; after an item of the first stream, one more tuple, of the latest item of each
/// stream in its own position, exactly when every stream has yielded by then; after an item of
/// any other stream, nothing more.
pub proof fn law_with_latest_from_step<T>(
    arity: nat,
    events: Seq<(usize, T)>,
    slot: usize,
    value: T,
)
    ensures
        with_latest_trace(arity, Seq::<(usize, T)>::empty()) == Seq::<Seq<T>>::empty(),
        with_latest_trace(arity, events.push((slot, value))) == if slot == 0 && (forall|j: int|
            0 <= j < arity ==> #[trigger] yields_in(events.push((slot, value)), j)) {
            with_latest_trace(arity, events).push(latest_tuple(arity, events.push((slot, value))))
        } else {
            with_latest_trace(arity, events)
        },
{
    let after = events.push((slot, value));
    assert(after.drop_last() =~= events);
    law_every_stream_yielded_completes(arity, after);
    assert(unwrap_all(snapshot(arity, after)) =~= latest_tuple(arity, after));
}

/// An item of a stream other than the first adds nothing to what `with_latest_from` yields.
pub proof fn law_secondary_item_yields_nothing<T>(
    arity: nat,
    events: Seq<(usize, T)>,
    slot: usize,
    value: T,
)
    requires
        slot != 0,
    ensures
        with_latest_trace(arity, events.push((slot, value))) == with_latest_trace(arity, events),
{
    law_with_latest_from_step(arity, events, slot, value);
}

/// `with_latest_from` yields at most one tuple per item of the first stream.
pub proof fn law_with_latest_from_at_most_primary_items<T>(arity: nat, events: Seq<(usize, T)>)
    ensures
        with_latest_trace(arity, events).len() <= events.filter(|e: (usize, T)| e.0 == 0).len(),
    decreases events.len(),
{
    if events.len() > 0 {
        let rest = events.drop_last();
        law_with_latest_from_at_most_primary_items(arity, rest);
        assert(rest.push(events.last()) =~= events);
        rest.lemma_filter_push(events.last(), |e: (usize, T)| e.0 == 0);
        law_with_latest_from_step(arity, rest, events.last().0, events.last().1);
    }
}

/// Each component of the tuple that `with_latest_from` yields after an item of the first stream
/// is the latest item of the stream in that position, once every stream has yielded; the first
/// component is that item.
pub proof fn law_with_latest_from_last_is_latest<T>(
    arity: nat,
    events: Seq<(usize, T)>,
    value: T,
    j: int,
)
    requires
        forall|i: int| 0 <= i < arity ==> #[trigger] yields_in(events.push((0usize, value)), i),
        0 <= j < arity,
    ensures
        with_latest_trace(arity, events.push((0usize, value))).len() == with_latest_trace(
            arity,
            events,
        ).len() + 1,
        with_latest_trace(arity, events.push((0usize, value))).last()[j] == latest_of(
            events.push((0usize, value)),
            j,
        ).unwrap(),
        with_latest_trace(arity, events.push((0usize, value))).last()[0] == value,
{
    law_with_latest_from_step(arity, events, 0usize, value);
    law_latest_of_push(events, 0usize, value, j);
}

} // verus!
