//! The combinators replayed over a finite history: given the items in the order in which the
//! merged input streams delivered them, what each combinator yields.

use vstd::prelude::*;
use crate::history::{
    combine_trace, lemma_snapshot_empty, lemma_snapshot_push, opt_trace, slots_in_range, snapshot,
    with_latest_trace,
};
use crate::latest::{clones_of, option_clones_of, LatestValues};

verus! {

/// The items that `combine_latest` yields for the history `events` of `arity` streams.
pub fn replay_combine_latest<T: Clone>(arity: usize, events: Vec<(usize, T)>) -> (out: Vec<Vec<T>>)
    requires
        slots_in_range(arity as nat, events@),
    ensures
        out@.len() == combine_trace(arity as nat, events@).len(),
        forall|k: int|
            0 <= k < out@.len() ==> clones_of(
                combine_trace(arity as nat, events@)[k],
                #[trigger] out@[k]@,
            ),
{
    let ghost all = events@;
    let mut latest: LatestValues<T> = LatestValues::new(arity);
    let mut out: Vec<Vec<T>> = Vec::new();
    proof {
        lemma_snapshot_empty::<T>(arity as nat);
        assert(all.take(0) =~= Seq::<(usize, T)>::empty());
    }
    for ev in it: events.into_iter()
        invariant
            it.seq() == all,
            slots_in_range(arity as nat, all),
            latest@ == snapshot(arity as nat, all.take(it.index())),
            out@.len() == combine_trace(arity as nat, all.take(it.index())).len(),
            forall|k: int|
                0 <= k < out@.len() ==> clones_of(
                    combine_trace(arity as nat, all.take(it.index()))[k],
                    #[trigger] out@[k]@,
                ),
    {
        let ghost i = it.index();
        let (slot, value) = ev;
        proof {
            assert(all[i].0 < arity);
            let prefix = all.take(i);
            assert(all.take(i + 1) =~= prefix.push((slot, value)));
            assert(all.take(i + 1).drop_last() =~= prefix);
            lemma_snapshot_push(arity as nat, prefix, slot, value);
        }
        match latest.combine_latest_step(slot, value) {
            Some(v) => {
                out.push(v);
            },
            None => {},
        }
    }
    proof {
        assert(all.take(all.len() as int) =~= all);
    }
    out
}

/// The items that `combine_latest_opt` yields for the history `events` of `arity` streams:
/// one per item of the history.
pub fn replay_combine_latest_opt<T: Clone>(arity: usize, events: Vec<(usize, T)>) -> (out: Vec<
    Vec<Option<T>>,
>)
    requires
        slots_in_range(arity as nat, events@),
    ensures
        out@.len() == events@.len(),
        out@.len() == opt_trace(arity as nat, events@).len(),
        forall|k: int|
            0 <= k < out@.len() ==> option_clones_of(
                opt_trace(arity as nat, events@)[k],
                #[trigger] out@[k]@,
            ),
{
    let ghost all = events@;
    let mut latest: LatestValues<T> = LatestValues::new(arity);
    let mut out: Vec<Vec<Option<T>>> = Vec::new();
    proof {
        lemma_snapshot_empty::<T>(arity as nat);
        assert(all.take(0) =~= Seq::<(usize, T)>::empty());
    }
    for ev in it: events.into_iter()
        invariant
            it.seq() == all,
            slots_in_range(arity as nat, all),
            latest@ == snapshot(arity as nat, all.take(it.index())),
            out@.len() == it.index(),
            forall|k: int|
                0 <= k < out@.len() ==> option_clones_of(
                    opt_trace(arity as nat, all)[k],
                    #[trigger] out@[k]@,
                ),
    {
        let ghost i = it.index();
        let (slot, value) = ev;
        proof {
            assert(all[i].0 < arity);
            let prefix = all.take(i);
            assert(all.take(i + 1) =~= prefix.push((slot, value)));
            lemma_snapshot_push(arity as nat, prefix, slot, value);
        }
        let row = latest.combine_latest_opt_step(slot, value);
        out.push(row);
    }
    out
}

/// The items that `with_latest_from` yields for the history `events` of `arity` streams, the
/// stream in slot 0 being the primary one.
pub fn replay_with_latest_from<T: Clone>(arity: usize, events: Vec<(usize, T)>) -> (out: Vec<
    Vec<T>,
>)
    requires
        slots_in_range(arity as nat, events@),
    ensures
        out@.len() == with_latest_trace(arity as nat, events@).len(),
        forall|k: int|
            0 <= k < out@.len() ==> clones_of(
                with_latest_trace(arity as nat, events@)[k],
                #[trigger] out@[k]@,
            ),
{
    let ghost all = events@;
    let mut latest: LatestValues<T> = LatestValues::new(arity);
    let mut out: Vec<Vec<T>> = Vec::new();
    proof {
        lemma_snapshot_empty::<T>(arity as nat);
        assert(all.take(0) =~= Seq::<(usize, T)>::empty());
    }
    for ev in it: events.into_iter()
        invariant
            it.seq() == all,
            slots_in_range(arity as nat, all),
            latest@ == snapshot(arity as nat, all.take(it.index())),
            out@.len() == with_latest_trace(arity as nat, all.take(it.index())).len(),
            forall|k: int|
                0 <= k < out@.len() ==> clones_of(
                    with_latest_trace(arity as nat, all.take(it.index()))[k],
                    #[trigger] out@[k]@,
                ),
    {
        let ghost i = it.index();
        let (slot, value) = ev;
        proof {
            assert(all[i].0 < arity);
            let prefix = all.take(i);
            assert(all.take(i + 1) =~= prefix.push((slot, value)));
            assert(all.take(i + 1).drop_last() =~= prefix);
            lemma_snapshot_push(arity as nat, prefix, slot, value);
        }
        match latest.with_latest_from_step(slot, value) {
            Some(v) => {
                out.push(v);
            },
            None => {},
        }
    }
    proof {
        assert(all.take(all.len() as int) =~= all);
    }
    out
}

} // verus!
