//! The cache behind every combinator: the latest item of each input stream, and what each
//! combinator yields once an item has been recorded.

use vstd::prelude::*;

verus! {

/// Each output component is a clone of the corresponding latest item.
pub open spec fn clones_of<T: Clone>(items: Seq<T>, out: Seq<T>) -> bool {
    &&& out.len() == items.len()
    &&& forall|j: int| 0 <= j < items.len() ==> cloned::<T>(#[trigger] items[j], out[j])
}

/// Each output position holds a clone of the latest item where the stream has yielded, and
/// `None` where it has not.
pub open spec fn option_clones_of<T: Clone>(items: Seq<Option<T>>, out: Seq<Option<T>>) -> bool {
    &&& out.len() == items.len()
    &&& forall|j: int|
        0 <= j < items.len() ==> {
            &&& (#[trigger] out[j] is Some <==> items[j] is Some)
            &&& items[j] is Some ==> cloned::<T>(items[j].unwrap(), out[j].unwrap())
        }
}

/// Each reference points at the latest item of its stream.
pub open spec fn refs_of<T>(items: Seq<Option<T>>, out: Seq<&T>) -> bool {
    &&& out.len() == items.len()
    &&& forall|j: int| 0 <= j < items.len() ==> items[j] == Some(*#[trigger] out[j])
}

/// Each position refers to the latest item where the stream has yielded, and is `None` where
/// it has not.
pub open spec fn option_refs_of<T>(items: Seq<Option<T>>, out: Seq<Option<&T>>) -> bool {
    &&& out.len() == items.len()
    &&& forall|j: int|
        0 <= j < items.len() ==> match #[trigger] out[j] {
            Some(r) => items[j] == Some(*r),
            None => items[j] is None,
        }
}

/// The latest item of each of a fixed number of input streams; a stream that has not yielded
/// yet has no item.
pub struct LatestValues<T> {
    slots: Vec<Option<T>>,
}

impl<T> View for LatestValues<T> {
    type V = Seq<Option<T>>;

    closed spec fn view(&self) -> Seq<Option<T>> {
        self.slots@
    }
}

impl<T> LatestValues<T> {
    /// A cache for `arity` streams, none of which has yielded.
    pub fn new(arity: usize) -> (latest: Self)
        ensures
            latest@ == Seq::new(arity as nat, |j: int| None::<T>),
    {
        let mut slots: Vec<Option<T>> = Vec::new();
        let mut i: usize = 0;
        while i < arity
            invariant
                i <= arity,
                slots@ == Seq::new(i as nat, |j: int| None::<T>),
            decreases arity - i,
        {
            slots.push(None);
            i = i + 1;
            assert(slots@ =~= Seq::new(i as nat, |j: int| None::<T>));
        }
        LatestValues { slots }
    }

    /// The number of streams.
    pub fn arity(&self) -> (n: usize)
        ensures
            n == self@.len(),
    {
        self.slots.len()
    }

    /// Records that the stream in `slot` yielded `value`.
    pub fn observe(&mut self, slot: usize, value: T)
        requires
            slot < old(self)@.len(),
        ensures
            final(self)@ == old(self)@.update(slot as int, Some(value)),
    {
        self.slots.set(slot, Some(value));
    }

    /// Whether every stream has yielded at least once.
    pub fn all_present(&self) -> (b: bool)
        ensures
            b == crate::history::all_present(self@),
            b <==> (forall|j: int| 0 <= j < self@.len() ==> #[trigger] self@[j] is Some),
    {
        let mut i: usize = 0;
        while i < self.slots.len()
            invariant
                i <= self.slots@.len(),
                forall|j: int| 0 <= j < i ==> #[trigger] self.slots@[j] is Some,
            decreases self.slots@.len() - i,
        {
            if self.slots[i].is_none() {
                return false;
            }
            i = i + 1;
        }
        true
    }

    /// The latest item of the stream in `slot`, if it has yielded.
    pub fn latest(&self, slot: usize) -> (r: Option<&T>)
        requires
            slot < self@.len(),
        ensures
            match r {
                Some(v) => self@[slot as int] == Some(*v),
                None => self@[slot as int] is None,
            },
    {
        match &self.slots[slot] {
            Some(v) => Some(v),
            None => None,
        }
    }

    /// References to the latest item of every stream, once every stream has yielded.
    pub fn latest_all(&self) -> (r: Option<Vec<&T>>)
        ensures
            r is Some <==> crate::history::all_present(self@),
            r is Some <==> (forall|j: int| 0 <= j < self@.len() ==> #[trigger] self@[j] is Some),
            r matches Some(v) ==> refs_of(self@, v@),
            r matches Some(v) ==> v@.len() == self@.len() && forall|j: int|
                0 <= j < self@.len() ==> self@[j] == Some(*#[trigger] v@[j]),
    {
        let mut out: Vec<&T> = Vec::new();
        let mut i: usize = 0;
        while i < self.slots.len()
            invariant
                i <= self.slots@.len(),
                refs_of(self.slots@.take(i as int), out@),
            decreases self.slots@.len() - i,
        {
            match &self.slots[i] {
                Some(v) => {
                    out.push(v);
                },
                None => {
                    return None;
                },
            }
            i = i + 1;
        }
        assert(self.slots@.take(i as int) =~= self.slots@);
        assert forall|j: int| 0 <= j < self.slots@.len() implies #[trigger] self.slots@[j] is Some by {
            assert(self.slots@[j] == Some(*out@[j]));
        }
        Some(out)
    }

    /// A reference to the latest item of each stream, `None` where a stream has not yielded.
    pub fn latest_each(&self) -> (r: Vec<Option<&T>>)
        ensures
            option_refs_of(self@, r@),
    {
        let mut out: Vec<Option<&T>> = Vec::new();
        let mut i: usize = 0;
        while i < self.slots.len()
            invariant
                i <= self.slots@.len(),
                option_refs_of(self.slots@.take(i as int), out@),
            decreases self.slots@.len() - i,
        {
            match &self.slots[i] {
                Some(v) => {
                    out.push(Some(v));
                },
                None => {
                    out.push(None);
                },
            }
            i = i + 1;
        }
        assert(self.slots@.take(i as int) =~= self.slots@);
        out
    }

    /// What `with_latest_from` hands on after an item from `slot` was recorded: references to
    /// the latest item of every stream, when the item came from the primary stream and every
    /// stream has yielded; otherwise nothing.
    pub fn latest_on_primary(&self, slot: usize) -> (r: Option<Vec<&T>>)
        ensures
            r is Some <==> (slot == crate::history::primary_slot() && crate::history::all_present(
                self@,
            )),
            r is Some <==> (slot == 0 && forall|j: int| 0 <= j < self@.len() ==> #[trigger] self@[j] is Some),
            r matches Some(v) ==> refs_of(self@, v@),
            r matches Some(v) ==> v@.len() == self@.len() && forall|j: int|
                0 <= j < self@.len() ==> self@[j] == Some(*#[trigger] v@[j]),
    {
        if slot == 0 {
            self.latest_all()
        } else {
            None
        }
    }
}

impl<T: Clone> LatestValues<T> {
    /// Clones of the latest item of every stream, once every stream has yielded.
    pub fn combined(&self) -> (r: Option<Vec<T>>)
        ensures
            r is Some <==> crate::history::all_present(self@),
            r is Some <==> (forall|j: int| 0 <= j < self@.len() ==> #[trigger] self@[j] is Some),
            r matches Some(v) ==> clones_of(crate::history::unwrap_all(self@), v@),
            r matches Some(v) ==> v@.len() == self@.len() && forall|j: int|
                0 <= j < self@.len() ==> cloned::<T>(self@[j].unwrap(), #[trigger] v@[j]),
    {
        let mut out: Vec<T> = Vec::new();
        let mut i: usize = 0;
        while i < self.slots.len()
            invariant
                i <= self.slots@.len(),
                forall|j: int| 0 <= j < i ==> #[trigger] self.slots@[j] is Some,
                out@.len() == i,
                forall|j: int|
                    0 <= j < i ==> cloned::<T>(self.slots@[j].unwrap(), #[trigger] out@[j]),
            decreases self.slots@.len() - i,
        {
            match &self.slots[i] {
                Some(v) => {
                    let c = v.clone();
                    out.push(c);
                },
                None => {
                    return None;
                },
            }
            i = i + 1;
        }
        assert forall|j: int| 0 <= j < self@.len() implies cloned::<T>(
            #[trigger] crate::history::unwrap_all(self@)[j],
            out@[j],
        ) by {
            assert(crate::history::unwrap_all(self@)[j] == self@[j].unwrap());
        }
        Some(out)
    }

    /// A clone of the latest item of each stream, `None` where a stream has not yielded.
    pub fn combined_each(&self) -> (r: Vec<Option<T>>)
        ensures
            option_clones_of(self@, r@),
    {
        let mut out: Vec<Option<T>> = Vec::new();
        let mut i: usize = 0;
        while i < self.slots.len()
            invariant
                i <= self.slots@.len(),
                option_clones_of(self.slots@.take(i as int), out@),
            decreases self.slots@.len() - i,
        {
            match &self.slots[i] {
                Some(v) => {
                    let c = v.clone();
                    out.push(Some(c));
                },
                None => {
                    out.push(None);
                },
            }
            i = i + 1;
        }
        assert(self.slots@.take(i as int) =~= self.slots@);
        out
    }

    /// `combine_latest` after an item: records that the stream in `slot` yielded `value`, then
    /// yields the latest item of every stream once every stream has yielded.
    pub fn combine_latest_step(&mut self, slot: usize, value: T) -> (r: Option<Vec<T>>)
        requires
            slot < old(self)@.len(),
        ensures
            final(self)@ == old(self)@.update(slot as int, Some(value)),
            r is Some <==> crate::history::all_present(final(self)@),
            r is Some <==> (forall|j: int| 0 <= j < final(self)@.len() ==> #[trigger] final(self)@[j] is Some),
            r matches Some(v) ==> clones_of(crate::history::unwrap_all(final(self)@), v@),
            r matches Some(v) ==> v@.len() == final(self)@.len() && forall|j: int|
                0 <= j < final(self)@.len() ==> cloned::<T>(final(self)@[j].unwrap(), #[trigger] v@[j]),
    {
        self.observe(slot, value);
        self.combined()
    }

    /// `combine_latest_opt` after an item: records that the stream in `slot` yielded `value`,
    /// then yields the latest item of each stream, `None` for those that have not yielded.
    pub fn combine_latest_opt_step(&mut self, slot: usize, value: T) -> (r: Vec<Option<T>>)
        requires
            slot < old(self)@.len(),
        ensures
            final(self)@ == old(self)@.update(slot as int, Some(value)),
            option_clones_of(final(self)@, r@),
    {
        self.observe(slot, value);
        self.combined_each()
    }

    /// `with_latest_from` after an item: records that the stream in `slot` yielded `value`,
    /// then yields the latest item of every stream when the item came from the primary stream
    /// and every stream has yielded; an item of another stream only updates the cache.
    pub fn with_latest_from_step(&mut self, slot: usize, value: T) -> (r: Option<Vec<T>>)
        requires
            slot < old(self)@.len(),
        ensures
            final(self)@ == old(self)@.update(slot as int, Some(value)),
            r is Some <==> (slot == crate::history::primary_slot()
                && crate::history::all_present(final(self)@)),
            r is Some <==> (slot == 0 && forall|j: int| 0 <= j < final(self)@.len() ==> #[trigger] final(self)@[j] is Some),
            r matches Some(v) ==> clones_of(crate::history::unwrap_all(final(self)@), v@),
            r matches Some(v) ==> v@.len() == final(self)@.len() && forall|j: int|
                0 <= j < final(self)@.len() ==> cloned::<T>(final(self)@[j].unwrap(), #[trigger] v@[j]),
    {
        self.observe(slot, value);
        if slot == 0 {
            self.combined()
        } else {
            None
        }
    }
}

} // verus!
