//! A sampler over an ordered list of items that hands out nested subsets
//! ("levels of detail") of increasing density.
//!
//! The sampler owns the full list and the index set of the current level.
//! Refining it yields a new sampler over the same items whose level holds
//! every index of the old one, so what was fetched for a coarse level stays
//! valid for all finer ones.

use crate::lod_levels::ascending_below;
use crate::lod_levels::first_level;
use crate::lod_levels::first_level_of;
use crate::lod_levels::lemma_first_level_spans;
use crate::lod_levels::lemma_refine_ascending;
use crate::lod_levels::lemma_refine_grows;
use crate::lod_levels::lemma_refine_keeps;
use crate::lod_levels::level_sizes;
use crate::lod_levels::refine;
use crate::lod_levels::refine_of;
use crate::lod_levels::spans;
use crate::natural_order::alphanumeric_order;
use crate::natural_order::key_views;
use crate::natural_order::sort_str_slice;
use vstd::prelude::*;

verus! {

/// Every item of `b` is a clone of the item of `a` at the same position.
pub open spec fn clones_of<T: Clone>(a: Seq<T>, b: Seq<T>) -> bool {
    &&& a.len() == b.len()
    &&& forall|i: int| 0 <= i < a.len() ==> cloned::<T>(#[trigger] a[i], b[i])
}

/// The sampler: the items, the indices of the current level, a cursor into
/// those indices, and the size asked of the first level.
#[derive(Debug, PartialEq)]
pub struct MidpointIterator<T> where T: Clone {
    inner: Vec<T>,
    indices: Vec<usize>,
    current_index: usize,
    first_lod: usize,
}

impl<T> MidpointIterator<T> where T: Clone {
    /// The full list of items.
    pub closed spec fn items(&self) -> Seq<T> {
        self.inner@
    }

    /// The indices of the current level, as positions in `items`.
    pub closed spec fn level(&self) -> Seq<usize> {
        self.indices@
    }

    /// The position in `level` of the item that `next` yields.
    pub closed spec fn cursor(&self) -> usize {
        self.current_index
    }

    /// The size asked of the first level.
    pub closed spec fn target_count(&self) -> usize {
        self.first_lod
    }

    /// The level is strictly ascending and points into the items. This holds
    /// of every sampler at all times.
    #[verifier::type_invariant]
    pub closed spec fn wf(&self) -> bool {
        ascending_below(self.indices@, self.inner@.len())
    }

    /// What well-formedness means in terms of the level and the items.
    pub proof fn lemma_wf(self)
        ensures
            self.wf() == ascending_below(self.level(), self.items().len()),
    {
    }

    /// The level reaches from the first item to the last. `new` and
    /// `initialize` establish this and refinements keep it; `push` and
    /// `clear_indices` give it up until the next `initialize`.
    pub open spec fn covers(&self) -> bool {
        spans(self.level(), self.items().len())
    }

    /// A sampler over `inner` whose first level aims at `first_lod` items.
    pub fn new(inner: Vec<T>, first_lod: usize) -> (me: Self)
        ensures
            me.items() == inner@,
            me.level() == first_level(inner@.len(), first_lod as nat),
            me.cursor() == 0,
            me.target_count() == first_lod,
            me.wf(),
            me.covers(),
    {
        let mut me = Self { inner, indices: Vec::new(), current_index: 0, first_lod };
        me.initialize();
        me
    }

    /// Empties the level and keeps the items.
    pub fn clear_indices(&mut self)
        ensures
            final(self).level() == Seq::<usize>::empty(),
            final(self).items() == old(self).items(),
            final(self).cursor() == old(self).cursor(),
            final(self).target_count() == old(self).target_count(),
            final(self).wf(),
    {
        self.indices = Vec::new();
    }

    /// Empties the level and the items.
    pub fn clear(&mut self)
        ensures
            final(self).level() == Seq::<usize>::empty(),
            final(self).items() == Seq::<T>::empty(),
            final(self).cursor() == old(self).cursor(),
            final(self).target_count() == old(self).target_count(),
            final(self).wf(),
            final(self).covers(),
    {
        self.clear_indices();
        self.inner = Vec::new();
    }

    /// Sets the level to the first level over the items as they are now.
    pub fn initialize(&mut self)
        ensures
            final(self).level() == first_level(
                old(self).items().len(),
                old(self).target_count() as nat,
            ),
            final(self).items() == old(self).items(),
            final(self).cursor() == old(self).cursor(),
            final(self).target_count() == old(self).target_count(),
            final(self).wf(),
            final(self).covers(),
    {
        let indices = first_level_of(self.inner.len(), self.first_lod);
        proof {
            lemma_first_level_spans(self.inner@.len(), self.first_lod as nat);
        }
        self.indices = indices;
    }

    /// The refinement of `from`: a sampler over clones of the same items
    /// whose level is `refine` of the level of `from`, with the cursor on the
    /// same item as before (on the first where it was past the end).
    pub fn next_lod_from_midpoint_iterator(from: &MidpointIterator<T>) -> (next: Option<
        MidpointIterator<T>,
    >)
        ensures
            next.is_some(),
            next.unwrap().is_refinement_of(from),
    {
        proof {
            use_type_invariant(from);
            lemma_refine_ascending(from.indices@, from.inner@.len());
        }
        let (new_indices, new_index) = refine_of(&from.indices, from.current_index);
        Some(
            MidpointIterator {
                inner: from.inner.clone(),
                indices: new_indices,
                current_index: new_index,
                first_lod: from.first_lod,
            },
        )
    }

    /// What `next_lod` hands out for `from`.
    pub open spec fn is_refinement_of(&self, from: &MidpointIterator<T>) -> bool {
        &&& self.level() == refine(from.level())
        &&& clones_of(from.items(), self.items())
        &&& self.target_count() == from.target_count()
        &&& self.wf()
        &&& from.covers() ==> self.covers()
        &&& if from.cursor() < from.level().len() {
            self.cursor() < self.level().len() && self.level()[self.cursor() as int]
                == from.level()[from.cursor() as int]
        } else {
            self.cursor() == 0
        }
    }

    /// The sizes of all levels from the current one to the one that holds
    /// every item, in order; none where the level is empty.
    pub open spec fn lod_sizes(&self) -> Seq<nat> {
        if self.level().len() == 0 {
            Seq::empty()
        } else {
            level_sizes(self.level(), self.items().len())
        }
    }

    /// Computes `lod_sizes`: the size of the current level, then that of each
    /// refinement up to the level that holds every item.
    pub fn get_lods(&self) -> (lods: Vec<usize>)
        requires
            self.covers(),
        ensures
            lods@.map_values(|size: usize| size as nat) == self.lod_sizes(),
    {
        proof {
            use_type_invariant(self);
        }
        let mut lods: Vec<usize> = Vec::new();
        let n = self.inner.len();
        if self.indices.len() == 0 {
            assert(lods@.map_values(|size: usize| size as nat) =~= self.lod_sizes());
            return lods;
        }
        let ghost whole = level_sizes(self.level(), n as nat);
        let mut current: Vec<usize> = self.indices();
        lods.push(current.len());
        proof {
            lemma_refine_grows(current@, n as nat);
        }
        while current.len() < n
            invariant
                n == self.items().len(),
                ascending_below(current@, n as nat),
                spans(current@, n as nat),
                current@.len() <= n,
                lods@.len() >= 1,
                whole.len() == lods@.len() - 1 + level_sizes(current@, n as nat).len(),
                forall|i: int| 0 <= i < lods@.len() - 1 ==> (#[trigger] lods@[i]) == whole[i],
                forall|i: int|
                    0 <= i < level_sizes(current@, n as nat).len() ==> (#[trigger] level_sizes(
                        current@,
                        n as nat,
                    )[i]) == whole[lods@.len() - 1 + i],
                lods@.last() == current@.len(),
            decreases n - current@.len(),
        {
            let ghost before = current@;
            let (fine, _) = refine_of(&current, 0);
            proof {
                lemma_refine_grows(before, n as nat);
                lemma_refine_ascending(before, n as nat);
                lemma_refine_grows(fine@, n as nat);
                let tail = level_sizes(fine@, n as nat);
                assert(level_sizes(before, n as nat) == seq![before.len()] + tail);
                assert forall|i: int| 0 <= i < tail.len() implies (#[trigger] tail[i])
                    == whole[lods@.len() + i] by {
                    assert(level_sizes(before, n as nat)[i + 1] == tail[i]);
                }
                assert(level_sizes(before, n as nat)[0] == before.len());
            }
            current = fine;
            lods.push(current.len());
        }
        proof {
            lemma_refine_grows(current@, n as nat);
            assert(level_sizes(current@, n as nat) == seq![current@.len()]);
            assert(level_sizes(current@, n as nat)[0] == current@.len());
            assert(lods@.map_values(|size: usize| size as nat) =~= whole);
        }
        lods
    }

    /// The items that `next` would yield from here on: those of the level
    /// from the cursor to its end.
    pub open spec fn exposed(&self) -> Seq<T>
        recommends
            self.wf(),
    {
        Seq::new(
            if self.cursor() < self.level().len() {
                (self.level().len() - self.cursor()) as nat
            } else {
                0
            },
            |i: int| self.items()[self.level()[self.cursor() + i] as int],
        )
    }

    /// Whether the level reaches from the first item to the last, as it
    /// does unless items were pushed or the level was cleared since the last
    /// `initialize`.
    pub fn covers_items(&self) -> (spanning: bool)
        ensures
            spanning == self.covers(),
    {
        let n = self.inner.len();
        let k = self.indices.len();
        if n == 0 {
            k == 0
        } else {
            k > 0 && self.indices[0] == 0 && self.indices[k - 1] == n - 1
        }
    }

    /// Whether the level holds every item.
    pub fn is_saturated(&self) -> (full: bool)
        ensures
            full == (self.level().len() == self.items().len()),
    {
        self.indices.len() == self.inner.len()
    }

    /// The next finer level, or `None` where the level already holds every
    /// item.
    pub fn next_lod(&self) -> (next: Option<MidpointIterator<T>>)
        ensures
            next.is_none() <==> self.level().len() == self.items().len(),
            next.is_some() ==> next.unwrap().is_refinement_of(self),
    {
        if self.is_saturated() {
            return None;
        }
        Self::next_lod_from_midpoint_iterator(self)
    }

    /// A copy of the indices of the current level.
    pub fn indices(&self) -> (out: Vec<usize>)
        ensures
            out@ == self.level(),
    {
        let out = self.indices.clone();
        assert(out@ =~= self.indices@);
        out
    }

    /// The size of the current level.
    pub fn len(&self) -> (n: usize)
        ensures
            n == self.level().len(),
    {
        self.indices.len()
    }

    /// The cursor.
    pub fn _current_index(&self) -> (at: usize)
        ensures
            at == self.cursor(),
    {
        self.current_index
    }

    /// Appends an item. The level is left as it is, so it no longer ends on
    /// the last item until `initialize` is called.
    pub fn push(&mut self, item: T)
        ensures
            final(self).items() == old(self).items().push(item),
            final(self).level() == old(self).level(),
            final(self).cursor() == old(self).cursor(),
            final(self).target_count() == old(self).target_count(),
            final(self).wf(),
    {
        proof {
            use_type_invariant(&*self);
        }
        let mut indices: Vec<usize> = Vec::new();
        std::mem::swap(&mut indices, &mut self.indices);
        let mut inner: Vec<T> = Vec::new();
        std::mem::swap(&mut inner, &mut self.inner);
        inner.push(item);
        self.inner = inner;
        self.indices = indices;
    }

    /// Whether some item equals `item`, as `==` of the item type decides.
    pub fn contains(&self, item: T) -> (found: bool) where T: PartialEq
        ensures
            found ==> exists|i: int|
                0 <= i < self.items().len() && call_ensures(
                    T::eq,
                    (&#[trigger] self.items()[i], &item),
                    true,
                ),
            !found ==> forall|i: int|
                0 <= i < self.items().len() ==> call_ensures(
                    T::eq,
                    (&#[trigger] self.items()[i], &item),
                    false,
                ),
    {
        let mut i: usize = 0;
        while i < self.inner.len()
            invariant
                i <= self.inner@.len(),
                forall|j: int|
                    0 <= j < i ==> call_ensures(T::eq, (&#[trigger] self.inner@[j], &item), false),
            decreases self.inner@.len() - i,
        {
            if self.inner[i] == item {
                return true;
            }
            i += 1;
        }
        false
    }

    /// The item at position `position` of the current level, if there is one.
    pub fn get(&self, position: usize) -> (item: Option<&T>)
        ensures
            match item {
                Some(found) => position < self.level().len() && *found
                    == self.items()[self.level()[position as int] as int],
                None => position >= self.level().len(),
            },
    {
        proof {
            use_type_invariant(self);
        }
        if position < self.indices.len() {
            Some(&self.inner[self.indices[position]])
        } else {
            None
        }
    }

    /// Yields a clone of the item under the cursor and moves the cursor on;
    /// `None`, with nothing changed, once the cursor is past the level.
    pub fn next(&mut self) -> (item: Option<T>)
        ensures
            final(self).items() == old(self).items(),
            final(self).level() == old(self).level(),
            final(self).target_count() == old(self).target_count(),
            final(self).wf(),
            match item {
                Some(found) => {
                    &&& old(self).cursor() < old(self).level().len()
                    &&& cloned::<T>(
                        old(self).items()[old(self).level()[old(self).cursor() as int] as int],
                        found,
                    )
                    &&& final(self).cursor() == old(self).cursor() + 1
                },
                None => {
                    &&& old(self).cursor() >= old(self).level().len()
                    &&& final(self).cursor() == old(self).cursor()
                },
            },
    {
        proof {
            use_type_invariant(&*self);
        }
        if self.current_index < self.indices.len() {
            let found = self.inner[self.indices[self.current_index]].clone();
            self.current_index = self.current_index + 1;
            Some(found)
        } else {
            None
        }
    }

    /// The size asked of the first level.
    pub fn first_lod(&self) -> (count: usize)
        ensures
            count == self.target_count(),
    {
        self.first_lod
    }

    /// Changes the size asked of the first level; the level itself changes
    /// with the next `initialize`.
    pub fn set_first_lod(&mut self, first_lod: usize)
        ensures
            final(self).target_count() == first_lod,
            final(self).items() == old(self).items(),
            final(self).level() == old(self).level(),
            final(self).cursor() == old(self).cursor(),
            final(self).wf(),
    {
        proof {
            use_type_invariant(&*self);
        }
        self.first_lod = first_lod;
    }
}

impl<T> Clone for MidpointIterator<T> where T: Clone {
    /// A sampler over clones of the items, at the same level and cursor.
    fn clone(&self) -> (copy: Self)
        ensures
            clones_of(self.items(), copy.items()),
            copy.level() == self.level(),
            copy.cursor() == self.cursor(),
            copy.target_count() == self.target_count(),
            copy.wf(),
            self.covers() ==> copy.covers(),
    {
        proof {
            use_type_invariant(self);
        }
        let indices = self.indices();
        Self {
            inner: self.inner.clone(),
            indices,
            current_index: self.current_index,
            first_lod: self.first_lod,
        }
    }
}

/// Refinement is monotonic: the level of a refinement holds every index of
/// the level it was made from, and more of them as long as that level did
/// not hold every item. A level that holds every item is saturated and has
/// no refinement.
pub proof fn lemma_next_lod_is_superset<T: Clone>(
    from: MidpointIterator<T>,
    next: MidpointIterator<T>,
)
    requires
        from.wf(),
        from.covers(),
        next.is_refinement_of(&from),
    ensures
        forall|i: int|
            0 <= i < from.level().len() ==> next.level().contains(#[trigger] from.level()[i]),
        from.level().len() < from.items().len() ==> from.level().len() < next.level().len(),
        from.level().len() <= from.items().len(),
        next.level().len() <= next.items().len(),
        next.wf(),
        next.covers(),
{
    lemma_refine_grows(from.level(), from.items().len());
    assert forall|i: int| 0 <= i < from.level().len() implies next.level().contains(
        #[trigger] from.level()[i],
    ) by {
        lemma_refine_keeps(from.level(), i);
    }
}

impl MidpointIterator<String> {
    /// Puts the items into alphanumeric order. The level keeps its indices,
    /// which now point at other items.
    pub fn sort(&mut self)
        ensures
            key_views(final(self).items()) == alphanumeric_order(key_views(old(self).items())),
            key_views(final(self).items()).to_multiset() == key_views(
                old(self).items(),
            ).to_multiset(),
            final(self).items().len() == old(self).items().len(),
            final(self).level() == old(self).level(),
            final(self).cursor() == old(self).cursor(),
            final(self).target_count() == old(self).target_count(),
            final(self).wf(),
            old(self).covers() ==> final(self).covers(),
    {
        proof {
            use_type_invariant(&*self);
        }
        let mut indices: Vec<usize> = Vec::new();
        std::mem::swap(&mut indices, &mut self.indices);
        let mut inner: Vec<String> = Vec::new();
        std::mem::swap(&mut inner, &mut self.inner);
        sort_str_slice(&mut inner);
        self.inner = inner;
        self.indices = indices;
    }
}

} // verus!
