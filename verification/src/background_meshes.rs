//! Meshes that stand in the scene behind the frames: which are in flight,
//! which are loaded, and which of the loaded ones are on screen.

use crate::asset_load_checker::LoadingSource;
use crate::lod_midpoint_iterator::clones_of;
use vstd::prelude::*;
use vstd::std_specs::cmp::PartialEqSpec;

verus! {

/// Whether `handle` equals one of the displayed handles.
pub open spec fn is_displayed<H: PartialEq>(displayed: Seq<H>, handle: H) -> bool {
    exists|j: int| 0 <= j < displayed.len() && handle.eq_spec(&#[trigger] displayed[j])
}

/// The loaded handles, in order, that equal none of the displayed ones.
pub open spec fn not_displayed<H: PartialEq>(loaded: Seq<H>, displayed: Seq<H>) -> Seq<H>
    decreases loaded.len(),
{
    if loaded.len() == 0 {
        Seq::empty()
    } else {
        let before = not_displayed(loaded.drop_last(), displayed);
        if is_displayed(displayed, loaded.last()) {
            before
        } else {
            before.push(loaded.last())
        }
    }
}

/// The background meshes by their handles: `P` for one in flight, `H` for a
/// loaded one.
#[derive(Debug)]
pub struct BackgroundMeshes<P, H> {
    pub loading: Vec<P>,
    pub loaded: Vec<H>,
    pub displayed: Vec<H>,
}

impl<P, H> BackgroundMeshes<P, H> where H: PartialEq + Clone {
    /// No background meshes.
    pub fn new() -> (me: Self)
        ensures
            me.loading@.len() == 0,
            me.loaded@.len() == 0,
            me.displayed@.len() == 0,
    {
        Self { loading: Vec::new(), loaded: Vec::new(), displayed: Vec::new() }
    }

    /// Hands out clones of the loaded handles that are not on screen yet,
    /// for the caller to put them there, and counts them as displayed.
    pub fn spawn(&mut self) -> (to_display: Vec<H>)
        ensures
            final(self).loading == old(self).loading,
            final(self).loaded == old(self).loaded,
            H::obeys_eq_spec() ==> clones_of(
                not_displayed(old(self).loaded@, old(self).displayed@),
                to_display@,
            ),
            final(self).displayed@.len() == old(self).displayed@.len() + to_display@.len(),
            final(self).displayed@.take(old(self).displayed@.len() as int) == old(self).displayed@,
            clones_of(
                to_display@,
                final(self).displayed@.skip(old(self).displayed@.len() as int),
            ),
    {
        let to_display = self.available_but_not_displayed_yet();
        let ghost shown = self.displayed@;
        let mut i: usize = 0;
        while i < to_display.len()
            invariant
                i <= to_display@.len(),
                self.loading == old(self).loading,
                self.loaded == old(self).loaded,
                self.displayed@.len() == shown.len() + i,
                self.displayed@.take(shown.len() as int) == shown,
                forall|k: int|
                    0 <= k < i ==> cloned::<H>(
                        #[trigger] to_display@[k],
                        self.displayed@[shown.len() + k],
                    ),
            decreases to_display@.len() - i,
        {
            self.displayed.push(to_display[i].clone());
            assert(self.displayed@.take(shown.len() as int) =~= shown);
            i += 1;
        }
        to_display
    }

    /// Clones of the loaded handles that equal none of the displayed ones.
    fn available_but_not_displayed_yet(&self) -> (available: Vec<H>)
        ensures
            H::obeys_eq_spec() ==> clones_of(
                not_displayed(self.loaded@, self.displayed@),
                available@,
            ),
    {
        let mut available: Vec<H> = Vec::new();
        let mut i: usize = 0;
        assert(self.loaded@.take(0) =~= Seq::<H>::empty());
        while i < self.loaded.len()
            invariant
                i <= self.loaded@.len(),
                H::obeys_eq_spec() ==> clones_of(
                    not_displayed(self.loaded@.take(i as int), self.displayed@),
                    available@,
                ),
            decreases self.loaded@.len() - i,
        {
            let handle = &self.loaded[i];
            let mut found = false;
            let mut j: usize = 0;
            while j < self.displayed.len() && !found
                invariant
                    j <= self.displayed@.len(),
                    *handle == self.loaded@[i as int],
                    H::obeys_eq_spec() ==> (found <==> exists|k: int|
                        0 <= k < j && handle.eq_spec(&#[trigger] self.displayed@[k])),
                decreases self.displayed@.len() - j + if found { 0int } else { 1int },
            {
                if *handle == self.displayed[j] {
                    found = true;
                }
                j += 1;
            }
            proof {
                let part = self.loaded@.take(i + 1);
                assert(part.drop_last() =~= self.loaded@.take(i as int));
                assert(part.last() == *handle);
            }
            let ghost before = available@;
            if !found {
                available.push(handle.clone());
                assert(available@.drop_last() =~= before);
            }
            i += 1;
        }
        assert(self.loaded@.take(i as int) =~= self.loaded@);
        available
    }
}

impl<P, H> LoadingSource<P, H> for BackgroundMeshes<P, H> {
    open spec fn loading(&self) -> Seq<P> {
        self.loading@
    }

    open spec fn loaded(&self) -> Seq<H> {
        self.loaded@
    }

    fn loading_mut(&mut self) -> (list: &mut Vec<P>) {
        &mut self.loading
    }

    fn loaded_mut(&mut self) -> (list: &mut Vec<H>) {
        &mut self.loaded
    }
}

} // verus!
