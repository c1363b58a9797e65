//! A list of options of which one is selected, as a drop-down shows it.

use vstd::prelude::*;

verus! {

/// Options, the position of the selected one, and whether the selection
/// changed with the last pick.
#[derive(Debug)]
pub struct VecAsDropdown<T> where T: Clone {
    from: Vec<T>,
    selected: usize,
    changed: bool,
}

impl<T> VecAsDropdown<T> where T: Clone {
    /// The options.
    pub closed spec fn options(&self) -> Seq<T> {
        self.from@
    }

    /// The position of the selected option.
    pub closed spec fn selection(&self) -> usize {
        self.selected
    }

    /// Whether the last pick changed the selection.
    pub closed spec fn was_changed(&self) -> bool {
        self.changed
    }

    /// The selection points at an option, where there are options. This
    /// holds of every drop-down at all times.
    #[verifier::type_invariant]
    pub closed spec fn wf(&self) -> bool {
        self.from@.len() > 0 ==> self.selected < self.from@.len()
    }

    /// What well-formedness means in terms of the options and the selection.
    pub proof fn lemma_wf(self)
        ensures
            self.wf() == (self.options().len() > 0 ==> self.selection() < self.options().len()),
    {
    }

    /// The options `from` with the first selected.
    pub fn new(from: Vec<T>) -> (me: Self)
        ensures
            me.options() == from@,
            me.selection() == 0,
            !me.was_changed(),
            me.wf(),
    {
        Self::new_with_selected(from, 0)
    }

    /// The options `from` with the one at `selected` selected, which has to
    /// be one of them where there are any.
    pub fn new_with_selected(from: Vec<T>, selected: usize) -> (me: Self)
        requires
            from@.len() > 0 ==> selected < from@.len(),
        ensures
            me.options() == from@,
            me.selection() == selected,
            !me.was_changed(),
            me.wf(),
    {
        Self { from, selected, changed: false }
    }

    /// A clone of the selected option, `None` where there are no options.
    pub fn selected_value(&self) -> (value: Option<T>)
        ensures
            match value {
                Some(chosen) => self.options().len() > 0 && cloned::<T>(
                    self.options()[self.selection() as int],
                    chosen,
                ),
                None => self.options().len() == 0,
            },
    {
        proof {
            use_type_invariant(self);
        }
        if self.from.len() > 0 {
            Some(self.from[self.selected].clone())
        } else {
            None
        }
    }

    /// The options.
    pub fn values(&self) -> (values: &Vec<T>)
        ensures
            values@ == self.options(),
    {
        &self.from
    }

    /// The position of the selected option.
    pub fn selected_index(&self) -> (index: usize)
        ensures
            index == self.selection(),
            self.options().len() > 0 ==> index < self.options().len(),
    {
        proof {
            use_type_invariant(self);
        }
        self.selected
    }

    /// Whether the last pick changed the selection.
    pub fn changed(&self) -> (changed: bool)
        ensures
            changed == self.was_changed(),
    {
        self.changed
    }

    /// Replaces the options. The selection stays where it was if that is
    /// still an option, and goes to the first option otherwise.
    pub fn set_from(&mut self, from: Vec<T>)
        ensures
            final(self).options() == from@,
            final(self).selection() == if old(self).selection() < from@.len() {
                old(self).selection()
            } else {
                0
            },
            final(self).was_changed() == old(self).was_changed(),
            final(self).wf(),
    {
        proof {
            use_type_invariant(&*self);
        }
        if self.selected >= from.len() {
            self.selected = 0;
        }
        self.from = from;
    }

    /// Picks the option at `index`, and notes whether that is another than
    /// before. A position past the options is not picked.
    pub fn select(&mut self, index: usize)
        ensures
            final(self).options() == old(self).options(),
            final(self).selection() == if index < old(self).options().len() {
                index
            } else {
                old(self).selection()
            },
            final(self).was_changed() == (final(self).selection() != old(self).selection()),
            final(self).wf(),
    {
        proof {
            use_type_invariant(&*self);
        }
        if index < self.from.len() && index != self.selected {
            self.selected = index;
            self.changed = true;
        } else {
            self.changed = false;
        }
    }
}

impl<T> Default for VecAsDropdown<T> where T: Clone {
    fn default() -> (me: Self)
        ensures
            me.options().len() == 0,
            me.selection() == 0,
            !me.was_changed(),
            me.wf(),
    {
        Self { from: Vec::new(), selected: 0, changed: false }
    }
}

} // verus!
