//! Keeps track of which frames of a sequence were asked of the asset loader
//! and which have arrived.
//!
//! The manager owns the sampler that says which frames the current level of
//! detail wants, the list of frames that are loaded and the list of those in
//! flight. It never talks to the loader itself: the caller passes in the
//! operation that requests a load, and the one that polls a pending handle.

use crate::asset_load_checker::reversed;
use crate::lod_levels::ascending_below;
use crate::lod_levels::first_level;
use crate::lod_midpoint_iterator::MidpointIterator;
use crate::natural_order::alphanumeric_order;
use crate::natural_order::entry_keys;
use crate::natural_order::key_views;
use vstd::prelude::*;

verus! {

/// The keys among `keys`, in order and each once, that are not in `present`.
pub open spec fn newly_wanted(keys: Seq<Seq<char>>, present: Seq<Seq<char>>) -> Seq<Seq<char>>
    decreases keys.len(),
{
    if keys.len() == 0 {
        Seq::empty()
    } else {
        let before = newly_wanted(keys.drop_last(), present);
        let key = keys.last();
        if present.contains(key) || before.contains(key) {
            before
        } else {
            before.push(key)
        }
    }
}

/// `base` followed by the keys of `more`, in order, that are in neither
/// `base` nor earlier in `more`.
pub open spec fn merged_keys(base: Seq<Seq<char>>, more: Seq<Seq<char>>) -> Seq<Seq<char>> {
    base + newly_wanted(more, base)
}

/// The pending entries that stay pending: those whose verdict is `None`,
/// in order.
pub open spec fn still_pending<P, H>(loading: Seq<(String, P)>, verdicts: Seq<Option<H>>) -> Seq<
    (String, P),
>
    recommends
        loading.len() == verdicts.len(),
    decreases loading.len(),
{
    if loading.len() == 0 || verdicts.len() == 0 {
        Seq::empty()
    } else {
        let before = still_pending(loading.drop_last(), verdicts.drop_last());
        match verdicts.last() {
            None => before.push(loading.last()),
            Some(_) => before,
        }
    }
}

/// The pending entries that have arrived: for each verdict `Some(handle)`,
/// in order, the key of the entry with that handle.
pub open spec fn arrived<P, H>(loading: Seq<(String, P)>, verdicts: Seq<Option<H>>) -> Seq<
    (String, H),
>
    recommends
        loading.len() == verdicts.len(),
    decreases loading.len(),
{
    if loading.len() == 0 || verdicts.len() == 0 {
        Seq::empty()
    } else {
        let before = arrived(loading.drop_last(), verdicts.drop_last());
        match verdicts.last() {
            None => before,
            Some(handle) => before.push((loading.last().0, handle)),
        }
    }
}

/// Load state of a sequence of frames: the sampler over the frame names, the
/// frames that have arrived with their handles, and the requests in flight
/// with their pending handles.
#[derive(Clone)]
pub struct LoadManager<P, H> {
    pub load_iterator: MidpointIterator<String>,
    pub loaded: Vec<(String, H)>,
    pub loading: Vec<(String, P)>,
}

impl<P, H> LoadManager<P, H> {
    /// The keys of the loaded frames.
    pub open spec fn loaded_keys(&self) -> Seq<Seq<char>> {
        entry_keys(self.loaded@)
    }

    /// The keys of the frames in flight.
    pub open spec fn loading_keys(&self) -> Seq<Seq<char>> {
        entry_keys(self.loading@)
    }

    /// The keys that are loaded or in flight.
    pub open spec fn present_keys(&self) -> Seq<Seq<char>> {
        self.loaded_keys() + self.loading_keys()
    }

    /// No key is loaded twice, in flight twice, or both loaded and in
    /// flight.
    pub open spec fn distinct(&self) -> bool {
        self.present_keys().no_duplicates()
    }

    /// The keys that the current level of detail exposes.
    pub open spec fn wanted_keys(&self) -> Seq<Seq<char>> {
        key_views(self.load_iterator.exposed())
    }

    /// A manager over the names of `load_iterator`, put into alphanumeric
    /// order, with nothing loaded and nothing in flight.
    pub fn new(load_iterator: MidpointIterator<String>) -> (me: Self)
        ensures
            key_views(me.load_iterator.items()) == alphanumeric_order(
                key_views(load_iterator.items()),
            ),
            key_views(me.load_iterator.items()).to_multiset() == key_views(
                load_iterator.items(),
            ).to_multiset(),
            me.load_iterator.level() == load_iterator.level(),
            me.load_iterator.cursor() == load_iterator.cursor(),
            me.load_iterator.target_count() == load_iterator.target_count(),
            me.load_iterator.wf(),
            load_iterator.covers() ==> me.load_iterator.covers(),
            me.loaded@.len() == 0,
            me.loading@.len() == 0,
            me.distinct(),
    {
        let mut load_iterator = load_iterator;
        load_iterator.sort();
        Self { load_iterator, loaded: Vec::new(), loading: Vec::new() }
    }

    /// Drops the names, the level, and all loaded and pending entries.
    pub fn clear(&mut self)
        ensures
            final(self).load_iterator.items().len() == 0,
            final(self).load_iterator.level().len() == 0,
            final(self).load_iterator.target_count() == old(self).load_iterator.target_count(),
            final(self).load_iterator.wf(),
            final(self).load_iterator.covers(),
            final(self).loaded@.len() == 0,
            final(self).loading@.len() == 0,
            final(self).distinct(),
    {
        self.load_iterator.clear();
        self.loaded.clear();
        self.loading.clear();
    }

    /// Whether no request is in flight.
    pub fn fully_loaded(&self) -> (done: bool)
        ensures
            done == (self.loading@.len() == 0),
    {
        self.loading.len() == 0
    }

    /// Whether it is time to move to a finer level: when more frames are
    /// wanted than are loaded or in flight, and nothing is in flight.
    pub fn wants_next_lod(&self, wanted_len: usize) -> (due: bool)
        ensures
            due == (wanted_len > self.loaded@.len() + self.loading@.len() && self.loading@.len()
                == 0),
    {
        self.fully_loaded() && wanted_len > self.loaded.len()
    }

    /// Moves the sampler to the next finer level, if there is one.
    pub fn next_lod(&mut self)
        ensures
            final(self).loaded == old(self).loaded,
            final(self).loading == old(self).loading,
            old(self).load_iterator.level().len() == old(self).load_iterator.items().len()
                ==> final(self).load_iterator == old(self).load_iterator,
            old(self).load_iterator.level().len() != old(self).load_iterator.items().len()
                ==> final(self).load_iterator.is_refinement_of(&old(self).load_iterator),
            final(self).load_iterator.items() == old(self).load_iterator.items(),
            final(self).load_iterator.wf(),
            old(self).distinct() ==> final(self).distinct(),
    {
        proof {
            use_type_invariant(&self.load_iterator);
        }
        if let Some(next_lod) = self.load_iterator.next_lod() {
            assert(next_lod.items() =~= self.load_iterator.items());
            self.load_iterator = next_lod;
        }
    }

    /// Requests every frame that the current level exposes and that is
    /// neither loaded nor in flight, and records the pending handles, in the
    /// order of the level. A second call right after the first requests
    /// nothing.
    pub fn load_assets<F>(&mut self, request: F) where F: Fn(&String) -> P
        requires
            forall|key: &String| #[trigger] request.requires((key,)),
        ensures
            final(self).load_iterator == old(self).load_iterator,
            final(self).loaded == old(self).loaded,
            final(self).loading@.len() >= old(self).loading@.len(),
            final(self).loading@.take(old(self).loading@.len() as int) == old(self).loading@,
            final(self).loading_keys() == old(self).loading_keys() + newly_wanted(
                old(self).wanted_keys(),
                old(self).present_keys(),
            ),
            forall|i: int|
                old(self).loading@.len() <= i < final(self).loading@.len() ==> request.ensures(
                    (&(#[trigger] final(self).loading@[i]).0,),
                    final(self).loading@[i].1,
                ),
            old(self).distinct() ==> final(self).distinct(),
    {
        proof {
            use_type_invariant(&self.load_iterator);
            self.load_iterator.lemma_wf();
        }
        let ghost wanted = self.wanted_keys();
        let ghost present = self.present_keys();
        let ghost before = self.loading@;
        let start = self.load_iterator._current_index();
        let end = self.load_iterator.len();
        let mut position: usize = start;
        assert(wanted.take(0) =~= Seq::<Seq<char>>::empty());
        assert(self.loading_keys() =~= entry_keys(before) + newly_wanted(wanted.take(0), present));
        while position < end
            invariant
                self.load_iterator == old(self).load_iterator,
                self.loaded == old(self).loaded,
                ascending_below(
                    self.load_iterator.level(),
                    self.load_iterator.items().len(),
                ),
                wanted == self.wanted_keys(),
                present == entry_keys(self.loaded@) + entry_keys(before),
                start == self.load_iterator.cursor(),
                end == self.load_iterator.level().len(),
                start <= position,
                start < end ==> position <= end,
                start >= end ==> position == start,
                forall|key: &String| #[trigger] request.requires((key,)),
                self.loading@.len() >= before.len(),
                self.loading@.take(before.len() as int) == before,
                self.loading_keys() == entry_keys(before) + newly_wanted(
                    wanted.take(position - start),
                    present,
                ),
                forall|i: int|
                    before.len() <= i < self.loading@.len() ==> request.ensures(
                        (&(#[trigger] self.loading@[i]).0,),
                        self.loading@[i].1,
                    ),
            decreases end - position,
        {
            let ghost done = wanted.take(position - start);
            let ghost added = newly_wanted(done, present);
            let ghost pending = self.loading@;
            proof {
                let next = wanted.take(position - start + 1);
                assert(next.drop_last() =~= done);
                assert(self.present_keys() =~= present + added);
            }
            match self.load_iterator.get(position) {
                Some(key) => {
                    assert(key@ == wanted[position - start]);
                    if !self.in_loaded_or_loading(key) {
                        proof {
                            lemma_concat_contains(present, added, key@);
                        }
                        let handle = request(key);
                        self.loading.push((key.clone(), handle));
                        assert(self.loading@.last().0@ == key@);
                        assert(self.loading@.drop_last() == pending);
                        assert(entry_keys(self.loading@) =~= entry_keys(pending).push(key@));
                        assert(self.loading_keys() =~= entry_keys(before) + added.push(key@));
                        assert(self.loading@.take(before.len() as int) =~= before);
                    } else {
                        proof {
                            lemma_concat_contains(present, added, key@);
                        }
                    }
                },
                None => {},
            }
            position += 1;
        }
        proof {
            assert(wanted.len() == self.load_iterator.exposed().len());
            if start < end {
                assert(wanted.len() == end - start);
                assert(wanted.take(position - start) =~= wanted);
            } else {
                assert(wanted.len() == 0);
                assert(wanted.take(position - start) =~= wanted);
            }
            lemma_newly_wanted(wanted, present);
            assert(self.present_keys() =~= present + newly_wanted(wanted, present));
        }
    }

    /// Takes in newly found names: appends those that the sampler does not
    /// hold yet, each once, puts all names into alphanumeric order and starts
    /// over from the first level. What is loaded or in flight stays as it is.
    pub fn add_new_assets(&mut self, new_assets: Vec<String>)
        ensures
            key_views(final(self).load_iterator.items()) == alphanumeric_order(
                merged_keys(key_views(old(self).load_iterator.items()), key_views(new_assets@)),
            ),
            key_views(final(self).load_iterator.items()).to_multiset() == merged_keys(
                key_views(old(self).load_iterator.items()),
                key_views(new_assets@),
            ).to_multiset(),
            final(self).load_iterator.items().len() == merged_keys(
                key_views(old(self).load_iterator.items()),
                key_views(new_assets@),
            ).len(),
            final(self).load_iterator.level() == first_level(
                final(self).load_iterator.items().len(),
                old(self).load_iterator.target_count() as nat,
            ),
            final(self).load_iterator.cursor() == old(self).load_iterator.cursor(),
            final(self).load_iterator.target_count() == old(self).load_iterator.target_count(),
            final(self).load_iterator.wf(),
            final(self).load_iterator.covers(),
            final(self).loaded == old(self).loaded,
            final(self).loading == old(self).loading,
            old(self).distinct() ==> final(self).distinct(),
    {
        let ghost base = key_views(self.load_iterator.items());
        let ghost more = key_views(new_assets@);
        let mut i: usize = 0;
        assert(more.take(0) =~= Seq::<Seq<char>>::empty());
        assert(base =~= base + newly_wanted(more.take(0), base));
        while i < new_assets.len()
            invariant
                i <= new_assets@.len(),
                more == key_views(new_assets@),
                self.loaded == old(self).loaded,
                self.loading == old(self).loading,
                self.load_iterator.cursor() == old(self).load_iterator.cursor(),
                self.load_iterator.target_count() == old(self).load_iterator.target_count(),
                key_views(self.load_iterator.items()) == base + newly_wanted(
                    more.take(i as int),
                    base,
                ),
            decreases new_assets@.len() - i,
        {
            let ghost added = newly_wanted(more.take(i as int), base);
            let ghost items = self.load_iterator.items();
            let new_asset = &new_assets[i];
            let found = self.load_iterator.contains(new_asset.clone());
            proof {
                assert(more.take(i + 1).drop_last() =~= more.take(i as int));
                assert(more.take(i + 1).last() == new_asset@);
                lemma_contains_string(items, *new_asset, found);
                lemma_concat_contains(base, added, new_asset@);
            }
            if !found {
                self.load_iterator.push(new_asset.clone());
                assert(self.load_iterator.items().last()@ == new_asset@);
                assert(self.load_iterator.items().drop_last() == items);
                assert(key_views(self.load_iterator.items()) =~= key_views(items).push(
                    new_asset@,
                ));
                assert(key_views(self.load_iterator.items()) =~= base + added.push(new_asset@));
            }
            i += 1;
        }
        assert(more.take(i as int) =~= more);
        self.sort();
        self.load_iterator.clear_indices();
        self.load_iterator.initialize();
    }

    /// Moves to the next finer level, if there is one, and requests what
    /// that level exposes and is neither loaded nor in flight.
    pub fn next_lod_and_reload<F>(&mut self, request: F) where F: Fn(&String) -> P
        requires
            forall|key: &String| #[trigger] request.requires((key,)),
        ensures
            old(self).load_iterator.level().len() == old(self).load_iterator.items().len()
                ==> final(self).load_iterator == old(self).load_iterator,
            old(self).load_iterator.level().len() != old(self).load_iterator.items().len()
                ==> final(self).load_iterator.is_refinement_of(&old(self).load_iterator),
            final(self).load_iterator.items() == old(self).load_iterator.items(),
            final(self).load_iterator.wf(),
            final(self).loaded == old(self).loaded,
            final(self).loading@.len() >= old(self).loading@.len(),
            final(self).loading@.take(old(self).loading@.len() as int) == old(self).loading@,
            final(self).loading_keys() == old(self).loading_keys() + newly_wanted(
                final(self).wanted_keys(),
                old(self).present_keys(),
            ),
            forall|i: int|
                old(self).loading@.len() <= i < final(self).loading@.len() ==> request.ensures(
                    (&(#[trigger] final(self).loading@[i]).0,),
                    final(self).loading@[i].1,
                ),
            old(self).distinct() ==> final(self).distinct(),
    {
        self.next_lod();
        self.load_assets(request);
    }

    /// The directory under which the frames of a data set lie.
    pub fn data_path(&self) -> (path: String)
        ensures
            path@ == "assets/data"@,
    {
        "assets/data".to_owned()
    }

    /// Puts the names of the sampler into alphanumeric order.
    fn sort(&mut self)
        ensures
            key_views(final(self).load_iterator.items()) == alphanumeric_order(
                key_views(old(self).load_iterator.items()),
            ),
            key_views(final(self).load_iterator.items()).to_multiset() == key_views(
                old(self).load_iterator.items(),
            ).to_multiset(),
            final(self).load_iterator.items().len() == old(self).load_iterator.items().len(),
            final(self).load_iterator.level() == old(self).load_iterator.level(),
            final(self).load_iterator.cursor() == old(self).load_iterator.cursor(),
            final(self).load_iterator.target_count() == old(self).load_iterator.target_count(),
            final(self).loaded == old(self).loaded,
            final(self).loading == old(self).loading,
    {
        self.load_iterator.sort();
    }

    /// Polls every pending handle once, in order, and returns the verdicts:
    /// what `poll` answered for each.
    pub fn poll_loading<F>(&self, poll: F) -> (verdicts: Vec<Option<H>>) where
        F: Fn(&P) -> Option<H>,
        requires
            forall|handle: &P| #[trigger] poll.requires((handle,)),
        ensures
            self.polled_by(poll, verdicts@),
    {
        let mut verdicts: Vec<Option<H>> = Vec::new();
        let mut i: usize = 0;
        while i < self.loading.len()
            invariant
                i <= self.loading@.len(),
                verdicts@.len() == i,
                forall|handle: &P| #[trigger] poll.requires((handle,)),
                forall|j: int|
                    0 <= j < i ==> poll.ensures((&self.loading@[j].1,), #[trigger] verdicts@[j]),
            decreases self.loading@.len() - i,
        {
            verdicts.push(poll(&self.loading[i].1));
            i += 1;
        }
        verdicts
    }

    /// `verdicts` holds one answer of `poll` for each pending handle, in
    /// order.
    pub open spec fn polled_by<F: Fn(&P) -> Option<H>>(
        &self,
        poll: F,
        verdicts: Seq<Option<H>>,
    ) -> bool {
        &&& verdicts.len() == self.loading@.len()
        &&& forall|j: int|
            0 <= j < verdicts.len() ==> poll.ensures((&self.loading@[j].1,), #[trigger] verdicts[j])
    }

    /// Applies one verdict per pending entry: an entry whose verdict is
    /// `Some(handle)` moves to the end of the loaded list with that handle,
    /// the others stay pending, all in their order.
    pub fn settle(&mut self, verdicts: Vec<Option<H>>)
        requires
            verdicts@.len() == old(self).loading@.len(),
        ensures
            final(self).load_iterator == old(self).load_iterator,
            final(self).loading@ == still_pending(old(self).loading@, verdicts@),
            final(self).loaded@ == old(self).loaded@ + arrived(old(self).loading@, verdicts@),
            old(self).distinct() ==> final(self).distinct(),
    {
        let ghost l = self.loading@;
        let ghost v = verdicts@;
        let ghost n = l.len();
        let ghost loaded = self.loaded@;
        let mut pending: Vec<(String, P)> = Vec::new();
        std::mem::swap(&mut self.loading, &mut pending);
        let mut pending = reversed(pending);
        let mut verdicts = reversed(verdicts);
        assert(l.take(0) =~= Seq::<(String, P)>::empty());
        assert(v.take(0) =~= Seq::<Option<H>>::empty());
        assert(self.loaded@ =~= loaded + arrived(l.take(0), v.take(0)));
        while pending.len() > 0
            invariant
                self.load_iterator == old(self).load_iterator,
                n == l.len() == v.len(),
                pending@.len() == verdicts@.len() <= n,
                pending@ == l.skip(n - pending@.len()).reverse(),
                verdicts@ == v.skip(n - pending@.len()).reverse(),
                self.loading@ == still_pending(
                    l.take(n - pending@.len()),
                    v.take(n - pending@.len()),
                ),
                self.loaded@ == loaded + arrived(
                    l.take(n - pending@.len()),
                    v.take(n - pending@.len()),
                ),
            decreases pending@.len(),
        {
            let ghost i = n - pending@.len();
            let ghost done = arrived(l.take(i), v.take(i));
            let entry = pending.pop().unwrap();
            let verdict = verdicts.pop().unwrap();
            proof {
                assert(entry == l[i]);
                assert(verdict == v[i]);
                assert(l.take(i + 1).drop_last() =~= l.take(i));
                assert(v.take(i + 1).drop_last() =~= v.take(i));
                assert(l.take(i + 1).last() == l[i]);
                assert(v.take(i + 1).last() == v[i]);
                assert(pending@ =~= l.skip(i + 1).reverse());
                assert(verdicts@ =~= v.skip(i + 1).reverse());
            }
            match verdict {
                Some(handle) => {
                    self.loaded.push((entry.0, handle));
                    assert(self.loaded@ =~= loaded + done.push((l[i].0, handle)));
                },
                None => {
                    self.loading.push(entry);
                },
            }
        }
        proof {
            assert(l.take(n as int) =~= l);
            assert(v.take(n as int) =~= v);
            if old(self).distinct() {
                lemma_settled_distinct(loaded, l, v);
            }
        }
    }

    /// Polls every pending handle once and moves the entries that have
    /// arrived to the loaded list: `settle` applied to the verdicts of
    /// `poll_loading`.
    pub fn update_load_state<F>(&mut self, poll: F) where F: Fn(&P) -> Option<H>
        requires
            forall|handle: &P| #[trigger] poll.requires((handle,)),
        ensures
            final(self).load_iterator == old(self).load_iterator,
            exists|verdicts: Seq<Option<H>>|
                {
                    &&& old(self).polled_by(poll, verdicts)
                    &&& final(self).loading@ == #[trigger] still_pending(
                        old(self).loading@,
                        verdicts,
                    )
                    &&& final(self).loaded@ == old(self).loaded@ + arrived(
                        old(self).loading@,
                        verdicts,
                    )
                },
            old(self).distinct() ==> final(self).distinct(),
    {
        let verdicts = self.poll_loading(poll);
        let ghost answers = verdicts@;
        self.settle(verdicts);
        assert(final(self).loading@ == still_pending(old(self).loading@, answers));
    }

    /// Whether `path` is the key of a loaded or pending entry.
    fn in_loaded_or_loading(&self, path: &String) -> (present: bool)
        ensures
            present == self.present_keys().contains(path@),
    {
        let mut i: usize = 0;
        while i < self.loading.len()
            invariant
                i <= self.loading@.len(),
                forall|j: int| 0 <= j < i ==> (#[trigger] self.loading@[j]).0@ != path@,
            decreases self.loading@.len() - i,
        {
            if self.loading[i].0 == *path {
                assert(self.present_keys()[self.loaded@.len() + i] == path@);
                return true;
            }
            i += 1;
        }
        let mut k: usize = 0;
        while k < self.loaded.len()
            invariant
                k <= self.loaded@.len(),
                forall|j: int|
                    0 <= j < self.loading@.len() ==> (#[trigger] self.loading@[j]).0@ != path@,
                forall|j: int| 0 <= j < k ==> (#[trigger] self.loaded@[j]).0@ != path@,
            decreases self.loaded@.len() - k,
        {
            if self.loaded[k].0 == *path {
                assert(self.present_keys()[k as int] == path@);
                return true;
            }
            k += 1;
        }
        assert forall|j: int| 0 <= j < self.present_keys().len() implies self.present_keys()[j]
            != path@ by {
            if j < self.loaded@.len() {
                assert(self.loaded@[j].0@ != path@);
            } else {
                assert(self.loading@[j - self.loaded@.len()].0@ != path@);
            }
        }
        false
    }
}

/// What `newly_wanted` holds: exactly the keys of `keys` that are not in
/// `present`, none of them twice; appended to a `present` without duplicates
/// it leaves no duplicates.
pub proof fn lemma_newly_wanted(keys: Seq<Seq<char>>, present: Seq<Seq<char>>)
    ensures
        forall|key: Seq<char>| #[trigger]
            newly_wanted(keys, present).contains(key) <==> keys.contains(key) && !present.contains(
                key,
            ),
        newly_wanted(keys, present).no_duplicates(),
        present.no_duplicates() ==> (present + newly_wanted(keys, present)).no_duplicates(),
    decreases keys.len(),
{
    let wanted = newly_wanted(keys, present);
    if keys.len() > 0 {
        let rest = keys.drop_last();
        let before = newly_wanted(rest, present);
        let last = keys.last();
        lemma_newly_wanted(rest, present);
        assert forall|key: Seq<char>| #[trigger]
            wanted.contains(key) <==> keys.contains(key) && !present.contains(key) by {
            if keys.contains(key) {
                let i = choose|i: int| 0 <= i < keys.len() && keys[i] == key;
                if i < rest.len() {
                    assert(rest[i] == key);
                }
            }
            if rest.contains(key) {
                let i = choose|i: int| 0 <= i < rest.len() && rest[i] == key;
                assert(keys[i] == key);
            }
            assert(keys[keys.len() - 1] == last);
            if before.contains(key) {
                let i = choose|i: int| 0 <= i < before.len() && before[i] == key;
                assert(wanted[i] == key);
            }
            if wanted.contains(key) && !before.contains(key) {
                let i = choose|i: int| 0 <= i < wanted.len() && wanted[i] == key;
                if i < before.len() {
                    assert(before[i] == key);
                }
            }
            if wanted.len() > before.len() {
                assert(wanted[wanted.len() - 1] == last);
            }
        }
        if present.no_duplicates() && wanted.len() > before.len() {
            let all = present + wanted;
            let most = present + before;
            assert forall|i: int, j: int| 0 <= i < j < all.len() implies all[i] != all[j] by {
                if j < most.len() {
                    assert(most[i] == all[i] && most[j] == all[j]);
                } else {
                    assert(all[j] == last);
                    assert(most[i] == all[i]);
                    if i < present.len() {
                        assert(present[i] == all[i]);
                    } else {
                        assert(before[i - present.len()] == all[i]);
                    }
                }
            }
        }
    }
}

/// Asking twice asks for nothing new: once the newly wanted keys are counted
/// as present, none of `keys` is newly wanted.
pub proof fn lemma_wanted_once(keys: Seq<Seq<char>>, present: Seq<Seq<char>>)
    ensures
        newly_wanted(keys, present + newly_wanted(keys, present)) == Seq::<Seq<char>>::empty(),
{
    let first = newly_wanted(keys, present);
    let second = newly_wanted(keys, present + first);
    lemma_newly_wanted(keys, present);
    lemma_newly_wanted(keys, present + first);
    if second.len() > 0 {
        let key = second[0];
        assert(second.contains(key));
        assert(keys.contains(key) && !(present + first).contains(key));
        if present.contains(key) {
            let i = choose|i: int| 0 <= i < present.len() && present[i] == key;
            assert((present + first)[i] == key);
        } else {
            assert(first.contains(key));
            let i = choose|i: int| 0 <= i < first.len() && first[i] == key;
            assert((present + first)[present.len() + i] == key);
        }
    }
    assert(second =~= Seq::<Seq<char>>::empty());
}

/// Requesting twice in a row requests nothing the second time: where `second`
/// is what `load_assets` leaves of `first`, and `third` what it leaves of
/// `second`, the same keys are in flight in `third` as in `second`.
pub proof fn lemma_load_assets_is_idempotent<P, H>(
    first: LoadManager<P, H>,
    second: LoadManager<P, H>,
    third: LoadManager<P, H>,
)
    requires
        second.load_iterator == first.load_iterator,
        second.loaded == first.loaded,
        second.loading_keys() == first.loading_keys() + newly_wanted(
            first.wanted_keys(),
            first.present_keys(),
        ),
        third.load_iterator == second.load_iterator,
        third.loaded == second.loaded,
        third.loading_keys() == second.loading_keys() + newly_wanted(
            second.wanted_keys(),
            second.present_keys(),
        ),
    ensures
        third.loading_keys() == second.loading_keys(),
        third.loading@.len() == second.loading@.len(),
{
    let wanted = first.wanted_keys();
    let present = first.present_keys();
    assert(second.present_keys() =~= present + newly_wanted(wanted, present));
    lemma_wanted_once(wanted, present);
    assert(third.loading_keys() =~= second.loading_keys());
    assert(third.loading_keys().len() == third.loading@.len());
    assert(second.loading_keys().len() == second.loading@.len());
}

/// Distinct keys part the frames: no key is both loaded and in flight.
pub proof fn lemma_distinct_is_partition<P, H>(manager: LoadManager<P, H>, key: Seq<char>)
    requires
        manager.distinct(),
    ensures
        !(manager.loaded_keys().contains(key) && manager.loading_keys().contains(key)),
{
    let loaded = manager.loaded_keys();
    let loading = manager.loading_keys();
    if loaded.contains(key) && loading.contains(key) {
        let i = choose|i: int| 0 <= i < loaded.len() && loaded[i] == key;
        let j = choose|j: int| 0 <= j < loading.len() && loading[j] == key;
        assert(manager.present_keys()[i] == key);
        assert(manager.present_keys()[loaded.len() + j] == key);
    }
}

/// Settling moves keys and neither drops nor doubles one: the keys of the
/// arrived entries and of those still pending are, together, the keys that
/// were pending.
pub proof fn lemma_settled_keys<P, H>(loading: Seq<(String, P)>, verdicts: Seq<Option<H>>)
    requires
        loading.len() == verdicts.len(),
    ensures
        entry_keys(arrived(loading, verdicts)).to_multiset().add(
            entry_keys(still_pending(loading, verdicts)).to_multiset(),
        ) == entry_keys(loading).to_multiset(),
    decreases loading.len(),
{
    broadcast use vstd::seq_lib::to_multiset_build;

    let done = entry_keys(arrived(loading, verdicts));
    let kept = entry_keys(still_pending(loading, verdicts));
    if loading.len() == 0 {
        assert(entry_keys(loading) =~= Seq::<Seq<char>>::empty());
        assert(done =~= Seq::<Seq<char>>::empty());
        assert(kept =~= Seq::<Seq<char>>::empty());
        Seq::<Seq<char>>::empty().to_multiset_ensures();
        assert(done.to_multiset().add(kept.to_multiset()) =~= entry_keys(loading).to_multiset());
    } else {
        let l = loading.drop_last();
        let v = verdicts.drop_last();
        assert(l.len() == v.len());
        lemma_settled_keys(l, v);
        let key = loading.last().0@;
        assert(entry_keys(loading) =~= entry_keys(l).push(key));
        match verdicts.last() {
            None => {
                assert(kept =~= entry_keys(still_pending(l, v)).push(key));
            },
            Some(handle) => {
                assert(done =~= entry_keys(arrived(l, v)).push(key));
            },
        }
        assert(done.to_multiset().add(kept.to_multiset()) =~= entry_keys(loading).to_multiset());
    }
}

/// Settling keeps the keys distinct: where no key was loaded or pending
/// twice before, none is after.
pub proof fn lemma_settled_distinct<P, H>(
    loaded: Seq<(String, H)>,
    loading: Seq<(String, P)>,
    verdicts: Seq<Option<H>>,
)
    requires
        loading.len() == verdicts.len(),
        (entry_keys(loaded) + entry_keys(loading)).no_duplicates(),
    ensures
        (entry_keys(loaded + arrived(loading, verdicts)) + entry_keys(
            still_pending(loading, verdicts),
        )).no_duplicates(),
{
    let before = entry_keys(loaded) + entry_keys(loading);
    let done = entry_keys(arrived(loading, verdicts));
    let kept = entry_keys(still_pending(loading, verdicts));
    let after = entry_keys(loaded + arrived(loading, verdicts)) + kept;
    assert(entry_keys(loaded + arrived(loading, verdicts)) =~= entry_keys(loaded) + done);
    assert(after =~= entry_keys(loaded) + (done + kept));
    lemma_settled_keys(loading, verdicts);
    vstd::seq_lib::lemma_multiset_commutative(done, kept);
    vstd::seq_lib::lemma_multiset_commutative(entry_keys(loaded), done + kept);
    vstd::seq_lib::lemma_multiset_commutative(entry_keys(loaded), entry_keys(loading));
    assert(after.to_multiset() =~= before.to_multiset());
    before.lemma_multiset_has_no_duplicates();
    after.lemma_multiset_has_no_duplicates_conv();
}

/// What `contains` of the sampler says of a string: whether one of the items
/// has the same characters.
proof fn lemma_contains_string(items: Seq<String>, item: String, found: bool)
    requires
        found ==> exists|i: int|
            0 <= i < items.len() && call_ensures(String::eq, (&#[trigger] items[i], &item), true),
        !found ==> forall|i: int|
            0 <= i < items.len() ==> call_ensures(String::eq, (&#[trigger] items[i], &item), false),
    ensures
        found == key_views(items).contains(item@),
{
    if found {
        let i = choose|i: int|
            0 <= i < items.len() && call_ensures(String::eq, (&#[trigger] items[i], &item), true);
        assert(key_views(items)[i] == item@);
    } else {
        assert forall|i: int| 0 <= i < key_views(items).len() implies key_views(items)[i]
            != item@ by {
            assert(call_ensures(String::eq, (&items[i], &item), false));
        }
    }
}

/// A key is in a concatenation exactly if it is in one of the two parts.
proof fn lemma_concat_contains(a: Seq<Seq<char>>, b: Seq<Seq<char>>, key: Seq<char>)
    ensures
        (a + b).contains(key) <==> a.contains(key) || b.contains(key),
{
    if a.contains(key) {
        let i = choose|i: int| 0 <= i < a.len() && a[i] == key;
        assert((a + b)[i] == key);
    }
    if b.contains(key) {
        let i = choose|i: int| 0 <= i < b.len() && b[i] == key;
        assert((a + b)[a.len() + i] == key);
    }
    if (a + b).contains(key) {
        let i = choose|i: int| 0 <= i < (a + b).len() && (a + b)[i] == key;
        if i < a.len() {
            assert(a[i] == key);
        } else {
            assert(b[i - a.len()] == key);
        }
    }
}

} // verus!
