//! Moves asset handles from "in flight" to "loaded" as the loader reports
//! them done.
//!
//! The checker does not know the loader. The caller passes in the operation
//! that polls one pending handle: it answers with the handle of the loaded
//! asset, or with nothing while the load is still under way.

use vstd::prelude::*;

verus! {

/// The pending handles that stay pending: those whose verdict is `None`, in
/// order.
pub open spec fn kept_handles<P, H>(loading: Seq<P>, verdicts: Seq<Option<H>>) -> Seq<P>
    recommends
        loading.len() == verdicts.len(),
    decreases loading.len(),
{
    if loading.len() == 0 || verdicts.len() == 0 {
        Seq::empty()
    } else {
        let before = kept_handles(loading.drop_last(), verdicts.drop_last());
        match verdicts.last() {
            None => before.push(loading.last()),
            Some(_) => before,
        }
    }
}

/// The handles of the assets that have arrived: those of the verdicts that
/// are `Some`, in order.
pub open spec fn arrived_handles<H>(verdicts: Seq<Option<H>>) -> Seq<H>
    decreases verdicts.len(),
{
    if verdicts.len() == 0 {
        Seq::empty()
    } else {
        let before = arrived_handles(verdicts.drop_last());
        match verdicts.last() {
            None => before,
            Some(handle) => before.push(handle),
        }
    }
}

/// `verdicts` holds one answer of `poll` for each handle of `loading`, in
/// order.
pub open spec fn polled<P, H, F: Fn(&P) -> Option<H>>(
    poll: F,
    loading: Seq<P>,
    verdicts: Seq<Option<H>>,
) -> bool {
    &&& verdicts.len() == loading.len()
    &&& forall|j: int| 0 <= j < verdicts.len() ==> poll.ensures((&loading[j],), #[trigger] verdicts[j])
}

/// Something that keeps a list of pending handles and a list of loaded ones.
pub trait LoadingSource<P, H> {
    /// The pending handles.
    spec fn loading(&self) -> Seq<P>;

    /// The loaded handles.
    spec fn loaded(&self) -> Seq<H>;

    /// The list of pending handles, for changing it.
    fn loading_mut(&mut self) -> (list: &mut Vec<P>)
        ensures
            list@ == old(self).loading(),
            final(self).loading() == final(list)@,
            final(self).loaded() == old(self).loaded(),
    ;

    /// The list of loaded handles, for changing it.
    fn loaded_mut(&mut self) -> (list: &mut Vec<H>)
        ensures
            list@ == old(self).loaded(),
            final(self).loaded() == final(list)@,
            final(self).loading() == old(self).loading(),
    ;
}

/// Checks what has been loaded and what has not.
#[derive(Clone, Copy, Debug)]
pub struct AssetLoadChecker {}

impl AssetLoadChecker {
    /// A checker.
    pub fn new() -> Self {
        Self {  }
    }

    /// Polls every pending handle of `loading_source` once and moves those
    /// that have arrived to its loaded list: `settle` applied to what `poll`
    /// answered.
    pub fn update<P, H, S, F>(&self, loading_source: &mut S, poll: F) where
        S: LoadingSource<P, H>,
        F: Fn(&P) -> Option<H>,

        requires
            forall|handle: &P| #[trigger] poll.requires((handle,)),
        ensures
            exists|verdicts: Seq<Option<H>>|
                {
                    &&& polled(poll, old(loading_source).loading(), verdicts)
                    &&& final(loading_source).loading() == #[trigger] kept_handles(
                        old(loading_source).loading(),
                        verdicts,
                    )
                    &&& final(loading_source).loaded() == old(loading_source).loaded()
                        + arrived_handles(verdicts)
                },
    {
        let ghost before = loading_source.loading();
        let ghost had = loading_source.loaded();
        let mut verdicts: Vec<Option<H>> = Vec::new();
        let mut pending: Vec<P> = Vec::new();
        let loading = loading_source.loading_mut();
        let mut i: usize = 0;
        while i < loading.len()
            invariant
                i <= loading@.len(),
                verdicts@.len() == i,
                loading@ == before,
                forall|handle: &P| #[trigger] poll.requires((handle,)),
                forall|j: int| 0 <= j < i ==> poll.ensures((&loading@[j],), #[trigger] verdicts@[j]),
            decreases loading@.len() - i,
        {
            verdicts.push(poll(&loading[i]));
            i += 1;
        }
        std::mem::swap(loading, &mut pending);
        let ghost answers = verdicts@;
        let (kept, arrived) = Self::settle(pending, verdicts);
        *loading = kept;
        let loaded = loading_source.loaded_mut();
        let mut arrived = arrived;
        loaded.append(&mut arrived);
        assert(final(loading_source).loading() == kept_handles(before, answers));
    }

    /// Applies one verdict per pending handle: returns the handles that stay
    /// pending and the handles of the assets that have arrived, each in
    /// order.
    pub fn settle<P, H>(loading: Vec<P>, verdicts: Vec<Option<H>>) -> (parts: (Vec<P>, Vec<H>))
        requires
            loading@.len() == verdicts@.len(),
        ensures
            parts.0@ == kept_handles(loading@, verdicts@),
            parts.1@ == arrived_handles(verdicts@),
    {
        let ghost l = loading@;
        let ghost v = verdicts@;
        let ghost n = l.len();
        let mut pending = reversed(loading);
        let mut verdicts = reversed(verdicts);
        let mut kept: Vec<P> = Vec::new();
        let mut arrived: Vec<H> = Vec::new();
        assert(l.take(0) =~= Seq::<P>::empty());
        assert(v.take(0) =~= Seq::<Option<H>>::empty());
        while pending.len() > 0
            invariant
                n == l.len() == v.len(),
                pending@.len() == verdicts@.len() <= n,
                pending@ == l.skip(n - pending@.len()).reverse(),
                verdicts@ == v.skip(n - pending@.len()).reverse(),
                kept@ == kept_handles(l.take(n - pending@.len()), v.take(n - pending@.len())),
                arrived@ == arrived_handles(v.take(n - pending@.len())),
            decreases pending@.len(),
        {
            let ghost i = n - pending@.len();
            let handle = pending.pop().unwrap();
            let verdict = verdicts.pop().unwrap();
            proof {
                assert(handle == l[i]);
                assert(verdict == v[i]);
                assert(l.take(i + 1).drop_last() =~= l.take(i));
                assert(v.take(i + 1).drop_last() =~= v.take(i));
                assert(l.take(i + 1).last() == l[i]);
                assert(v.take(i + 1).last() == v[i]);
                assert(pending@ =~= l.skip(i + 1).reverse());
                assert(verdicts@ =~= v.skip(i + 1).reverse());
            }
            match verdict {
                Some(done) => {
                    arrived.push(done);
                },
                None => {
                    kept.push(handle);
                },
            }
        }
        proof {
            assert(l.take(n as int) =~= l);
            assert(v.take(n as int) =~= v);
        }
        (kept, arrived)
    }
}

/// The elements of `v` in reverse order.
pub(crate) fn reversed<T>(v: Vec<T>) -> (r: Vec<T>)
    ensures
        r@ == v@.reverse(),
{
    let ghost whole = v@;
    let mut v = v;
    let mut r: Vec<T> = Vec::new();
    while v.len() > 0
        invariant
            v@ == whole.take(v@.len() as int),
            v@.len() <= whole.len(),
            r@ == whole.skip(v@.len() as int).reverse(),
        decreases v@.len(),
    {
        let ghost m = v@.len() as int;
        let e = v.pop().unwrap();
        r.push(e);
        assert(v@ =~= whole.take(m - 1));
        assert(r@ =~= whole.skip(m - 1).reverse());
    }
    assert(whole.skip(0) =~= whole);
    r
}

} // verus!
