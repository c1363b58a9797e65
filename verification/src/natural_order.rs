//! Ordering of file names the way a person reads them: runs of digits count
//! by their value, so that `frame2` comes before `frame10`.

use vstd::prelude::*;

verus! {

/// The names as character sequences.
pub open spec fn key_views(keys: Seq<String>) -> Seq<Seq<char>> {
    keys.map_values(|key: String| key@)
}

/// The names in the order in which `alphanumeric_sort::sort_str_slice`
/// leaves them.
pub uninterp spec fn alphanumeric_order(keys: Seq<Seq<char>>) -> Seq<Seq<char>>;

/// Sorts the names in place with `alphanumeric_sort::sort_str_slice`.
///
/// Believed, not proved: the outcome depends on the names alone, and it holds
/// the same names as before, each as often as before. The outside crate hands
/// the slice to an unstable sort of the standard library with its own
/// comparison of two names, and that sort only moves elements. The contract
/// relies on the comparison being a total order that takes only identical
/// names for equal. The crate's documentation gives the rules of the
/// comparison and does not say so; it is what the source of the comparison
/// shows.
#[verifier::external_body]
pub(crate) fn sort_str_slice(keys: &mut Vec<String>)
    ensures
        key_views(final(keys)@) == alphanumeric_order(key_views(old(keys)@)),
        key_views(final(keys)@).to_multiset() == key_views(old(keys)@).to_multiset(),
        final(keys)@.len() == old(keys)@.len(),
{
    alphanumeric_sort::sort_str_slice(keys);
}

/// The keys of a list of keyed entries, as character sequences.
pub open spec fn entry_keys<V>(entries: Seq<(String, V)>) -> Seq<Seq<char>> {
    entries.map_values(|entry: (String, V)| entry.0@)
}

/// For entries with the keys `keys`, the position that each entry had before
/// `alphanumeric_sort::sort_slice_by_str_key` put the entries into
/// alphanumeric order of their keys: position `i` of the result holds the
/// entry that stood at `alphanumeric_key_order(keys)[i]`.
pub uninterp spec fn alphanumeric_key_order(keys: Seq<Seq<char>>) -> Seq<int>;

/// `order` lists each of the positions `0 .. len` once.
pub open spec fn is_rearrangement(order: Seq<int>, len: nat) -> bool {
    &&& order.len() == len
    &&& forall|i: int| 0 <= i < order.len() ==> 0 <= #[trigger] order[i] < len
    &&& order.no_duplicates()
}

/// Sorts keyed entries by their keys with
/// `alphanumeric_sort::sort_slice_by_str_key`.
///
/// Believed, not proved: the entries are rearranged, none is lost or
/// doubled, and where each one goes depends on the keys alone. The outside
/// crate hands the slice to the stable sort of the standard library with its
/// own comparison of two keys. The contract relies on that comparison being
/// a total order. The crate's documentation gives the rules of the
/// comparison and does not say so; it is what the source of the comparison
/// shows.
#[verifier::external_body]
fn sort_slice_by_str_key<V>(entries: &mut Vec<(String, V)>)
    ensures
        is_rearrangement(alphanumeric_key_order(entry_keys(old(entries)@)), old(entries)@.len()),
        final(entries)@.len() == old(entries)@.len(),
        forall|i: int|
            0 <= i < final(entries)@.len() ==> (#[trigger] final(entries)@[i])
                == old(entries)@[alphanumeric_key_order(entry_keys(old(entries)@))[i]],
{
    alphanumeric_sort::sort_slice_by_str_key(entries, |entry| entry.0.as_str());
}

/// Puts keyed entries into the order in which their frames play: the
/// alphanumeric order of their keys. No entry is lost, doubled or changed.
pub fn in_playback_order<V>(entries: Vec<(String, V)>) -> (sorted: Vec<(String, V)>)
    ensures
        is_rearrangement(alphanumeric_key_order(entry_keys(entries@)), entries@.len()),
        sorted@.len() == entries@.len(),
        forall|i: int|
            0 <= i < sorted@.len() ==> (#[trigger] sorted@[i]) == entries@[alphanumeric_key_order(
                entry_keys(entries@),
            )[i]],
        forall|j: int| 0 <= j < entries@.len() ==> sorted@.contains(#[trigger] entries@[j]),
{
    let mut sorted = entries;
    sort_slice_by_str_key(&mut sorted);
    proof {
        let order = alphanumeric_key_order(entry_keys(entries@));
        assert forall|j: int| 0 <= j < entries@.len() implies sorted@.contains(
            #[trigger] entries@[j],
        ) by {
            lemma_rearrangement_is_onto(order, entries@.len(), j);
            let i = choose|i: int| 0 <= i < order.len() && order[i] == j;
            assert(sorted@[i] == entries@[j]);
        }
    }
    sorted
}

/// A rearrangement reaches every position.
pub proof fn lemma_rearrangement_is_onto(order: Seq<int>, len: nat, target: int)
    requires
        is_rearrangement(order, len),
        0 <= target < len,
    ensures
        exists|i: int| 0 <= i < order.len() && order[i] == target,
{
    let positions = Set::new(|p: int| 0 <= p < len);
    let reached = order.to_set();
    vstd::set_lib::lemma_int_range(0, len as int);
    assert(positions =~= vstd::set_lib::set_int_range(0, len as int));
    order.unique_seq_to_set();
    assert(reached.subset_of(positions)) by {
        assert forall|p: int| reached.contains(p) implies positions.contains(p) by {
            let i = choose|i: int| 0 <= i < order.len() && order[i] == p;
            assert(0 <= order[i] < len);
        }
    }
    vstd::set_lib::lemma_subset_equality(reached, positions);
    assert(reached.contains(target));
}

} // verus!
