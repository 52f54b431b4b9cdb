//! Maps from axis names to numbers (the cells along each axis of a grid, or
//! the cell a point falls in along each axis), kept in the order in which
//! their axes were inserted.
use vstd::prelude::*;

use indexmap::IndexMap;

verus! {

/// The insertion-ordered map of the `indexmap` crate. Its contents are not
/// seen by the verifier; `axis_entries` names them, and `entries_of` reads
/// them.
#[verifier::external_type_specification]
#[verifier::external_body]
#[verifier::reject_recursive_types(K)]
#[verifier::reject_recursive_types(V)]
#[verifier::reject_recursive_types(S)]
pub struct ExIndexMap<K, V, S>(IndexMap<K, V, S>);

/// The entries of an axis map, in their order: each axis name with its
/// number.
pub uninterp spec fn axis_entries(m: IndexMap<String, usize>) -> Seq<(Seq<char>, usize)>;

/// The axis names of a list of entries, in order.
pub open spec fn entry_names(entries: Seq<(Seq<char>, usize)>) -> Seq<Seq<char>> {
    entries.map_values(|e: (Seq<char>, usize)| e.0)
}

/// The numbers of a list of entries, in order.
pub open spec fn entry_numbers(entries: Seq<(Seq<char>, usize)>) -> Seq<usize> {
    entries.map_values(|e: (Seq<char>, usize)| e.1)
}

/// The views of owned entries.
pub open spec fn pair_views(pairs: Seq<(String, usize)>) -> Seq<(Seq<char>, usize)> {
    pairs.map_values(|p: (String, usize)| (p.0@, p.1))
}

/// The number stored for `name` among `entries`, if it is there.
pub open spec fn value_of(entries: Seq<(Seq<char>, usize)>, name: Seq<char>) -> Option<usize> {
    if entry_names(entries).contains(name) {
        Some(entries[entry_names(entries).index_of_first(name)->0].1)
    } else {
        None
    }
}

/// `IndexMap::iter`, each entry turned into an owned pair: the entries of the
/// map in their order. An `IndexMap` holds each key once, so the names that
/// come out are distinct.
#[verifier::external_body]
pub(crate) fn entries_of(m: &IndexMap<String, usize>) -> (r: Vec<(String, usize)>)
    ensures
        pair_views(r@) == axis_entries(*m),
        entry_names(pair_views(r@)).no_duplicates(),
{
    m.iter().map(|(name, number)| (name.clone(), *number)).collect()
}

/// The number stored for `name` among `entries`, found by a search in order.
pub fn find_value(entries: &Vec<(String, usize)>, name: &str) -> (r: Option<usize>)
    ensures
        r == value_of(pair_views(entries@), name@),
{
    let ghost names = entry_names(pair_views(entries@));
    let mut i: usize = 0;
    while i < entries.len()
        invariant
            i <= entries@.len(),
            names == entry_names(pair_views(entries@)),
            forall|k: int| 0 <= k < i ==> names[k] != name@,
        decreases entries.len() - i,
    {
        assert(names[i as int] == entries@[i as int].0@);
        if crate::text::same_text(entries[i].0.as_str(), name) {
            proof {
                names.index_of_first_ensures(name@);
                assert(names.contains(name@));
                let j = names.index_of_first(name@)->0;
                assert(j == i) by {
                    if j < i {
                        assert(names[j] != name@);
                    }
                    if j > i {
                        assert(names[i as int] == name@);
                    }
                }
                assert(pair_views(entries@)[i as int].1 == entries@[i as int].1);
            }
            return Some(entries[i].1);
        }
        i = i + 1;
    }
    proof {
        if names.contains(name@) {
            let k = choose|k: int| 0 <= k < names.len() && names[k] == name@;
            assert(names[k] != name@);
        }
    }
    None
}

} // verus!
