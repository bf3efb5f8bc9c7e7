//! The serialized name-to-boolean mapping format that games are loaded from
//! and saved to, together with its mathematical model.
//!
//! A serialized mapping is a flat object whose keys are item names and whose
//! values are booleans, e.g. `{"Find a cat":false,"Try new food":true}`.
//! `json_mapping` names the mapping a text denotes (or `None` where the text
//! is not a valid flat name-to-boolean mapping); `map_of_pairs` folds a
//! sequence of name/flag pairs into such a mapping, later pairs overwriting
//! earlier ones.

use vstd::prelude::*;

verus! {

/// The flat name-to-boolean mapping that a serialized text denotes, or `None`
/// where the text is not valid serialized data of that shape. The mapping a
/// text denotes is a function of the text alone; the order in which entries
/// are handed out by a parse is not.
pub uninterp spec fn json_mapping(s: Seq<char>) -> Option<Map<Seq<char>, bool>>;

/// The mapping built by inserting each pair of `s` in order: a later pair
/// with the same name overwrites an earlier one (last-write-wins).
pub open spec fn map_of_pairs(s: Seq<(Seq<char>, bool)>) -> Map<Seq<char>, bool>
    decreases s.len(),
{
    if s.len() == 0 {
        Map::empty()
    } else {
        map_of_pairs(s.drop_last()).insert(s.last().0, s.last().1)
    }
}

/// The names of a sequence of name/flag pairs, in order.
pub open spec fn pair_names(s: Seq<(Seq<char>, bool)>) -> Seq<Seq<char>> {
    s.map_values(|p: (Seq<char>, bool)| p.0)
}

/// The mathematical view of an executable sequence of name/flag pairs.
pub open spec fn pairs_view(s: Seq<(String, bool)>) -> Seq<(Seq<char>, bool)> {
    s.map_values(|p: (String, bool)| (p.0@, p.1))
}

/// `map_of_pairs` grows by one insertion per appended pair.
pub proof fn lemma_map_of_pairs_push(s: Seq<(Seq<char>, bool)>, p: (Seq<char>, bool))
    ensures
        map_of_pairs(s.push(p)) == map_of_pairs(s).insert(p.0, p.1),
{
    assert(s.push(p).drop_last() =~= s);
}

/// Over pairwise-distinct names, `map_of_pairs` holds exactly the pairs of
/// the sequence: its domain is the set of names, it maps each name to the
/// flag beside it, and its size is the length of the sequence.
pub proof fn lemma_map_of_pairs_distinct(s: Seq<(Seq<char>, bool)>)
    requires
        pair_names(s).no_duplicates(),
    ensures
        map_of_pairs(s).dom().finite(),
        map_of_pairs(s).len() == s.len(),
        forall|i: int| 0 <= i < s.len() ==> map_of_pairs(s).contains_pair(#[trigger] s[i].0, s[i].1),
        forall|n: Seq<char>| map_of_pairs(s).dom().contains(n)
            ==> exists|i: int| 0 <= i < s.len() && #[trigger] s[i].0 == n,
    decreases s.len(),
{
    if s.len() > 0 {
        assert(pair_names(s.drop_last()) =~= pair_names(s).drop_last());
        lemma_map_of_pairs_distinct(s.drop_last());
        let prev = map_of_pairs(s.drop_last());
        assert(forall|i: int| 0 <= i < s.len() - 1 ==> #[trigger] s.drop_last()[i] == s[i]);
        assert(!prev.dom().contains(s.last().0)) by {
            if prev.dom().contains(s.last().0) {
                let i = choose|i: int|
                    0 <= i < s.drop_last().len() && #[trigger] s.drop_last()[i].0 == s.last().0;
                assert(pair_names(s)[i] == pair_names(s)[s.len() - 1]);
            }
        }
        assert forall|i: int| 0 <= i < s.len() implies map_of_pairs(s).contains_pair(
            #[trigger] s[i].0,
            s[i].1,
        ) by {
            if i < s.len() - 1 {
                assert(prev.contains_pair(s.drop_last()[i].0, s.drop_last()[i].1));
                assert(pair_names(s)[i] != pair_names(s)[s.len() - 1]);
            }
        }
    }
}

/// Relies on `serde_json::from_str::<HashMap<String, bool>>`: succeeds exactly
/// on texts that are valid flat name-to-boolean mappings, collapsing duplicate
/// keys (the last occurrence wins, as `json_mapping` already accounts for).
/// The set of entries handed back is a function of the text alone; their order
/// (the hash map's iteration order) is not, so nothing is said of it.
#[verifier::external_body]
pub(crate) fn parse_mapping(s: &str) -> (r: Option<Vec<(String, bool)>>)
    ensures
        r is Some <==> json_mapping(s@) is Some,
        r is Some ==> pair_names(pairs_view(r->0@)).no_duplicates(),
        r is Some ==> map_of_pairs(pairs_view(r->0@)) == json_mapping(s@)->0,
{
    match serde_json::from_str::<std::collections::HashMap<String, bool>>(s) {
        Ok(entries) => Some(entries.into_iter().collect()),
        Err(_) => None,
    }
}

/// Relies on `serde_json::to_string` on a `HashMap<&str, bool>`: serializing
/// string keys and boolean values cannot fail, and parsing the produced text
/// back yields the same mapping. The pairs are required to carry distinct
/// names so that building the hash map loses nothing.
#[verifier::external_body]
pub(crate) fn write_mapping(pairs: &Vec<(String, bool)>) -> (r: String)
    requires
        pair_names(pairs_view(pairs@)).no_duplicates(),
    ensures
        json_mapping(r@) == Some(map_of_pairs(pairs_view(pairs@))),
{
    let entries: std::collections::HashMap<&str, bool> =
        pairs.iter().map(|p| (p.0.as_str(), p.1)).collect();
    serde_json::to_string(&entries).unwrap()
}

} // verus!
