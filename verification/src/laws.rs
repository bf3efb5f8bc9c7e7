//! Laws relating the game operations, stated over the same spec functions
//! that the operations' contracts use.

use vstd::prelude::*;

use crate::game::cell_index;
use crate::game::spec_cell;
use crate::game::spec_set_done;
use crate::mapping::json_mapping;
use crate::mapping::lemma_map_of_pairs_distinct;
use crate::mapping::map_of_pairs;
use crate::mapping::pair_names;

verus! {

/// Write-then-read consistency: after setting the completion flag at a cell,
/// reading the same cell observes an item with the original name and the
/// written flag. `set_item_completed` ensures the new item sequence is
/// `spec_set_done` of the old; `get_item` ensures its result is `spec_cell`
/// of the addressed linear index.
pub proof fn lemma_set_then_get(
    items: Seq<(Seq<char>, bool)>,
    grid: int,
    row: int,
    col: int,
    completed: bool,
)
    requires
        0 <= cell_index(row, col, grid) < items.len(),
    ensures
        spec_cell(
            spec_set_done(items, cell_index(row, col, grid), completed),
            cell_index(row, col, grid),
        ) == Some((items[cell_index(row, col, grid)].0, completed)),
{
}

/// Reading any other populated cell after a write observes the item it held
/// before: a write touches one linear index alone.
pub proof fn lemma_set_preserves_other_cells(
    items: Seq<(Seq<char>, bool)>,
    idx: int,
    other: int,
    completed: bool,
)
    requires
        other != idx,
    ensures
        spec_cell(spec_set_done(items, idx, completed), other) == spec_cell(items, other),
{
}

/// Idempotence: setting the completion flag at a linear index twice in a row
/// yields the same item sequence as setting it once; in particular this holds
/// of an index with no backing item, where both leave the sequence unchanged.
pub proof fn lemma_set_done_idempotent(items: Seq<(Seq<char>, bool)>, idx: int, completed: bool)
    ensures
        spec_set_done(spec_set_done(items, idx, completed), idx, completed) == spec_set_done(
            items,
            idx,
            completed,
        ),
{
    if 0 <= idx < items.len() {
        assert(spec_set_done(spec_set_done(items, idx, completed), idx, completed)
            =~= spec_set_done(items, idx, completed));
    }
}

/// Round trip: a saved game denotes exactly its own items as a set of
/// name/flag pairs, and, the item names being pairwise distinct, each saved
/// pair comes from the source mapping the game was loaded from. Where the
/// source mapping was not truncated at load, the saved text denotes the
/// source mapping itself. The hypotheses are the ensures of `new` (load) and
/// of `write_to_json` (save) with no mutation between them.
pub proof fn lemma_save_round_trip(
    source: Map<Seq<char>, bool>,
    items: Seq<(Seq<char>, bool)>,
    saved: Seq<char>,
)
    requires
        pair_names(items).no_duplicates(),
        forall|i: int| 0 <= i < items.len()
            ==> source.contains_pair(#[trigger] items[i].0, items[i].1),
        json_mapping(saved) == Some(map_of_pairs(items)),
    ensures
        json_mapping(saved) is Some,
        forall|name: Seq<char>, done: bool|
            json_mapping(saved)->0.contains_pair(name, done) <==> items.contains((name, done)),
        forall|name: Seq<char>, done: bool|
            json_mapping(saved)->0.contains_pair(name, done) ==> source.contains_pair(name, done),
        map_of_pairs(items) == source ==> json_mapping(saved)->0 == source,
{
    lemma_map_of_pairs_distinct(items);
    let m = map_of_pairs(items);
    assert forall|name: Seq<char>, done: bool| m.contains_pair(name, done) implies items.contains(
        (name, done),
    ) by {
        let i = choose|i: int| 0 <= i < items.len() && #[trigger] items[i].0 == name;
        assert(m.contains_pair(items[i].0, items[i].1));
        assert(items[i] == (name, done));
    }
    assert forall|name: Seq<char>, done: bool| items.contains((name, done)) implies m.contains_pair(
        name,
        done,
    ) by {
        let i = choose|i: int| 0 <= i < items.len() && items[i] == (name, done);
        assert(m.contains_pair(items[i].0, items[i].1));
    }
}

} // verus!
