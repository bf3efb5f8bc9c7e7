//! The game model: a fixed-capacity, 2D-addressable sequence of named
//! boolean items.

use vstd::prelude::*;

use crate::mapping::json_mapping;
use crate::mapping::lemma_map_of_pairs_distinct;
use crate::mapping::map_of_pairs;
use crate::mapping::pair_names;
use crate::mapping::pairs_view;
use crate::mapping::parse_mapping;
use crate::mapping::write_mapping;

verus! {

/// One checklist entry: a display name and a completion flag.
#[derive(Clone, PartialEq, Debug)]
pub struct BingoItem {
    pub name: String,
    pub done: bool,
}

impl View for BingoItem {
    type V = (Seq<char>, bool);

    open spec fn view(&self) -> (Seq<char>, bool) {
        (self.name@, self.done)
    }
}

/// Failure to construct a game from a serialized mapping.
#[derive(Clone, Copy, PartialEq, Eq, Structural, Debug)]
pub enum ParseError {
    /// The input is not a valid flat name-to-boolean mapping.
    InvalidMapping,
    /// The requested grid dimension is zero.
    ZeroGridSize,
}

/// A cell coordinate whose computed linear index has no backing item,
/// carried for diagnostics.
#[derive(Clone, Copy, PartialEq, Eq, Structural, Debug)]
pub struct NotFoundError {
    pub row: usize,
    pub col: usize,
}

/// One play-through: an ordered sequence of items, at most
/// `grid_size * grid_size` of them, addressed by `(row, col)` cells.
#[derive(Clone, PartialEq, Debug)]
pub struct BingoGame {
    items: Vec<BingoItem>,
    grid_size: usize,
}

/// The linear index of the cell at `(row, col)` on a grid of dimension `grid`.
pub open spec fn cell_index(row: int, col: int, grid: int) -> int {
    row * grid + col
}

/// The item at linear index `idx`, or `None` where the index lies beyond the
/// populated range.
pub open spec fn spec_cell(items: Seq<(Seq<char>, bool)>, idx: int) -> Option<(Seq<char>, bool)> {
    if 0 <= idx < items.len() {
        Some(items[idx])
    } else {
        None
    }
}

/// The item sequence after setting the completion flag at linear index `idx`
/// to `done`; a sequence with no item at `idx` is left unchanged.
pub open spec fn spec_set_done(
    items: Seq<(Seq<char>, bool)>,
    idx: int,
    done: bool,
) -> Seq<(Seq<char>, bool)> {
    if 0 <= idx < items.len() {
        items.update(idx, (items[idx].0, done))
    } else {
        items
    }
}

impl BingoGame {
    /// The items as a sequence of name/flag pairs, in display order.
    pub closed spec fn items_view(&self) -> Seq<(Seq<char>, bool)> {
        self.items@.map_values(|item: BingoItem| item@)
    }

    /// The grid dimension fixed at construction.
    pub closed spec fn grid(&self) -> int {
        self.grid_size as int
    }

    /// Well-formedness: a positive grid dimension, and no more items than the
    /// grid has cells.
    pub open spec fn wf(&self) -> bool {
        &&& self.grid() >= 1
        &&& self.items_view().len() <= self.grid() * self.grid()
    }

    /// Loads a game from a serialized flat name-to-boolean mapping and a grid
    /// dimension. The entries are taken in an arbitrary order (the source
    /// format is an unordered mapping) and truncated to the grid's capacity.
    pub fn new(json_data: &str, grid_size: usize) -> (r: Result<BingoGame, ParseError>)
        ensures
            r is Ok <==> grid_size >= 1 && json_mapping(json_data@) is Some,
            r == Err::<BingoGame, ParseError>(ParseError::ZeroGridSize) <==> grid_size == 0,
            r == Err::<BingoGame, ParseError>(ParseError::InvalidMapping) <==> grid_size >= 1
                && json_mapping(json_data@) is None,
            r is Ok ==> ({
                let game = r->Ok_0;
                let m = json_mapping(json_data@)->0;
                &&& game.wf()
                &&& game.grid() == grid_size
                &&& game.items_view().len() == vstd::math::min(
                    m.len() as int,
                    grid_size as int * grid_size as int,
                )
                &&& pair_names(game.items_view()).no_duplicates()
                &&& forall|i: int| 0 <= i < game.items_view().len()
                    ==> m.contains_pair(#[trigger] game.items_view()[i].0, game.items_view()[i].1)
                &&& m.len() <= grid_size as int * grid_size as int
                    ==> map_of_pairs(game.items_view()) == m
            }),
    {
        if grid_size == 0 {
            return Err(ParseError::ZeroGridSize);
        }
        let mut pairs = match parse_mapping(json_data) {
            Some(pairs) => pairs,
            None => {
                return Err(ParseError::InvalidMapping);
            },
        };
        let ghost parsed = pairs_view(pairs@);
        let ghost m = json_mapping(json_data@)->0;
        proof {
            lemma_map_of_pairs_distinct(parsed);
        }
        let capacity = match grid_size.checked_mul(grid_size) {
            Some(capacity) => capacity,
            // The mathematical capacity exceeds the machine word, so no
            // sequence held in memory can outgrow it: keep every entry.
            None => usize::MAX,
        };
        pairs.truncate(capacity);
        proof {
            if capacity < parsed.len() {
                assert(pairs_view(pairs@) =~= parsed.subrange(0, capacity as int));
            } else {
                assert(pairs_view(pairs@) =~= parsed);
            }
            assert(pair_names(pairs_view(pairs@)).no_duplicates()) by {
                assert forall|i: int, j: int|
                    0 <= i < pair_names(pairs_view(pairs@)).len()
                        && 0 <= j < pair_names(pairs_view(pairs@)).len() && i != j implies
                    pair_names(pairs_view(pairs@))[i] != pair_names(pairs_view(pairs@))[j] by {
                    assert(pair_names(parsed)[i] != pair_names(parsed)[j]);
                }
            }
        }
        let mut items: Vec<BingoItem> = Vec::new();
        let mut i: usize = 0;
        while i < pairs.len()
            invariant
                i <= pairs.len(),
                items@.len() == i,
                forall|j: int| 0 <= j < i ==> #[trigger] items@[j]@ == pairs_view(pairs@)[j],
            decreases pairs.len() - i,
        {
            let name = pairs[i].0.clone();
            let done = pairs[i].1;
            items.push(BingoItem { name, done });
            i += 1;
        }
        let game = BingoGame { items, grid_size };
        proof {
            assert(game.items_view() =~= pairs_view(pairs@));
            assert(m.len() == parsed.len());
            if m.len() <= grid_size as int * grid_size as int {
                assert(game.items_view() =~= parsed);
            }
        }
        Ok(game)
    }

    /// Returns the item at the linear index `row * grid + col`, or `None`
    /// where that index lies beyond the populated range. The coordinates
    /// themselves are not validated against the grid dimension: an over-large
    /// coordinate whose linear index still lands in range addresses a
    /// different cell, so callers wanting strict addressing must check
    /// `row < grid` and `col < grid` themselves.
    pub fn get_item(&self, row: usize, col: usize) -> (r: Option<&BingoItem>)
        ensures
            match r {
                Some(item) => spec_cell(
                    self.items_view(),
                    cell_index(row as int, col as int, self.grid()),
                ) == Some(item@),
                None => spec_cell(
                    self.items_view(),
                    cell_index(row as int, col as int, self.grid()),
                ) is None,
            },
    {
        let count = self.items.len();
        let index = match row.checked_mul(self.grid_size) {
            Some(scaled) => match scaled.checked_add(col) {
                Some(index) => index,
                None => {
                    return None;
                },
            },
            None => {
                return None;
            },
        };
        if index < count {
            Some(&self.items[index])
        } else {
            None
        }
    }

    /// Sets the completion flag of the item at the linear index
    /// `row * grid + col`. Where that index has no backing item, returns a
    /// `NotFoundError` carrying the coordinates and leaves the game
    /// unchanged.
    pub fn set_item_completed(&mut self, row: usize, col: usize, completed: bool) -> (r: Result<
        (),
        NotFoundError,
    >)
        ensures
            final(self).grid() == old(self).grid(),
            final(self).items_view() == spec_set_done(
                old(self).items_view(),
                cell_index(row as int, col as int, old(self).grid()),
                completed,
            ),
            r is Ok <==> cell_index(row as int, col as int, old(self).grid())
                < old(self).items_view().len(),
            r is Err ==> *final(self) == *old(self) && r->Err_0 == (NotFoundError { row, col }),
            old(self).wf() ==> final(self).wf(),
    {
        let count = self.items.len();
        let index = match row.checked_mul(self.grid_size) {
            Some(scaled) => match scaled.checked_add(col) {
                Some(index) => index,
                None => {
                    return Err(NotFoundError { row, col });
                },
            },
            None => {
                return Err(NotFoundError { row, col });
            },
        };
        if index < count {
            let name = self.items[index].name.clone();
            self.items.set(index, BingoItem { name, done: completed });
            proof {
                assert(self.items_view() =~= spec_set_done(
                    old(self).items_view(),
                    cell_index(row as int, col as int, old(self).grid()),
                    completed,
                ));
            }
            Ok(())
        } else {
            Err(NotFoundError { row, col })
        }
    }

    /// Serializes the game back to a flat name-to-boolean mapping: every
    /// item's name/flag pair is inserted in sequence order, a later item with
    /// the same name overwriting an earlier one.
    pub fn write_to_json(&self) -> (r: String)
        ensures
            json_mapping(r@) == Some(map_of_pairs(self.items_view())),
    {
        let mut pairs: Vec<(String, bool)> = Vec::new();
        let mut i: usize = 0;
        while i < self.items.len()
            invariant
                i <= self.items@.len(),
                pair_names(pairs_view(pairs@)).no_duplicates(),
                map_of_pairs(pairs_view(pairs@)) == map_of_pairs(
                    self.items_view().take(i as int),
                ),
            decreases self.items@.len() - i,
        {
            let name = self.items[i].name.clone();
            let done = self.items[i].done;
            let mut j: usize = 0;
            let mut updated = false;
            while j < pairs.len() && !updated
                invariant
                    j <= pairs@.len(),
                    !updated ==> forall|k: int| 0 <= k < j ==> pairs_view(pairs@)[k].0 != name@,
                    updated ==> j < pairs@.len() && pairs_view(pairs@)[j as int].0 == name@,
                decreases pairs@.len() - j, (if updated { 0int } else { 1int }),
            {
                if pairs[j].0 == name {
                    updated = true;
                } else {
                    j += 1;
                }
            }
            proof {
                lemma_take_step(self.items_view(), i as int);
            }
            if updated {
                let ghost before = pairs_view(pairs@);
                pairs.set(j, (name, done));
                proof {
                    assert(pairs_view(pairs@) =~= before.update(j as int, (before[j as int].0, done)));
                    lemma_map_of_pairs_update(before, j as int, done);
                    assert(pair_names(pairs_view(pairs@)) =~= pair_names(before));
                }
            } else {
                let ghost before = pairs_view(pairs@);
                pairs.push((name, done));
                proof {
                    assert(pairs_view(pairs@) =~= before.push((name@, done)));
                    crate::mapping::lemma_map_of_pairs_push(before, (name@, done));
                    assert(pair_names(pairs_view(pairs@)) =~= pair_names(before).push(name@));
                    assert(pair_names(pairs_view(pairs@)).no_duplicates()) by {
                        let names = pair_names(pairs_view(pairs@));
                        assert forall|a: int, b: int|
                            0 <= a < names.len() && 0 <= b < names.len() && a != b implies
                            names[a] != names[b] by {
                            if a < names.len() - 1 && b < names.len() - 1 {
                                assert(pair_names(before)[a] != pair_names(before)[b]);
                            }
                        }
                    }
                }
            }
            i += 1;
        }
        proof {
            assert(self.items_view().take(self.items@.len() as int) =~= self.items_view());
        }
        write_mapping(&pairs)
    }
}

/// Taking one more element of a pair sequence inserts that element's pair.
proof fn lemma_take_step(s: Seq<(Seq<char>, bool)>, i: int)
    requires
        0 <= i < s.len(),
    ensures
        map_of_pairs(s.take(i + 1)) == map_of_pairs(s.take(i)).insert(s[i].0, s[i].1),
{
    assert(s.take(i + 1).drop_last() =~= s.take(i));
}

/// Over pairwise-distinct names, overwriting the flag beside a name is one
/// mapping insertion.
proof fn lemma_map_of_pairs_update(s: Seq<(Seq<char>, bool)>, j: int, done: bool)
    requires
        pair_names(s).no_duplicates(),
        0 <= j < s.len(),
    ensures
        map_of_pairs(s.update(j, (s[j].0, done))) == map_of_pairs(s).insert(s[j].0, done),
    decreases s.len(),
{
    let updated = s.update(j, (s[j].0, done));
    if j == s.len() - 1 {
        assert(updated.drop_last() =~= s.drop_last());
    } else {
        assert(pair_names(s.drop_last()) =~= pair_names(s).drop_last());
        lemma_map_of_pairs_update(s.drop_last(), j, done);
        assert(updated.drop_last() =~= s.drop_last().update(j, (s[j].0, done)));
        assert(updated.last() == s.last());
        // The overwritten name differs from the last name, so the two
        // insertions commute.
        assert(pair_names(s)[j] != pair_names(s)[s.len() - 1]);
        assert(map_of_pairs(s.drop_last()).insert(s[j].0, done).insert(s.last().0, s.last().1)
            =~= map_of_pairs(s.drop_last()).insert(s.last().0, s.last().1).insert(s[j].0, done));
    }
}

} // verus!
