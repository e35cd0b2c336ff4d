//! Mitosis: a player's largest mature cells split in two.

use vstd::prelude::*;
use crate::entity::Cell;
use crate::entity::Entity;
use crate::error::WorldError;
use crate::ident::ID;
use crate::ident::ID_COUNT;
use crate::player::Player;
use crate::scalar::Scalar;
use crate::world::cells_of;
use crate::world::lemma_filter_keeps_all;
use crate::world::replacing;
use crate::world::World;
use crate::world::WorldView;

verus! {

/// The most cells that one call of `mitosis` adds to the world.
pub const BROOD_LIMIT: usize = 256;

/// Whether the entry is a cell of the player `owner` that is old enough to
/// split.
pub open spec fn can_split(entry: (ID, Entity), owner: ID) -> bool {
    match entry.1 {
        Entity::Cell(cell) => cell.owned_by(owner) && cell.is_mature(),
        _ => false,
    }
}

/// The raw area of the entry's cell.
pub open spec fn area_of(entry: (ID, Entity)) -> int {
    match entry.1 {
        Entity::Cell(cell) => cell.mass.spec_to_area().raw as int,
        _ => 0,
    }
}

/// Whether an entry can split.
pub open spec fn has_candidate(entries: Seq<(ID, Entity)>, owner: ID) -> bool {
    exists|j: int| 0 <= j < entries.len() && can_split(#[trigger] entries[j], owner)
}

/// Whether the entry at `at` is the one to split next: it can split, none
/// that can has a larger area, and none before it has the same.
pub open spec fn is_largest(entries: Seq<(ID, Entity)>, owner: ID, at: int) -> bool {
    &&& 0 <= at < entries.len()
    &&& can_split(entries[at], owner)
    &&& forall|j: int|
        0 <= j < entries.len() && can_split(#[trigger] entries[j], owner) ==> area_of(entries[j])
            <= area_of(entries[at])
    &&& forall|j: int|
        0 <= j < at && can_split(#[trigger] entries[j], owner) ==> area_of(entries[j]) < area_of(
            entries[at],
        )
}

/// The index of the entry to split next.
pub open spec fn largest(entries: Seq<(ID, Entity)>, owner: ID) -> int {
    choose|at: int| is_largest(entries, owner, at)
}

/// At most one entry is the one to split next.
pub proof fn lemma_largest_unique(entries: Seq<(ID, Entity)>, owner: ID, a: int, b: int)
    requires
        is_largest(entries, owner, a),
        is_largest(entries, owner, b),
    ensures
        a == b,
{
}

/// The entries and the new cells after `rounds` rounds of splitting: in each
/// round the entry to split next, if there is one, is replaced by what
/// remains of its cell, and the cell's sibling joins the new cells.
pub open spec fn split_rounds(entries: Seq<(ID, Entity)>, owner: ID, rounds: nat) -> (
    Seq<(ID, Entity)>,
    Seq<Cell>,
)
    decreases rounds,
{
    if rounds == 0 {
        (entries, Seq::empty())
    } else {
        let earlier = split_rounds(entries, owner, (rounds - 1) as nat);
        if has_candidate(earlier.0, owner) {
            let entry = earlier.0[largest(earlier.0, owner)];
            let cell = entry.1->Cell_0;
            (
                earlier.0.map_values(replacing(entry.0, Entity::Cell(cell.spec_remainder()))),
                earlier.1.push(cell.spec_sibling()),
            )
        } else {
            earlier
        }
    }
}

/// The test that a cell has an area above zero.
pub open spec fn has_area() -> spec_fn(Cell) -> bool {
    |cell: Cell| cell.mass.spec_to_area().raw > 0
}

/// The new cells that get into the world: those with an area above zero,
/// and of them the first `BROOD_LIMIT`.
pub open spec fn brood(siblings: Seq<Cell>) -> Seq<Cell> {
    let alive = siblings.filter(has_area());
    if alive.len() > BROOD_LIMIT {
        alive.take(BROOD_LIMIT as int)
    } else {
        alive
    }
}

/// How many rounds of splitting a player with `count` cells gets: half the
/// count, and two.
pub open spec fn rounds_for(count: nat) -> nat {
    count / 2 + 2
}

/// Whether `after` is `before` with the cells added at the end, in their
/// order and under the next identifiers of the source, as far as the source
/// has identifiers for them.
pub open spec fn joined(before: WorldView, cells: Seq<Cell>, after: WorldView) -> bool {
    let left = ID_COUNT - before.ids.issued();
    let count = if cells.len() <= left {
        cells.len() as int
    } else {
        left
    };
    &&& after.players == before.players
    &&& after.entities.len() == before.entities.len() + count
    &&& after.entities.take(before.entities.len() as int) == before.entities
    &&& after.ids.issued() == before.ids.issued() + count
    &&& forall|k: int|
        0 <= k < count ==> {
            &&& (#[trigger] after.entities[before.entities.len() + k]).0.number()
                == before.ids.issued() + k
            &&& after.entities[before.entities.len() + k].1 == Entity::Cell(cells[k])
        }
}

impl World {
    /// The cell to split next among those of the player `owner`, with its
    /// identifier.
    pub fn largest_candidate(&self, owner: ID) -> (r: Option<(ID, Cell)>)
        ensures
            match r {
                Some(pair) => has_candidate(self@.entities, owner) && self@.entities[largest(
                    self@.entities,
                    owner,
                )] == (pair.0, Entity::Cell(pair.1)),
                None => !has_candidate(self@.entities, owner),
            },
    {
        let entries: Vec<(ID, &Entity)> = self.get_entities();
        let ghost all = self@.entities;
        let maturity: Scalar = Scalar::from_int(8);
        let mut best: Option<(ID, Cell)> = None;
        let mut best_area: Scalar = Scalar::zero();
        let ghost mut best_at: int = 0;
        let mut i: usize = 0;
        while i < entries.len()
            invariant
                i <= entries.len(),
                all == self@.entities,
                entries@.len() == all.len(),
                maturity == Scalar::spec_from_int(8),
                forall|k: int|
                    0 <= k < entries@.len() ==> (#[trigger] entries@[k]).0 == all[k].0
                        && *entries@[k].1 == all[k].1,
                best.is_none() ==> forall|j: int| 0 <= j < i ==> !can_split(#[trigger] all[j], owner),
                best.is_some() ==> {
                    &&& 0 <= best_at < i
                    &&& can_split(all[best_at], owner)
                    &&& all[best_at] == (best.unwrap().0, Entity::Cell(best.unwrap().1))
                    &&& best_area.raw == area_of(all[best_at])
                    &&& forall|j: int|
                        0 <= j < i && can_split(#[trigger] all[j], owner) ==> area_of(all[j])
                            <= area_of(all[best_at])
                    &&& forall|j: int|
                        0 <= j < best_at && can_split(#[trigger] all[j], owner) ==> area_of(all[j])
                            < area_of(all[best_at])
                },
            decreases entries.len() - i,
        {
            let id: ID = entries[i].0;
            match entries[i].1 {
                Entity::Cell(cell) => {
                    if cell.get_player_id() == Some(owner) && maturity.lt(cell.age) {
                        let area: Scalar = cell.get_mass().to_area();
                        if best.is_none() || best_area.lt(area) {
                            best = Some((id, *cell));
                            best_area = area;
                            proof {
                                best_at = i as int;
                            }
                        }
                    }
                },
                _ => {},
            }
            i += 1;
        }
        proof {
            if best.is_some() {
                assert(is_largest(all, owner, best_at));
                lemma_largest_unique(all, owner, best_at, largest(all, owner));
            }
        }
        best
    }

    /// Splits the largest mature cells of `player`. The player gets half as
    /// many rounds as it has cells, and two; each round splits the largest
    /// cell that is mature then. The new cells with an area above zero, at
    /// most `BROOD_LIMIT` of them, join the world.
    pub fn mitosis(&mut self, player: &Player)
        requires
            old(self).wf(),
        ensures
            final(self).wf(),
            ({
                let rounds = rounds_for(cells_of(old(self)@.entities, player.id).len());
                let outcome = split_rounds(old(self)@.entities, player.id, rounds);
                joined(
                    WorldView { entities: outcome.0, ..old(self)@ },
                    brood(outcome.1),
                    final(self)@,
                )
            }),
    {
        let owner: ID = player.get_id();
        let limit: usize = self.get_player_cells(player).len() / 2 + 2;
        let ghost start = self@;
        let mut siblings: Vec<Cell> = Vec::new();
        let mut round: usize = 0;
        while round < limit
            invariant
                round <= limit,
                owner == player.id,
                start == old(self)@,
                self.wf(),
                self@.players == start.players,
                self@.ids == start.ids,
                (self@.entities, siblings@) == split_rounds(start.entities, owner, round as nat),
            decreases limit - round,
        {
            match self.largest_candidate(owner) {
                Some(pair) => {
                    let mut cell: Cell = pair.1;
                    let sibling: Cell = cell.mitosis();
                    self.update_entity(pair.0, Entity::Cell(cell));
                    siblings.push(sibling);
                },
                None => {},
            }
            round += 1;
        }
        let mut born: Vec<Cell> = Vec::new();
        let mut i: usize = 0;
        while i < siblings.len()
            invariant
                i <= siblings.len(),
                born@ == siblings@.take(i as int).filter(has_area()),
            decreases siblings.len() - i,
        {
            proof {
                assert(siblings@.take(i + 1) =~= siblings@.take(i as int).push(siblings@[i as int]));
                siblings@.take(i as int).lemma_filter_push(siblings@[i as int], has_area());
            }
            if Scalar::zero().lt(siblings[i].get_mass().to_area()) {
                born.push(siblings[i]);
            }
            i += 1;
        }
        proof {
            assert(siblings@.take(i as int) =~= siblings@);
        }
        born.truncate(BROOD_LIMIT);

        let ghost split = self@;
        let ghost left = ID_COUNT - split.ids.issued();
        let mut j: usize = 0;
        proof {
            assert(self@.entities.take(split.entities.len() as int) =~= split.entities);
            assert(born@.take(0).len() == 0);
            split.ids.lemma_issued_bounded();
        }
        while j < born.len()
            invariant
                j <= born.len(),
                self.wf(),
                left == ID_COUNT - split.ids.issued(),
                joined(split, born@.take(j as int), self@),
            decreases born.len() - j,
        {
            let ghost prior = self@;
            let added: Option<ID> = self.add_entity(Entity::Cell(born[j]));
            proof {
                let now = self@;
                let cells = born@.take(j + 1);
                assert(now.entities.take(split.entities.len() as int) =~= prior.entities.take(
                    split.entities.len() as int,
                ));
                let count = if cells.len() <= left {
                    cells.len() as int
                } else {
                    left
                };
                assert forall|k: int| 0 <= k < count implies {
                    &&& (#[trigger] now.entities[split.entities.len() + k]).0.number()
                        == split.ids.issued() + k
                    &&& now.entities[split.entities.len() + k].1 == Entity::Cell(cells[k])
                } by {
                    if k < j {
                        assert(now.entities[split.entities.len() + k]
                            == prior.entities[split.entities.len() + k]);
                        assert(cells[k] == born@.take(j as int)[k]);
                    }
                }
            }
            j += 1;
        }
        proof {
            assert(born@.take(j as int) =~= born@);
        }
    }
    /// Splits the largest mature cells of `player` as `mitosis` does, or
    /// reports that the player has none and leaves the world as it is.
    pub fn try_mitosis(&mut self, player: &Player) -> (r: Result<(), WorldError>)
        requires
            old(self).wf(),
        ensures
            final(self).wf(),
            match r {
                Ok(_) => has_candidate(old(self)@.entities, player.id) && ({
                    let rounds = rounds_for(cells_of(old(self)@.entities, player.id).len());
                    let outcome = split_rounds(old(self)@.entities, player.id, rounds);
                    joined(
                        WorldView { entities: outcome.0, ..old(self)@ },
                        brood(outcome.1),
                        final(self)@,
                    )
                }),
                Err(error) => error == WorldError::MitosisNoEligibleCells && !has_candidate(
                    old(self)@.entities,
                    player.id,
                ) && final(self)@ == old(self)@,
            },
    {
        if self.largest_candidate(player.get_id()).is_none() {
            return Err(WorldError::MitosisNoEligibleCells);
        }
        self.mitosis(player);
        Ok(())
    }
}

} // verus!
