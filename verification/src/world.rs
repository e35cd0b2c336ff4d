//! The world: the store of entities, the list of players, and the source of
//! their identifiers.

use vstd::prelude::*;
use crate::color::Color;
use crate::direction::Direction;
use crate::entity::Cell;
use crate::entity::Entity;
use crate::error::WorldError;
use crate::ident::IdSource;
use crate::ident::ID;
use crate::ident::ID_COUNT;
use crate::player::Player;
use crate::position::Position;
use crate::scalar::Scalar;
use crate::speed::Speed;

verus! {

/// The world. Its entities are kept in the order in which they were added,
/// which is the order of their identifiers.
#[derive(Clone, Debug, PartialEq, Eq)]
pub struct World {
    players: Vec<Player>,
    entities: Vec<(ID, Entity)>,
    ids: IdSource,
}

/// What a world holds.
pub struct WorldView {
    /// The players, in the order in which they joined.
    pub players: Seq<Player>,
    /// The entities with their identifiers, in the order in which they were
    /// added.
    pub entities: Seq<(ID, Entity)>,
    /// The source of the identifiers of both.
    pub ids: IdSource,
}

impl View for World {
    type V = WorldView;

    closed spec fn view(&self) -> WorldView {
        WorldView { players: self.players@, entities: self.entities@, ids: self.ids }
    }
}

/// Whether the identifiers of the entries rise from each entry to the next.
pub open spec fn ascending(entries: Seq<(ID, Entity)>) -> bool {
    forall|i: int, j: int|
        0 <= i < j < entries.len() ==> (#[trigger] entries[i]).0.number() < (
        #[trigger] entries[j]).0.number()
}

/// Whether an entry has the identifier `id`.
pub open spec fn holds(entries: Seq<(ID, Entity)>, id: ID) -> bool {
    exists|i: int| 0 <= i < entries.len() && (#[trigger] entries[i]).0 == id
}

/// Whether a player has the identifier `id`.
pub open spec fn lists(players: Seq<Player>, id: ID) -> bool {
    exists|i: int| 0 <= i < players.len() && (#[trigger] players[i]).id == id
}

/// The entity of the first entry with identifier `id`.
pub open spec fn found(entries: Seq<(ID, Entity)>, id: ID) -> Option<Entity>
    decreases entries.len(),
{
    if entries.len() == 0 {
        None
    } else if entries.first().0 == id {
        Some(entries.first().1)
    } else {
        found(entries.drop_first(), id)
    }
}

/// The first player with identifier `id`.
pub open spec fn listed(players: Seq<Player>, id: ID) -> Option<Player>
    decreases players.len(),
{
    if players.len() == 0 {
        None
    } else if players.first().id == id {
        Some(players.first())
    } else {
        listed(players.drop_first(), id)
    }
}

/// `found` gives the entry at `at` where no earlier entry has the
/// identifier.
pub proof fn lemma_found_at(entries: Seq<(ID, Entity)>, id: ID, at: int)
    requires
        0 <= at < entries.len(),
        entries[at].0 == id,
        forall|k: int| 0 <= k < at ==> (#[trigger] entries[k]).0 != id,
    ensures
        found(entries, id) == Some(entries[at].1),
    decreases at,
{
    if at > 0 {
        let rest = entries.drop_first();
        assert(entries[0].0 != id);
        assert forall|k: int| 0 <= k < at - 1 implies (#[trigger] rest[k]).0 != id by {
            assert(rest[k] == entries[k + 1]);
        }
        lemma_found_at(rest, id, at - 1);
    }
}

/// `found` gives nothing exactly where no entry has the identifier, and
/// else an entity that stands under it.
pub proof fn lemma_found_holds(entries: Seq<(ID, Entity)>, id: ID)
    ensures
        found(entries, id).is_some() <==> holds(entries, id),
        found(entries, id).is_some() ==> entries.contains((id, found(entries, id).unwrap())),
    decreases entries.len(),
{
    if entries.len() > 0 {
        let rest = entries.drop_first();
        lemma_found_holds(rest, id);
        if entries.first().0 == id {
            assert(entries[0] == (id, entries.first().1));
        } else {
            if holds(entries, id) {
                let i = choose|i: int| 0 <= i < entries.len() && (#[trigger] entries[i]).0 == id;
                assert(rest[i - 1] == entries[i]);
            }
            if holds(rest, id) {
                let i = choose|i: int| 0 <= i < rest.len() && (#[trigger] rest[i]).0 == id;
                assert(entries[i + 1] == rest[i]);
                let e = found(rest, id).unwrap();
                let k = choose|k: int| 0 <= k < rest.len() && rest[k] == (id, e);
                assert(entries[k + 1] == rest[k]);
            }
        }
    }
}

/// `listed` gives the player at `at` where no earlier player has the
/// identifier.
pub proof fn lemma_listed_at(players: Seq<Player>, id: ID, at: int)
    requires
        0 <= at < players.len(),
        players[at].id == id,
        forall|k: int| 0 <= k < at ==> (#[trigger] players[k]).id != id,
    ensures
        listed(players, id) == Some(players[at]),
    decreases at,
{
    if at > 0 {
        let rest = players.drop_first();
        assert(players[0].id != id);
        assert forall|k: int| 0 <= k < at - 1 implies (#[trigger] rest[k]).id != id by {
            assert(rest[k] == players[k + 1]);
        }
        lemma_listed_at(rest, id, at - 1);
    }
}

/// `listed` gives nothing where no player has the identifier.
pub proof fn lemma_listed_none(players: Seq<Player>, id: ID)
    requires
        !lists(players, id),
    ensures
        listed(players, id).is_none(),
    decreases players.len(),
{
    if players.len() > 0 {
        let rest = players.drop_first();
        assert(players[0].id != id);
        assert(!lists(rest, id)) by {
            if lists(rest, id) {
                let i = choose|i: int| 0 <= i < rest.len() && (#[trigger] rest[i]).id == id;
                assert(players[i + 1] == rest[i]);
            }
        }
        lemma_listed_none(rest, id);
    }
}

/// The test that an entry's identifier is not in `gone`.
pub open spec fn absent_from(gone: Set<ID>) -> spec_fn((ID, Entity)) -> bool {
    |entry: (ID, Entity)| !gone.contains(entry.0)
}

/// The test that a player's identifier is not in `gone`.
pub open spec fn player_absent_from(gone: Set<ID>) -> spec_fn(Player) -> bool {
    |player: Player| !gone.contains(player.id)
}

/// The change that puts `entity` in the place of the entry with identifier
/// `id`.
pub open spec fn replacing(id: ID, entity: Entity) -> spec_fn((ID, Entity)) -> (ID, Entity) {
    |entry: (ID, Entity)|
        if entry.0 == id {
            (id, entity)
        } else {
            entry
        }
}

/// The cell of an entry, if it is one; with an owner given, if it is one that
/// this player owns.
pub open spec fn cell_picked(owner: Option<ID>) -> spec_fn((ID, Entity)) -> Option<Cell> {
    |entry: (ID, Entity)|
        match entry.1 {
            Entity::Cell(cell) => if owner.is_none() || cell.owner() == owner {
                Some(cell)
            } else {
                None
            },
            _ => None,
        }
}

/// The cells among the entries, in their order.
pub open spec fn cells_in(entries: Seq<(ID, Entity)>) -> Seq<Cell> {
    entries.filter_map(cell_picked(None))
}

/// The cells among the entries that the player `owner` owns, in their order.
pub open spec fn cells_of(entries: Seq<(ID, Entity)>, owner: ID) -> Seq<Cell> {
    entries.filter_map(cell_picked(Some(owner)))
}

/// The change that sets the steering of the player with identifier `id`.
pub open spec fn steering_player(id: ID, direction: Direction, speed: Speed) -> spec_fn(
    Player,
) -> Player {
    |player: Player|
        if player.id == id {
            Player { direction, speed, ..player }
        } else {
            player
        }
}

/// The change that sets the velocity of the cells that the player `owner`
/// owns.
pub open spec fn steering_cells(owner: ID, direction: Direction, speed: Speed) -> spec_fn(
    (ID, Entity),
) -> (ID, Entity) {
    |entry: (ID, Entity)|
        match entry.1 {
            Entity::Cell(cell) => if cell.owned_by(owner) {
                (entry.0, Entity::Cell(Cell { direction, speed, ..cell }))
            } else {
                entry
            },
            _ => entry,
        }
}

/// The sum of the areas of the cells, added up from the first to the last.
pub open spec fn total_area(cells: Seq<Cell>) -> Scalar
    decreases cells.len(),
{
    if cells.len() == 0 {
        Scalar::spec_zero()
    } else {
        total_area(cells.drop_last()).spec_add(cells.last().mass.spec_to_area())
    }
}

/// A cell's position times its area.
pub open spec fn weighted_position() -> spec_fn(Cell) -> Position {
    |cell: Cell| cell.position.spec_scale(cell.mass.spec_to_area())
}

/// The centre of the cells, each weighted by its area: the average of the
/// weighted positions, over the average area.
pub open spec fn centroid(cells: Seq<Cell>) -> Position {
    let mean_area = total_area(cells).spec_div(Scalar::spec_from_count(cells.len() as usize));
    Position::spec_average(cells.map_values(weighted_position())).spec_scale(
        Scalar::spec_one().spec_div(mean_area),
    )
}

/// The test that a player owns a cell among the entries.
pub open spec fn owns_cell_in(entries: Seq<(ID, Entity)>) -> spec_fn(Player) -> bool {
    |player: Player| cells_of(entries, player.id).len() > 0
}

/// Whether the entity is the first cell of the new player `owner`: a random
/// cell that has got `owner` as its player, and stands still.
pub open spec fn is_first_cell(entity: Entity, owner: Player) -> bool {
    exists|cell: Cell|
        cell.is_seeded() && entity == Entity::Cell(
            Cell { player: Some(owner), speed: Speed(Scalar::spec_zero()), ..cell },
        )
}

impl WorldView {
    /// The validity of a world: the identifiers of its entities rise, those
    /// of its players differ from one another and from those of the
    /// entities, and all of them have come out of the world's source.
    pub open spec fn wf(self) -> bool {
        &&& ascending(self.entities)
        &&& forall|i: int|
            0 <= i < self.entities.len() ==> self.ids.has_issued((#[trigger] self.entities[i]).0)
        &&& forall|i: int, j: int|
            0 <= i < j < self.players.len() ==> (#[trigger] self.players[i]).id != (
            #[trigger] self.players[j]).id
        &&& forall|i: int|
            0 <= i < self.players.len() ==> self.ids.has_issued((#[trigger] self.players[i]).id)
        &&& forall|i: int, j: int|
            0 <= i < self.players.len() && 0 <= j < self.entities.len() ==> (
            #[trigger] self.players[i]).id != (#[trigger] self.entities[j]).0
    }
}

/// A filter keeps a sequence whose elements all pass.
pub proof fn lemma_filter_keeps_all<A>(s: Seq<A>, pred: spec_fn(A) -> bool)
    requires
        forall|i: int| 0 <= i < s.len() ==> pred(#[trigger] s[i]),
    ensures
        s.filter(pred) == s,
    decreases s.len(),
{
    reveal(Seq::filter);
    if s.len() > 0 {
        lemma_filter_keeps_all(s.drop_last(), pred);
        assert(s.drop_last().push(s.last()) =~= s);
    }
}

/// Among entries whose identifiers differ, taking out the one at index `at`
/// is keeping those whose identifier is not its.
pub proof fn lemma_remove_is_filter(entries: Seq<(ID, Entity)>, at: int)
    requires
        ascending(entries),
        0 <= at < entries.len(),
    ensures
        entries.remove(at) == entries.filter(absent_from(set![entries[at].0])),
    decreases entries.len(),
{
    reveal(Seq::filter);
    let pred = absent_from(set![entries[at].0]);
    let front = entries.drop_last();
    if at == entries.len() - 1 {
        assert forall|i: int| 0 <= i < front.len() implies pred(#[trigger] front[i]) by {
            assert(front[i] == entries[i]);
        }
        lemma_filter_keeps_all(front, pred);
        assert(entries.remove(at) =~= front);
    } else {
        assert(front[at] == entries[at]);
        assert(ascending(front)) by {
            assert forall|i: int, j: int| 0 <= i < j < front.len() implies (
            #[trigger] front[i]).0.number() < (#[trigger] front[j]).0.number() by {
                assert(front[i] == entries[i] && front[j] == entries[j]);
            }
        }
        lemma_remove_is_filter(front, at);
        assert(pred(entries.last()));
        assert(entries.remove(at) =~= front.remove(at).push(entries.last()));
    }
}

/// Where no entry has the identifier, keeping those without it keeps all.
pub proof fn lemma_filter_of_stranger(entries: Seq<(ID, Entity)>, id: ID)
    requires
        !holds(entries, id),
    ensures
        entries.filter(absent_from(set![id])) == entries,
{
    lemma_filter_keeps_all(entries, absent_from(set![id]));
}

/// Keeping what is not in `first` and then what is not in `second` is
/// keeping what is in neither.
pub proof fn lemma_filter_twice(entries: Seq<(ID, Entity)>, first: Set<ID>, second: Set<ID>)
    ensures
        entries.filter(absent_from(first)).filter(absent_from(second)) == entries.filter(
            absent_from(first.union(second)),
        ),
    decreases entries.len(),
{
    reveal(Seq::filter);
    if entries.len() > 0 {
        let front = entries.drop_last();
        let last = entries.last();
        lemma_filter_twice(front, first, second);
        if !first.contains(last.0) {
            let once = entries.filter(absent_from(first));
            assert(once == front.filter(absent_from(first)).push(last));
            assert(once.drop_last() =~= front.filter(absent_from(first)));
            assert(once.last() == last);
        }
    }
}

/// What a filter by identifiers keeps: its entries rise as those it came
/// from, each of them was there before, and none has an identifier of `gone`.
pub proof fn lemma_filter_entries(entries: Seq<(ID, Entity)>, gone: Set<ID>)
    requires
        ascending(entries),
    ensures
        ascending(entries.filter(absent_from(gone))),
        forall|i: int|
            0 <= i < entries.filter(absent_from(gone)).len() ==> entries.contains(
                #[trigger] entries.filter(absent_from(gone))[i],
            ) && !gone.contains(entries.filter(absent_from(gone))[i].0),
        forall|i: int|
            0 <= i < entries.len() && !gone.contains(entries[i].0) ==> entries.filter(
                absent_from(gone),
            ).contains(#[trigger] entries[i]),
{
    lemma_filter_keeps_order(entries, absent_from(gone));
}

/// What a filter keeps of entries: they rise as those they came from, each
/// of them was there before and passes the test, and whatever passes the
/// test is kept.
pub proof fn lemma_filter_keeps_order(
    entries: Seq<(ID, Entity)>,
    pred: spec_fn((ID, Entity)) -> bool,
)
    requires
        ascending(entries),
    ensures
        ascending(entries.filter(pred)),
        forall|i: int|
            0 <= i < entries.filter(pred).len() ==> entries.contains(
                #[trigger] entries.filter(pred)[i],
            ) && pred(entries.filter(pred)[i]),
        forall|i: int|
            0 <= i < entries.len() && pred(entries[i]) ==> entries.filter(pred).contains(
                #[trigger] entries[i],
            ),
    decreases entries.len(),
{
    reveal(Seq::filter);
    let kept = entries.filter(pred);
    if entries.len() > 0 {
        let front = entries.drop_last();
        assert(ascending(front)) by {
            assert forall|i: int, j: int| 0 <= i < j < front.len() implies (
            #[trigger] front[i]).0.number() < (#[trigger] front[j]).0.number() by {
                assert(front[i] == entries[i] && front[j] == entries[j]);
            }
        }
        lemma_filter_keeps_order(front, pred);
        let kept_front = front.filter(pred);
        assert forall|i: int| 0 <= i < kept.len() implies entries.contains(#[trigger] kept[i])
            && pred(kept[i]) by {
            if i < kept_front.len() {
                assert(kept[i] == kept_front[i]);
                assert(front.contains(kept_front[i]));
                let k = choose|k: int| 0 <= k < front.len() && front[k] == kept_front[i];
                assert(entries[k] == kept[i]);
            } else {
                assert(kept[i] == entries.last());
                assert(entries[entries.len() - 1] == kept[i]);
            }
        }
        assert forall|i: int, j: int| 0 <= i < j < kept.len() implies (
        #[trigger] kept[i]).0.number() < (#[trigger] kept[j]).0.number() by {
            if j < kept_front.len() {
                assert(kept[i] == kept_front[i] && kept[j] == kept_front[j]);
            } else {
                assert(kept[j] == entries.last());
                assert(kept[i] == kept_front[i]);
                assert(front.contains(kept_front[i]));
                let k = choose|k: int| 0 <= k < front.len() && front[k] == kept_front[i];
                assert(entries[k] == kept[i]);
                assert(entries[entries.len() - 1] == kept[j]);
            }
        }
        assert forall|i: int| 0 <= i < entries.len() && pred(entries[i]) implies kept.contains(
            #[trigger] entries[i],
        ) by {
            if i < front.len() {
                assert(front[i] == entries[i]);
                assert(kept_front.contains(front[i]));
                let k = choose|k: int| 0 <= k < kept_front.len() && kept_front[k] == front[i];
                assert(kept[k] == entries[i]);
            } else {
                assert(kept[kept.len() - 1] == entries[i]);
            }
        }
    }
}

/// The test that an entry is no cell, or a cell whose owner is one of the
/// players.
pub open spec fn has_listed_owner(players: Seq<Player>) -> spec_fn((ID, Entity)) -> bool {
    |entry: (ID, Entity)|
        match entry.1 {
            Entity::Cell(cell) => match cell.owner() {
                Some(id) => lists(players, id),
                None => false,
            },
            _ => true,
        }
}

impl WorldView {
    /// The world without the players that own no cell.
    pub open spec fn without_idle_players(self) -> WorldView {
        WorldView { players: self.players.filter(owns_cell_in(self.entities)), ..self }
    }

    /// The world without the cells that have no owner among the players.
    pub open spec fn without_orphans(self) -> WorldView {
        WorldView { entities: self.entities.filter(has_listed_owner(self.players)), ..self }
    }

    /// The world without the players that own no cell, and without the cells
    /// that have no owner among the players.
    pub open spec fn pruned(self) -> WorldView {
        WorldView {
            players: self.players.filter(owns_cell_in(self.entities)),
            entities: self.entities.filter(has_listed_owner(self.players)),
            ids: self.ids,
        }
    }
}

/// Two tests that agree on every element of a sequence keep the same of it.
pub proof fn lemma_filter_same<A>(s: Seq<A>, first: spec_fn(A) -> bool, second: spec_fn(A) -> bool)
    requires
        forall|i: int| 0 <= i < s.len() ==> first(#[trigger] s[i]) == second(s[i]),
    ensures
        s.filter(first) == s.filter(second),
    decreases s.len(),
{
    reveal(Seq::filter);
    if s.len() > 0 {
        let front = s.drop_last();
        assert forall|i: int| 0 <= i < front.len() implies first(#[trigger] front[i]) == second(
            front[i],
        ) by {
            assert(front[i] == s[i]);
        }
        lemma_filter_same(front, first, second);
        assert(s.last() == s[s.len() - 1]);
    }
}

/// Taking the orphans out of the entries takes no cell from a player on the
/// list.
pub proof fn lemma_orphans_own_nothing(entries: Seq<(ID, Entity)>, players: Seq<Player>, owner: ID)
    requires
        lists(players, owner),
    ensures
        cells_of(entries.filter(has_listed_owner(players)), owner) == cells_of(entries, owner),
    decreases entries.len(),
{
    reveal(Seq::filter);
    let pred = has_listed_owner(players);
    if entries.len() > 0 {
        let front = entries.drop_last();
        let last = entries.last();
        lemma_orphans_own_nothing(front, players, owner);
        let kept = entries.filter(pred);
        let kept_front = front.filter(pred);
        if pred(last) {
            assert(kept == kept_front.push(last));
            assert(kept.drop_last() =~= kept_front);
            assert(kept.last() == last);
        } else {
            assert(cell_picked(Some(owner))(last).is_none());
        }
    }
}

/// What pruning leaves: the players are those that own a cell among the
/// entities that are left, and every cell that is left has its owner among
/// the players that are left. It makes no difference which of the two goes
/// first, the orphans or the players without a cell.
pub proof fn lemma_pruned(world: WorldView)
    ensures
        world.pruned() == world.without_orphans().without_idle_players(),
        world.pruned().players == world.players.filter(owns_cell_in(world.pruned().entities)),
        forall|i: int|
            0 <= i < world.pruned().players.len() ==> cells_of(
                world.pruned().entities,
                (#[trigger] world.pruned().players[i]).id,
            ).len() > 0,
        forall|i: int|
            0 <= i < world.pruned().entities.len() ==> has_listed_owner(world.pruned().players)(
                #[trigger] world.pruned().entities[i],
            ),
{
    let after = world.pruned();
    let keep = owns_cell_in(world.entities);
    let keep_after = owns_cell_in(after.entities);
    let listed_before = has_listed_owner(world.players);
    assert forall|i: int| 0 <= i < world.players.len() implies keep(#[trigger] world.players[i])
        == keep_after(world.players[i]) by {
        lemma_orphans_own_nothing(world.entities, world.players, world.players[i].id);
    }
    lemma_filter_same(world.players, keep, keep_after);
    assert forall|i: int| 0 <= i < after.players.len() implies world.players.contains(
        #[trigger] after.players[i],
    ) && keep(after.players[i]) by {
        world.players.lemma_filter_pred(keep, i);
        world.players.lemma_filter_contains_rev(keep, after.players[i]);
    }
    assert forall|i: int| 0 <= i < after.players.len() implies cells_of(
        after.entities,
        (#[trigger] after.players[i]).id,
    ).len() > 0 by {
        lemma_orphans_own_nothing(world.entities, world.players, after.players[i].id);
    }
    assert forall|i: int| 0 <= i < after.entities.len() implies has_listed_owner(after.players)(
        #[trigger] after.entities[i],
    ) by {
        let entry = after.entities[i];
        world.entities.lemma_filter_pred(listed_before, i);
        world.entities.lemma_filter_contains_rev(listed_before, entry);
        match entry.1 {
            Entity::Cell(cell) => {
                let id = cell.owner().unwrap();
                let j = choose|j: int|
                    0 <= j < world.players.len() && (#[trigger] world.players[j]).id == id;
                let at = choose|at: int|
                    0 <= at < world.entities.len() && world.entities[at] == entry;
                lemma_owner_keeps(world.entities, id, at);
                assert(keep(world.players[j]));
                world.players.lemma_filter_contains(keep, j);
                let k = choose|k: int|
                    0 <= k < after.players.len() && after.players[k] == world.players[j];
                assert(after.players[k].id == id);
            },
            _ => {},
        }
    }
}

/// A player owns a cell among the entries where one of them is a cell of its.
pub proof fn lemma_owner_keeps(entries: Seq<(ID, Entity)>, owner: ID, at: int)
    requires
        0 <= at < entries.len(),
        cell_picked(Some(owner))(entries[at]).is_some(),
    ensures
        cells_of(entries, owner).len() > 0,
{
    lemma_rank_below(entries, Some(owner), at, entries.len() as int);
    assert(entries.take(entries.len() as int) =~= entries);
}

/// A valid world stays valid when an entity takes the place of another.
pub proof fn lemma_wf_replacing(world: WorldView, id: ID, entity: Entity)
    requires
        world.wf(),
    ensures
        (WorldView { entities: world.entities.map_values(replacing(id, entity)), ..world }).wf(),
{
    let now = world.entities.map_values(replacing(id, entity));
    assert forall|k: int| 0 <= k < now.len() implies (#[trigger] now[k]).0 == world.entities[k].0 by {}
}

/// Whether `after` has the players and the source of `before`, and as many
/// entities, under the same identifiers.
pub open spec fn same_identities(before: WorldView, after: WorldView) -> bool {
    &&& after.players == before.players
    &&& after.ids == before.ids
    &&& after.entities.len() == before.entities.len()
    &&& forall|i: int|
        0 <= i < before.entities.len() ==> (#[trigger] after.entities[i]).0 == before.entities[i].0
}

/// A valid world stays valid when its entities change under their
/// identifiers.
pub proof fn lemma_wf_same_identities(before: WorldView, after: WorldView)
    requires
        before.wf(),
        same_identities(before, after),
    ensures
        after.wf(),
{
    assert forall|i: int, j: int| 0 <= i < j < after.entities.len() implies (
    #[trigger] after.entities[i]).0.number() < (#[trigger] after.entities[j]).0.number() by {
        assert(before.entities[i].0.number() < before.entities[j].0.number());
    }
    assert forall|i: int| 0 <= i < after.entities.len() implies after.ids.has_issued(
        (#[trigger] after.entities[i]).0,
    ) by {
        assert(before.ids.has_issued(before.entities[i].0));
    }
    assert forall|i: int, j: int|
        0 <= i < after.players.len() && 0 <= j < after.entities.len() implies (
    #[trigger] after.players[i]).id != (#[trigger] after.entities[j]).0 by {
        assert(before.players[i].id != before.entities[j].0);
    }
}

/// A valid world stays valid when a player leaves it.
pub proof fn lemma_wf_without_player(world: WorldView, at: int)
    requires
        world.wf(),
        0 <= at < world.players.len(),
    ensures
        (WorldView { players: world.players.remove(at), ..world }).wf(),
{
    let before = world.players;
    let now = world.players.remove(at);
    assert forall|k: int| 0 <= k < now.len() implies #[trigger] now[k] == before[if k < at {
        k
    } else {
        k + 1
    }] by {}
    assert forall|a: int, b: int| 0 <= a < b < now.len() implies (#[trigger] now[a]).id != (
    #[trigger] now[b]).id by {
        let a0 = if a < at { a } else { a + 1 };
        let b0 = if b < at { b } else { b + 1 };
        assert(now[a] == before[a0] && now[b] == before[b0]);
    }
}

impl World {
    /// The validity of the world: that of what it holds.
    pub open spec fn wf(&self) -> bool {
        self@.wf()
    }

    /// An empty world, whose source has handed out nothing yet.
    pub fn new() -> (r: World)
        ensures
            r.wf(),
            r@.players.len() == 0,
            r@.entities.len() == 0,
            r@.ids.issued() == 0,
    {
        World { players: Vec::new(), entities: Vec::new(), ids: IdSource::new() }
    }

    /// An empty world that takes its identifiers from `ids`.
    pub fn with_source(ids: IdSource) -> (r: World)
        ensures
            r.wf(),
            r@.players.len() == 0,
            r@.entities.len() == 0,
            r@.ids == ids,
    {
        World { players: Vec::new(), entities: Vec::new(), ids }
    }

    /// Puts a world together from its parts, if they make a valid one.
    pub fn from_parts(players: Vec<Player>, entities: Vec<(ID, Entity)>, ids: IdSource) -> (r:
        Option<World>)
        ensures
            match r {
                Some(world) => world.wf() && world@ == (WorldView {
                    players: players@,
                    entities: entities@,
                    ids,
                }),
                None => !(WorldView { players: players@, entities: entities@, ids }).wf(),
            },
    {
        let ghost parts = WorldView { players: players@, entities: entities@, ids };
        let issued: u64 = ID_COUNT - ids.remaining();
        let mut i: usize = 0;
        while i < entities.len()
            invariant
                i <= entities.len(),
                issued == ids.issued(),
                parts == (WorldView { players: players@, entities: entities@, ids }),
                forall|a: int, b: int|
                    0 <= a < b < i ==> (#[trigger] entities@[a]).0.number() < (
                    #[trigger] entities@[b]).0.number(),
                forall|a: int| 0 <= a < i ==> ids.has_issued((#[trigger] entities@[a]).0),
            decreases entities.len() - i,
        {
            let number: u64 = entities[i].0.to_number() as u64;
            if number >= issued {
                proof {
                    assert(!ids.has_issued(parts.entities[i as int].0));
                }
                return None;
            }
            if i > 0 && entities[i - 1].0.to_number() as u64 >= number {
                proof {
                    assert(parts.entities[i - 1].0.number() >= parts.entities[i as int].0.number());
                }
                return None;
            }
            proof {
                assert forall|a: int, b: int| 0 <= a < b < i + 1 implies (
                #[trigger] entities@[a]).0.number() < (#[trigger] entities@[b]).0.number() by {
                    if b == i && a < i - 1 {
                        assert(entities@[a].0.number() < entities@[i - 1].0.number());
                    }
                }
            }
            i += 1;
        }
        let mut j: usize = 0;
        while j < players.len()
            invariant
                j <= players.len(),
                issued == ids.issued(),
                parts == (WorldView { players: players@, entities: entities@, ids }),
                forall|a: int, b: int|
                    0 <= a < b < j ==> (#[trigger] players@[a]).id != (#[trigger] players@[b]).id,
                forall|a: int| 0 <= a < j ==> ids.has_issued((#[trigger] players@[a]).id),
                forall|a: int, b: int|
                    0 <= a < j && 0 <= b < entities@.len() ==> (#[trigger] players@[a]).id != (
                    #[trigger] entities@[b]).0,
            decreases players.len() - j,
        {
            let id: ID = players[j].id;
            if id.to_number() as u64 >= issued {
                proof {
                    assert(!ids.has_issued(parts.players[j as int].id));
                }
                return None;
            }
            let mut k: usize = 0;
            while k < j
                invariant
                    k <= j < players.len(),
                    id == players@[j as int].id,
                    parts == (WorldView { players: players@, entities: entities@, ids }),
                    forall|a: int| 0 <= a < k ==> (#[trigger] players@[a]).id != id,
                decreases j - k,
            {
                if players[k].id == id {
                    proof {
                        assert(parts.players[k as int].id == parts.players[j as int].id);
                    }
                    return None;
                }
                k += 1;
            }
            let mut m: usize = 0;
            while m < entities.len()
                invariant
                    m <= entities.len(),
                    j < players.len(),
                    id == players@[j as int].id,
                    parts == (WorldView { players: players@, entities: entities@, ids }),
                    forall|b: int| 0 <= b < m ==> (#[trigger] entities@[b]).0 != id,
                decreases entities.len() - m,
            {
                if entities[m].0 == id {
                    proof {
                        assert(parts.players[j as int].id == parts.entities[m as int].0);
                    }
                    return None;
                }
                m += 1;
            }
            j += 1;
        }
        Some(World { players, entities, ids })
    }

    /// How many identifiers the world's source can still hand out.
    pub fn ids_left(&self) -> (r: u64)
        ensures
            r == ID_COUNT - self@.ids.issued(),
    {
        self.ids.remaining()
    }

    /// The index of the entry with identifier `id`.
    fn index_of(&self, id: ID) -> (r: Option<usize>)
        ensures
            match r {
                Some(at) => at < self@.entities.len() && self@.entities[at as int].0 == id
                    && found(self@.entities, id) == Some(self@.entities[at as int].1),
                None => !holds(self@.entities, id) && found(self@.entities, id).is_none(),
            },
    {
        let mut i: usize = 0;
        while i < self.entities.len()
            invariant
                i <= self.entities.len(),
                forall|k: int| 0 <= k < i ==> (#[trigger] self.entities@[k]).0 != id,
            decreases self.entities.len() - i,
        {
            if self.entities[i].0 == id {
                proof {
                    lemma_found_at(self.entities@, id, i as int);
                }
                return Some(i);
            }
            i += 1;
        }
        proof {
            lemma_found_holds(self.entities@, id);
        }
        None
    }

    /// Adds the entity under the next identifier of the world's source, and
    /// returns that identifier: one that no entity and no player of the world
    /// had before. Nothing else changes. Where the source has none left,
    /// nothing is added.
    pub fn add_entity(&mut self, entity: Entity) -> (r: Option<ID>)
        requires
            old(self).wf(),
        ensures
            final(self).wf(),
            final(self)@.players == old(self)@.players,
            old(self)@.ids.exhausted() ==> r.is_none() && final(self)@ == old(self)@,
            !old(self)@.ids.exhausted() ==> {
                &&& r.is_some()
                &&& r.unwrap().number() == old(self)@.ids.issued()
                &&& final(self)@.ids.issued() == old(self)@.ids.issued() + 1
                &&& final(self)@.entities == old(self)@.entities.push((r.unwrap(), entity))
                &&& !holds(old(self)@.entities, r.unwrap())
                &&& !lists(old(self)@.players, r.unwrap())
                &&& found(final(self)@.entities, r.unwrap()) == Some(entity)
            },
    {
        match ID::new(&mut self.ids) {
            Some(id) => {
                self.entities.push((id, entity));
                proof {
                    assert(self@.players == old(self)@.players);
                    let before = old(self)@;
                    assert forall|k: int| 0 <= k < before.entities.len() implies (
                    #[trigger] before.entities[k]).0 != id by {
                        assert(before.ids.has_issued(before.entities[k].0));
                    }
                    assert forall|k: int| 0 <= k < before.players.len() implies (
                    #[trigger] before.players[k]).id != id by {
                        assert(before.ids.has_issued(before.players[k].id));
                    }
                    assert forall|k: int| 0 <= k < before.entities.len() implies (
                    #[trigger] self@.entities[k]).0 != id by {
                        assert(self@.entities[k] == before.entities[k]);
                    }
                    lemma_found_at(self@.entities, id, before.entities.len() as int);
                }
                Some(id)
            },
            None => None,
        }
    }

    /// Takes the entity with identifier `id` out of the world and returns it.
    pub fn remove_entity(&mut self, id: ID) -> (r: Option<Entity>)
        requires
            old(self).wf(),
        ensures
            final(self).wf(),
            final(self)@.players == old(self)@.players,
            final(self)@.ids == old(self)@.ids,
            final(self)@.entities == old(self)@.entities.filter(absent_from(set![id])),
            r == found(old(self)@.entities, id),
            match r {
                Some(entity) => old(self)@.entities.contains((id, entity)),
                None => !holds(old(self)@.entities, id),
            },
    {
        match self.index_of(id) {
            Some(at) => {
                proof {
                    lemma_remove_is_filter(self.entities@, at as int);
                }
                let entry: (ID, Entity) = self.entities.remove(at);
                proof {
                    assert(self@.players == old(self)@.players);
                }
                Some(entry.1)
            },
            None => {
                proof {
                    lemma_filter_of_stranger(self.entities@, id);
                }
                None
            },
        }
    }

    /// Puts `new` in the place of the entity with identifier `id`; where
    /// there is none, nothing changes.
    pub fn update_entity(&mut self, id: ID, new: Entity)
        requires
            old(self).wf(),
        ensures
            final(self).wf(),
            final(self)@.players == old(self)@.players,
            final(self)@.ids == old(self)@.ids,
            final(self)@.entities == old(self)@.entities.map_values(replacing(id, new)),
    {
        match self.index_of(id) {
            Some(at) => {
                self.entities[at] = (id, new);
                proof {
                    assert(self@.players == old(self)@.players);
                    assert(self.entities@ =~= old(self).entities@.map_values(replacing(id, new)));
                }
            },
            None => {
                proof {
                    assert(self.entities@ =~= old(self).entities@.map_values(replacing(id, new)));
                }
            },
        }
    }

    /// The entity with identifier `id`.
    pub fn get_entity(&self, id: ID) -> (r: Option<&Entity>)
        ensures
            match r {
                Some(entity) => found(self@.entities, id) == Some(*entity)
                    && self@.entities.contains((id, *entity)),
                None => found(self@.entities, id).is_none() && !holds(self@.entities, id),
            },
    {
        match self.index_of(id) {
            Some(at) => Some(&self.entities[at].1),
            None => None,
        }
    }

    /// The entity with identifier `id`, or the report that there is none.
    pub fn find_entity(&self, id: ID) -> (r: Result<&Entity, WorldError>)
        ensures
            match r {
                Ok(entity) => found(self@.entities, id) == Some(*entity),
                Err(error) => error == WorldError::UnknownEntity && found(self@.entities, id)
                    .is_none() && !holds(self@.entities, id),
            },
    {
        match self.get_entity(id) {
            Some(entity) => Ok(entity),
            None => Err(WorldError::UnknownEntity),
        }
    }

    /// The player with identifier `id`, or the report that there is none.
    pub fn find_player(&self, id: ID) -> (r: Result<&Player, WorldError>)
        ensures
            match r {
                Ok(player) => listed(self@.players, id) == Some(*player),
                Err(error) => error == WorldError::UnknownPlayer && listed(self@.players, id)
                    .is_none() && !lists(self@.players, id),
            },
    {
        match self.get_player(id) {
            Some(player) => Ok(player),
            None => Err(WorldError::UnknownPlayer),
        }
    }

    /// The entity with identifier `id`, to be changed in its place.
    pub fn get_entity_mut(&mut self, id: ID) -> (r: Option<&mut Entity>)
        requires
            old(self).wf(),
        ensures
            final(self).wf(),
            match r {
                Some(entity) => found(old(self)@.entities, id) == Some(*entity) && final(self)@
                    == (WorldView {
                    entities: old(self)@.entities.map_values(replacing(id, *final(entity))),
                    ..old(self)@
                }),
                None => found(old(self)@.entities, id).is_none() && final(self)@ == old(self)@,
            },
    {
        match self.index_of(id) {
            Some(at) => {
                proof {
                    let entries = self@.entities;
                    assert forall|entity: Entity| #[trigger]
                        entries.update(at as int, (id, entity)) == entries.map_values(
                            replacing(id, entity),
                        ) && (WorldView {
                            entities: entries.map_values(replacing(id, entity)),
                            ..self@
                        }).wf() by {
                        assert(entries.update(at as int, (id, entity)) =~= entries.map_values(
                            replacing(id, entity),
                        ));
                        lemma_wf_replacing(self@, id, entity);
                    }
                }
                Some(&mut self.entities[at].1)
            },
            None => None,
        }
    }

    /// All entities with their identifiers, in the world's order, each to be
    /// changed in its place.
    pub fn get_entities_mut(&mut self) -> (r: Vec<(ID, &mut Entity)>)
        requires
            old(self).wf(),
        ensures
            final(self).wf(),
            r@.len() == old(self)@.entities.len(),
            forall|i: int|
                0 <= i < r@.len() ==> (#[trigger] r@[i]).0 == old(self)@.entities[i].0
                    && *r@[i].1 == old(self)@.entities[i].1,
            final(self)@.players == old(self)@.players,
            final(self)@.ids == old(self)@.ids,
            final(self)@.entities.len() == old(self)@.entities.len(),
            forall|i: int|
                0 <= i < r@.len() ==> #[trigger] final(self)@.entities[i] == (
                    r@[i].0,
                    *final(r@[i].1),
                ),
    {
        proof {
            let before = self@;
            assert forall|after: WorldView| same_identities(before, after) implies #[trigger]
                after.wf() by {
                lemma_wf_same_identities(before, after);
            }
        }
        borrow_each(self.entities.as_mut_slice())
    }

    /// All cells, in the world's order, each to be changed in its place.
    pub fn get_cells_mut(&mut self) -> (r: Vec<&mut Cell>)
        requires
            old(self).wf(),
        ensures
            final(self).wf(),
            r@.len() == cells_in(old(self)@.entities).len(),
            forall|i: int|
                0 <= i < r@.len() ==> *(#[trigger] r@[i]) == cells_in(old(self)@.entities)[i],
            final(self)@.players == old(self)@.players,
            final(self)@.ids == old(self)@.ids,
            final(self)@.entities.len() == old(self)@.entities.len(),
            forall|k: int|
                0 <= k < old(self)@.entities.len() ==> #[trigger] final(self)@.entities[k]
                    == if cell_picked(None)(old(self)@.entities[k]).is_some() {
                    (
                        old(self)@.entities[k].0,
                        Entity::Cell(*final(r@[rank_of(old(self)@.entities, None, k)])),
                    )
                } else {
                    old(self)@.entities[k]
                },
    {
        proof {
            let before = self@;
            assert forall|after: WorldView| same_identities(before, after) implies #[trigger]
                after.wf() by {
                lemma_wf_same_identities(before, after);
            }
        }
        borrow_cells(self.entities.as_mut_slice(), None)
    }

    /// The cells that `player` owns, in the world's order, each to be changed
    /// in its place.
    pub fn get_player_cells_mut(&mut self, player: &Player) -> (r: Vec<&mut Cell>)
        requires
            old(self).wf(),
        ensures
            final(self).wf(),
            r@.len() == cells_of(old(self)@.entities, player.id).len(),
            forall|i: int|
                0 <= i < r@.len() ==> *(#[trigger] r@[i]) == cells_of(
                    old(self)@.entities,
                    player.id,
                )[i],
            final(self)@.players == old(self)@.players,
            final(self)@.ids == old(self)@.ids,
            final(self)@.entities.len() == old(self)@.entities.len(),
            forall|k: int|
                0 <= k < old(self)@.entities.len() ==> #[trigger] final(self)@.entities[k]
                    == if cell_picked(Some(player.id))(old(self)@.entities[k]).is_some() {
                    (
                        old(self)@.entities[k].0,
                        Entity::Cell(
                            *final(r@[rank_of(old(self)@.entities, Some(player.id), k)]),
                        ),
                    )
                } else {
                    old(self)@.entities[k]
                },
    {
        proof {
            let before = self@;
            assert forall|after: WorldView| same_identities(before, after) implies #[trigger]
                after.wf() by {
                lemma_wf_same_identities(before, after);
            }
        }
        borrow_cells(self.entities.as_mut_slice(), Some(player.get_id()))
    }

    /// All entities with their identifiers, in the world's order.
    pub fn get_entities(&self) -> (r: Vec<(ID, &Entity)>)
        ensures
            r@.len() == self@.entities.len(),
            forall|i: int|
                0 <= i < r@.len() ==> (#[trigger] r@[i]).0 == self@.entities[i].0 && *r@[i].1
                    == self@.entities[i].1,
    {
        let mut out: Vec<(ID, &Entity)> = Vec::new();
        let mut i: usize = 0;
        while i < self.entities.len()
            invariant
                i <= self.entities.len(),
                out@.len() == i,
                forall|k: int|
                    0 <= k < i ==> (#[trigger] out@[k]).0 == self.entities@[k].0 && *out@[k].1
                        == self.entities@[k].1,
            decreases self.entities.len() - i,
        {
            out.push((self.entities[i].0, &self.entities[i].1));
            i += 1;
        }
        out
    }

    /// All players, in the order in which they joined.
    pub fn get_players(&self) -> (r: Vec<&Player>)
        ensures
            r@.len() == self@.players.len(),
            forall|i: int| 0 <= i < r@.len() ==> *(#[trigger] r@[i]) == self@.players[i],
    {
        let mut out: Vec<&Player> = Vec::new();
        let mut i: usize = 0;
        while i < self.players.len()
            invariant
                i <= self.players.len(),
                out@.len() == i,
                forall|k: int| 0 <= k < i ==> *(#[trigger] out@[k]) == self.players@[k],
            decreases self.players.len() - i,
        {
            out.push(&self.players[i]);
            i += 1;
        }
        out
    }

    /// The player with identifier `id`.
    pub fn get_player(&self, id: ID) -> (r: Option<&Player>)
        ensures
            match r {
                Some(player) => listed(self@.players, id) == Some(*player) && player.id == id
                    && self@.players.contains(*player),
                None => listed(self@.players, id).is_none() && !lists(self@.players, id),
            },
    {
        let mut i: usize = 0;
        while i < self.players.len()
            invariant
                i <= self.players.len(),
                forall|k: int| 0 <= k < i ==> (#[trigger] self.players@[k]).id != id,
            decreases self.players.len() - i,
        {
            if self.players[i].id == id {
                proof {
                    lemma_listed_at(self.players@, id, i as int);
                }
                return Some(&self.players[i]);
            }
            i += 1;
        }
        proof {
            lemma_listed_none(self.players@, id);
        }
        None
    }

    /// The player with identifier `id`.
    pub fn player_from_id(&self, id: ID) -> (r: Option<&Player>)
        ensures
            match r {
                Some(player) => listed(self@.players, id) == Some(*player) && player.id == id
                    && self@.players.contains(*player),
                None => listed(self@.players, id).is_none() && !lists(self@.players, id),
            },
    {
        self.get_player(id)
    }

    /// Takes the player with identifier `id` off the list.
    pub fn remove_player(&mut self, id: ID)
        requires
            old(self).wf(),
        ensures
            final(self).wf(),
            final(self)@.entities == old(self)@.entities,
            final(self)@.ids == old(self)@.ids,
            final(self)@.players == old(self)@.players.filter(player_absent_from(set![id])),
    {
        let mut i: usize = 0;
        while i < self.players.len()
            invariant
                i <= self.players.len(),
                self.wf(),
                self.entities == old(self).entities,
                self.ids == old(self).ids,
                forall|k: int| 0 <= k < i ==> (#[trigger] self.players@[k]).id != id,
                old(self).players@.filter(player_absent_from(set![id])) == self.players@.filter(
                    player_absent_from(set![id]),
                ),
            decreases self.players.len() - i,
        {
            if self.players[i].id == id {
                proof {
                    lemma_remove_rejected(self.players@, i as int, player_absent_from(set![id]));
                }
                let ghost before = self@;
                self.players.remove(i);
                proof {
                    lemma_wf_without_player(before, i as int);
                    assert(self@ == (WorldView {
                        players: before.players.remove(i as int),
                        ..before
                    }));
                }
            } else {
                i += 1;
            }
        }
        proof {
            lemma_filter_keeps_all(self.players@, player_absent_from(set![id]));
        }
    }

    /// All cells, in the world's order.
    pub fn get_cells(&self) -> (r: Vec<&Cell>)
        ensures
            r@.len() == cells_in(self@.entities).len(),
            forall|i: int| 0 <= i < r@.len() ==> *(#[trigger] r@[i]) == cells_in(self@.entities)[i],
    {
        let mut out: Vec<&Cell> = Vec::new();
        let mut i: usize = 0;
        while i < self.entities.len()
            invariant
                i <= self.entities.len(),
                out@.len() == cells_in(self.entities@.take(i as int)).len(),
                forall|k: int|
                    0 <= k < out@.len() ==> *(#[trigger] out@[k]) == cells_in(
                        self.entities@.take(i as int),
                    )[k],
            decreases self.entities.len() - i,
        {
            proof {
                self.entities@.lemma_filter_map_take_succ(cell_picked(None), i as int);
            }
            match &self.entities[i].1 {
                Entity::Cell(cell) => {
                    out.push(cell);
                },
                _ => {},
            }
            i += 1;
        }
        proof {
            assert(self.entities@.take(i as int) =~= self.entities@);
        }
        out
    }

    /// The cells that `player` owns, in the world's order.
    pub fn get_player_cells(&self, player: &Player) -> (r: Vec<&Cell>)
        ensures
            r@.len() == cells_of(self@.entities, player.id).len(),
            forall|i: int|
                0 <= i < r@.len() ==> *(#[trigger] r@[i]) == cells_of(self@.entities, player.id)[i],
    {
        let owner: ID = player.get_id();
        let mut out: Vec<&Cell> = Vec::new();
        let mut i: usize = 0;
        while i < self.entities.len()
            invariant
                i <= self.entities.len(),
                owner == player.id,
                out@.len() == cells_of(self.entities@.take(i as int), owner).len(),
                forall|k: int|
                    0 <= k < out@.len() ==> *(#[trigger] out@[k]) == cells_of(
                        self.entities@.take(i as int),
                        owner,
                    )[k],
            decreases self.entities.len() - i,
        {
            proof {
                self.entities@.lemma_filter_map_take_succ(cell_picked(Some(owner)), i as int);
            }
            match &self.entities[i].1 {
                Entity::Cell(cell) => {
                    if cell.get_player_id() == Some(owner) {
                        out.push(cell);
                    }
                },
                _ => {},
            }
            i += 1;
        }
        proof {
            assert(self.entities@.take(i as int) =~= self.entities@);
        }
        out
    }

    /// Where a camera that follows `player` looks: the centre of the player's
    /// cells, each weighted by its area.
    pub fn get_camera_position(&self, player: &Player) -> (r: Position)
        ensures
            r == centroid(cells_of(self@.entities, player.id)),
    {
        let cells: Vec<&Cell> = self.get_player_cells(player);
        let ghost owned = cells_of(self@.entities, player.id);
        let mut weighted: Vec<Position> = Vec::new();
        let mut total: Scalar = Scalar::zero();
        let mut i: usize = 0;
        while i < cells.len()
            invariant
                i <= cells.len(),
                cells@.len() == owned.len(),
                forall|k: int| 0 <= k < cells@.len() ==> *(#[trigger] cells@[k]) == owned[k],
                weighted@ == owned.take(i as int).map_values(weighted_position()),
                total == total_area(owned.take(i as int)),
            decreases cells.len() - i,
        {
            let cell: &Cell = cells[i];
            let area: Scalar = cell.get_mass().to_area();
            proof {
                assert(owned.take(i + 1).drop_last() =~= owned.take(i as int));
                assert(owned.take(i + 1).map_values(weighted_position()) =~= owned.take(
                    i as int,
                ).map_values(weighted_position()).push(weighted_position()(owned[i as int])));
            }
            weighted.push(cell.get_position() * area);
            total = total + area;
            i += 1;
        }
        proof {
            assert(owned.take(i as int) =~= owned);
        }
        let mean_area: Scalar = total / Scalar::from_count(cells.len());
        Position::average(weighted.as_slice()) * (Scalar::one() / mean_area)
    }

    /// Sets the steering of `player`, on the list and on each of the
    /// player's cells.
    pub fn set_controls(&mut self, player: &Player, direction: Direction, speed: Speed)
        requires
            old(self).wf(),
        ensures
            final(self).wf(),
            final(self)@.ids == old(self)@.ids,
            final(self)@.players == old(self)@.players.map_values(
                steering_player(player.id, direction, speed),
            ),
            final(self)@.entities == old(self)@.entities.map_values(
                steering_cells(player.id, direction, speed),
            ),
    {
        let owner: ID = player.get_id();
        let ghost steer = steering_player(owner, direction, speed);
        let mut i: usize = 0;
        while i < self.players.len()
            invariant
                i <= self.players.len(),
                self.players@.len() == old(self).players@.len(),
                self.entities == old(self).entities,
                self.ids == old(self).ids,
                steer == steering_player(owner, direction, speed),
                forall|k: int| 0 <= k < i ==> #[trigger] self.players@[k] == steer(old(self).players@[k]),
                forall|k: int|
                    i <= k < self.players@.len() ==> #[trigger] self.players@[k] == old(
                        self,
                    ).players@[k],
            decreases self.players.len() - i,
        {
            if self.players[i].id == owner {
                let mut steered: Player = self.players[i];
                steered.set_velocity(direction, speed);
                self.players[i] = steered;
            }
            i += 1;
        }
        let ghost turn = steering_cells(owner, direction, speed);
        let mut j: usize = 0;
        while j < self.entities.len()
            invariant
                j <= self.entities.len(),
                self.entities@.len() == old(self).entities@.len(),
                self.ids == old(self).ids,
                self.players@ =~= old(self).players@.map_values(steer),
                turn == steering_cells(owner, direction, speed),
                forall|k: int| 0 <= k < j ==> #[trigger] self.entities@[k] == turn(old(self).entities@[k]),
                forall|k: int|
                    j <= k < self.entities@.len() ==> #[trigger] self.entities@[k] == old(
                        self,
                    ).entities@[k],
            decreases self.entities.len() - j,
        {
            let entry: (ID, Entity) = self.entities[j];
            match entry.1 {
                Entity::Cell(cell) => {
                    if cell.get_player_id() == Some(owner) {
                        let mut steered: Cell = cell;
                        steered.set_velocity(direction, speed);
                        self.entities[j] = (entry.0, Entity::Cell(steered));
                    }
                },
                _ => {},
            }
            j += 1;
        }
        proof {
            let before = old(self)@;
            let after = self@;
            assert(after.players =~= before.players.map_values(steer));
            assert(after.entities =~= before.entities.map_values(turn));
            assert forall|k: int| 0 <= k < after.players.len() implies (
            #[trigger] after.players[k]).id == before.players[k].id by {}
            assert forall|k: int| 0 <= k < after.entities.len() implies (
            #[trigger] after.entities[k]).0 == before.entities[k].0 by {}
        }
    }

    /// Lets a new player join, with a first cell: a small cell at a random
    /// place inside the world's square, with a random heading, at rest. The
    /// player gets the next identifier of the world's source and the cell the
    /// one after it. Where the source has fewer than two left, nobody joins.
    pub fn create_new_player(&mut self, name: [char; 32], color: Color) -> (r: Option<Player>)
        requires
            old(self).wf(),
        ensures
            final(self).wf(),
            old(self)@.ids.issued() + 2 > ID_COUNT ==> r.is_none() && final(self)@ == old(self)@,
            old(self)@.ids.issued() + 2 <= ID_COUNT ==> {
                &&& r.is_some()
                &&& r.unwrap().is_new(name, r.unwrap().id, color)
                &&& r.unwrap().id.number() == old(self)@.ids.issued()
                &&& final(self)@.ids.issued() == old(self)@.ids.issued() + 2
                &&& final(self)@.players == old(self)@.players.push(r.unwrap())
                &&& final(self)@.entities.len() == old(self)@.entities.len() + 1
                &&& final(self)@.entities.drop_last() == old(self)@.entities
                &&& final(self)@.entities.last().0.number() == old(self)@.ids.issued() + 1
                &&& is_first_cell(final(self)@.entities.last().1, r.unwrap())
            },
    {
        if self.ids.remaining() < 2 {
            return None;
        }
        match ID::new(&mut self.ids) {
            Some(id) => {
                let player: Player = Player::new(name, id, color);
                let seed: Cell = Cell::default();
                let mut cell: Cell = seed;
                cell.set_player(player);
                cell.set_velocity(cell.get_direction(), Speed(Scalar::zero()));
                self.players.push(player);
                proof {
                    let before = old(self)@;
                    let now = self@;
                    assert(now.entities == before.entities);
                    assert(now.players == before.players.push(player));
                    assert forall|k: int| 0 <= k < now.players.len() implies now.ids.has_issued(
                        (#[trigger] now.players[k]).id,
                    ) by {
                        if k < before.players.len() {
                            assert(now.players[k] == before.players[k]);
                        }
                    }
                    assert forall|a: int, b: int| 0 <= a < b < now.players.len() implies (
                    #[trigger] now.players[a]).id != (#[trigger] now.players[b]).id by {
                        assert(now.players[a] == before.players[a]);
                        if b < before.players.len() {
                            assert(now.players[b] == before.players[b]);
                        }
                    }
                    assert forall|a: int, b: int|
                        0 <= a < now.players.len() && 0 <= b < now.entities.len() implies (
                    #[trigger] now.players[a]).id != (#[trigger] now.entities[b]).0 by {
                        if a < before.players.len() {
                            assert(now.players[a] == before.players[a]);
                        }
                    }
                    assert(seed.is_seeded() && Entity::Cell(cell) == Entity::Cell(
                        Cell { player: Some(player), speed: Speed(Scalar::spec_zero()), ..seed },
                    ));
                }
                let added: Option<ID> = self.add_entity(Entity::Cell(cell));
                proof {
                    assert(self@.entities.drop_last() =~= old(self)@.entities);
                }
                Some(player)
            },
            None => None,
        }
    }

    /// Takes the cells that have no owner among the players out of the
    /// world.
    pub fn prune_orphans(&mut self)
        requires
            old(self).wf(),
        ensures
            final(self).wf(),
            final(self)@ == old(self)@.without_orphans(),
    {
        let ghost before = self@;
        let ghost pred = has_listed_owner(self@.players);
        let mut kept: Vec<(ID, Entity)> = Vec::new();
        let mut i: usize = 0;
        while i < self.entities.len()
            invariant
                i <= self.entities.len(),
                self@ == before,
                pred == has_listed_owner(before.players),
                kept@ == before.entities.take(i as int).filter(pred),
            decreases self.entities.len() - i,
        {
            let entry: (ID, Entity) = self.entities[i];
            let keep: bool = match entry.1 {
                Entity::Cell(cell) => match cell.get_player_id() {
                    Some(id) => self.get_player(id).is_some(),
                    None => false,
                },
                _ => true,
            };
            proof {
                assert(before.entities.take(i + 1) =~= before.entities.take(i as int).push(entry));
                before.entities.take(i as int).lemma_filter_push(entry, pred);
            }
            if keep {
                kept.push(entry);
            }
            i += 1;
        }
        proof {
            assert(before.entities.take(i as int) =~= before.entities);
            lemma_filter_keeps_order(before.entities, pred);
            let now = before.entities.filter(pred);
            assert forall|a: int| 0 <= a < now.len() implies before.ids.has_issued(
                (#[trigger] now[a]).0,
            ) by {
                let b = choose|b: int| 0 <= b < before.entities.len() && before.entities[b] == now[a];
                assert(before.ids.has_issued(before.entities[b].0));
            }
            assert forall|a: int, c: int|
                0 <= a < before.players.len() && 0 <= c < now.len() implies (
            #[trigger] before.players[a]).id != (#[trigger] now[c]).0 by {
                let b = choose|b: int| 0 <= b < before.entities.len() && before.entities[b] == now[c];
                assert(before.players[a].id != before.entities[b].0);
            }
        }
        self.entities = kept;
    }

    /// Takes the cells that have no owner among the players out of the
    /// world, and the players that own no cell off the list.
    pub fn prune(&mut self)
        requires
            old(self).wf(),
        ensures
            final(self).wf(),
            final(self)@ == old(self)@.pruned(),
    {
        proof {
            lemma_pruned(self@);
        }
        self.prune_orphans();
        self.prune_players();
    }

    /// Takes the players that own no cell off the list.
    pub fn prune_players(&mut self)
        requires
            old(self).wf(),
        ensures
            final(self).wf(),
            final(self)@ == old(self)@.without_idle_players(),
    {
        let ghost keep = owns_cell_in(self@.entities);
        let mut i: usize = 0;
        while i < self.players.len()
            invariant
                i <= self.players.len(),
                self.wf(),
                self@.entities == old(self)@.entities,
                self@.ids == old(self)@.ids,
                keep == owns_cell_in(self@.entities),
                forall|k: int| 0 <= k < i ==> keep(#[trigger] self@.players[k]),
                old(self)@.players.filter(keep) == self@.players.filter(keep),
            decreases self.players.len() - i,
        {
            let player: Player = self.players[i];
            if self.get_player_cells(&player).len() == 0 {
                let ghost before = self@;
                proof {
                    lemma_remove_rejected(before.players, i as int, keep);
                }
                self.players.remove(i);
                proof {
                    lemma_wf_without_player(before, i as int);
                    assert(self@ == (WorldView {
                        players: before.players.remove(i as int),
                        ..before
                    }));
                }
            } else {
                i += 1;
            }
        }
        proof {
            lemma_filter_keeps_all(self@.players, keep);
        }
    }
}

/// Taking out an element that fails a test does not change what passes it.
pub proof fn lemma_remove_rejected<A>(s: Seq<A>, at: int, pred: spec_fn(A) -> bool)
    requires
        0 <= at < s.len(),
        !pred(s[at]),
    ensures
        s.remove(at).filter(pred) == s.filter(pred),
    decreases s.len(),
{
    reveal(Seq::filter);
    let front = s.drop_last();
    if at == s.len() - 1 {
        assert(s.remove(at) =~= front);
    } else {
        lemma_remove_rejected(front, at, pred);
        assert(s.remove(at).drop_last() =~= front.remove(at));
        assert(s.remove(at).last() == s.last());
    }
}

/// The place of the entry at index `at` among the cells that `owner` picks:
/// how many of them stand before it.
pub open spec fn rank_of(entries: Seq<(ID, Entity)>, owner: Option<ID>, at: int) -> int {
    entries.take(at).filter_map(cell_picked(owner)).len() as int
}

/// Whether `after` is `before` with each cell that `owner` picks replaced by
/// the cell of `cells` that has its place among them.
pub open spec fn with_cells(
    before: Seq<(ID, Entity)>,
    owner: Option<ID>,
    cells: Seq<Cell>,
    after: Seq<(ID, Entity)>,
) -> bool {
    &&& after.len() == before.len()
    &&& forall|k: int|
        0 <= k < before.len() ==> #[trigger] after[k] == if cell_picked(owner)(before[k]).is_some() {
            (before[k].0, Entity::Cell(cells[rank_of(before, owner, k)]))
        } else {
            before[k]
        }
}

/// The place of a cell among those that `owner` picks is below their number,
/// and places do not fall along the entries.
pub proof fn lemma_rank_below(entries: Seq<(ID, Entity)>, owner: Option<ID>, at: int, end: int)
    requires
        0 <= at < end <= entries.len(),
        cell_picked(owner)(entries[at]).is_some(),
    ensures
        rank_of(entries, owner, at) < rank_of(entries, owner, end),
    decreases end - at,
{
    entries.lemma_filter_map_take_succ(cell_picked(owner), end - 1);
    if at < end - 1 {
        lemma_rank_below(entries, owner, at, end - 1);
    }
}

/// Mutable borrows of all entities of the slice, each with its identifier.
fn borrow_each<'a>(slice: &'a mut [(ID, Entity)]) -> (r: Vec<(ID, &'a mut Entity)>)
    ensures
        r@.len() == old(slice)@.len(),
        forall|i: int|
            0 <= i < r@.len() ==> (#[trigger] r@[i]).0 == old(slice)@[i].0 && *r@[i].1 == old(
                slice,
            )@[i].1,
        final(slice)@.len() == old(slice)@.len(),
        forall|i: int|
            0 <= i < r@.len() ==> #[trigger] final(slice)@[i] == (r@[i].0, *final(r@[i].1)),
{
    let ghost whole = slice@;
    let ghost whole_end = final(slice)@;
    let mut out: Vec<(ID, &'a mut Entity)> = Vec::new();
    let mut rest: &'a mut [(ID, Entity)] = slice;
    while rest.len() > 0
        invariant
            out@.len() + rest@.len() == whole.len(),
            rest@ == whole.skip(out@.len() as int),
            whole_end.len() == out@.len() + final(rest)@.len(),
            forall|i: int|
                0 <= i < out@.len() ==> (#[trigger] out@[i]).0 == whole[i].0 && *out@[i].1
                    == whole[i].1,
            forall|i: int|
                0 <= i < out@.len() ==> #[trigger] whole_end[i] == (out@[i].0, *final(out@[i].1)),
            forall|i: int|
                out@.len() <= i < whole_end.len() ==> #[trigger] whole_end[i] == final(rest)@[i
                    - out@.len()],
        decreases rest@.len(),
    {
        let taken: &'a mut [(ID, Entity)] = rest;
        let ghost taken_end = final(taken)@;
        let (head, tail) = taken.split_at_mut(1);
        let ghost head_end = final(head)@;
        let ghost tail_end = final(tail)@;
        rest = tail;
        let ghost earlier = out@;
        let entry: &mut (ID, Entity) = &mut head[0];
        let id: ID = entry.0;
        out.push((id, &mut entry.1));
        proof {
            assert(taken_end == head_end + tail_end);
            assert(rest@ =~= whole.skip(out@.len() as int));
            assert forall|i: int| 0 <= i < earlier.len() implies out@[i] == earlier[i] by {}
            assert(whole_end[earlier.len() as int] == taken_end[0]);
            assert forall|i: int| out@.len() <= i < whole_end.len() implies #[trigger] whole_end[i]
                == tail_end[i - out@.len()] by {
                assert(whole_end[i] == taken_end[i - earlier.len()]);
            }
        }
    }
    out
}

/// Mutable borrows of the cells of the slice that `owner` picks.
fn borrow_cells<'a>(slice: &'a mut [(ID, Entity)], owner: Option<ID>) -> (r: Vec<&'a mut Cell>)
    ensures
        r@.len() == old(slice)@.filter_map(cell_picked(owner)).len(),
        forall|i: int|
            0 <= i < r@.len() ==> *(#[trigger] r@[i]) == old(slice)@.filter_map(
                cell_picked(owner),
            )[i],
        final(slice)@.len() == old(slice)@.len(),
        forall|k: int|
            0 <= k < old(slice)@.len() ==> #[trigger] final(slice)@[k] == if cell_picked(owner)(
                old(slice)@[k],
            ).is_some() {
                (old(slice)@[k].0, Entity::Cell(*final(r@[rank_of(old(slice)@, owner, k)])))
            } else {
                old(slice)@[k]
            },
{
    let ghost whole = slice@;
    let ghost whole_end = final(slice)@;
    let ghost mut done: int = 0;
    let mut out: Vec<&'a mut Cell> = Vec::new();
    let mut rest: &'a mut [(ID, Entity)] = slice;
    proof {
        assert(whole.skip(0) =~= whole);
    }
    while rest.len() > 0
        invariant
            0 <= done <= whole.len(),
            rest@ == whole.skip(done),
            whole_end.len() == done + final(rest)@.len(),
            out@.len() == rank_of(whole, owner, done),
            forall|j: int|
                0 <= j < out@.len() ==> *(#[trigger] out@[j]) == whole.take(done).filter_map(
                    cell_picked(owner),
                )[j],
            forall|k: int|
                0 <= k < done ==> #[trigger] whole_end[k] == if cell_picked(owner)(whole[k])
                    .is_some() {
                    (whole[k].0, Entity::Cell(*final(out@[rank_of(whole, owner, k)])))
                } else {
                    whole[k]
                },
            forall|k: int|
                done <= k < whole_end.len() ==> #[trigger] whole_end[k] == final(rest)@[k - done],
        decreases rest@.len(),
    {
        let taken: &'a mut [(ID, Entity)] = rest;
        let ghost taken_end = final(taken)@;
        let (head, tail) = taken.split_at_mut(1);
        let ghost head_end = final(head)@;
        let ghost tail_end = final(tail)@;
        rest = tail;
        let ghost earlier = out@;
        proof {
            assert(head@[0] == whole[done]);
            whole.lemma_filter_map_take_succ(cell_picked(owner), done);
            assert forall|k: int|
                0 <= k < done && cell_picked(owner)(whole[k]).is_some() implies rank_of(
                whole,
                owner,
                k,
            ) < earlier.len() by {
                lemma_rank_below(whole, owner, k, done);
            }
        }
        let entry: &mut (ID, Entity) = &mut head[0];
        match &mut entry.1 {
            Entity::Cell(cell) => {
                if owner.is_none() || cell.get_player_id() == owner {
                    out.push(cell);
                }
            },
            _ => {},
        }
        proof {
            assert(taken_end == head_end + tail_end);
            assert(rest@ =~= whole.skip(done + 1));
            assert forall|j: int| 0 <= j < earlier.len() implies out@[j] == earlier[j] by {}
            assert(whole_end[done] == taken_end[0]);
            assert forall|k: int| done + 1 <= k < whole_end.len() implies #[trigger] whole_end[k]
                == tail_end[k - (done + 1)] by {
                assert(whole_end[k] == taken_end[k - done]);
            }
            done = done + 1;
        }
    }
    proof {
        assert(whole.take(done) =~= whole);
    }
    out
}

} // verus!
