//! What holds of the simulation as a whole.

use vstd::prelude::*;
use crate::entity::grace_period;
use crate::entity::Cell;
use crate::entity::Entity;
use crate::ident::ID;
use crate::mass::Mass;
use crate::scalar::clamp64;
use crate::scalar::lemma_sqrt_rises;
use crate::scalar::Scalar;
use crate::scalar::ONE_RAW;
use crate::scalar::PI_RAW;
use crate::tick::entry_id;
use crate::tick::held_in_square;
use crate::tick::pushed_before;
use crate::tick::pushed_in_turn;
use crate::tick::ticked_in_square;
use crate::tick::is_random_food;
use crate::tick::replenished;
use crate::tick::sown;
use crate::tick::ticked;
use crate::tick::turn_of;
use crate::tick::turns_taken;
use crate::world::absent_from;
use crate::world::ascending;
use crate::world::cells_of;
use crate::world::found;
use crate::world::has_listed_owner;
use crate::world::lemma_pruned;
use crate::world::holds;
use crate::world::lemma_filter_entries;
use crate::world::lemma_filter_keeps_order;
use crate::world::lemma_found_holds;
use crate::world::lemma_wf_replacing;
use crate::world::owns_cell_in;
use crate::world::replacing;
use crate::world::WorldView;

verus! {

/// A split shares the mass out evenly and loses next to nothing: both halves
/// of a cell get the mass of half its area, and for a mass from zero to
/// `2^21` the two together fall short of the cell's mass by at most two
/// steps of the scalar's resolution. From a mass of two thousand million
/// steps on, which is less than two thousandths, that is at most a
/// thousand-millionth of the mass.
pub proof fn lemma_split_shares_mass(cell: Cell)
    requires
        0 <= cell.mass.0.raw <= 0x2000_0000_0000_0000,
    ensures
        cell.spec_sibling().mass == cell.spec_half_mass(),
        cell.spec_remainder().mass == cell.spec_half_mass(),
        cell.spec_half_mass() == Mass::spec_from_area(
            cell.mass.spec_to_area().spec_div(Scalar::spec_from_int(2)),
        ),
        0 <= cell.mass.0.raw - (cell.spec_sibling().mass.0.raw + cell.spec_remainder().mass.0.raw)
            <= 2,
        cell.mass.0.raw >= 2_000_000_000 ==> (cell.mass.0.raw - (cell.spec_sibling().mass.0.raw
            + cell.spec_remainder().mass.0.raw)) * 1_000_000_000 <= cell.mass.0.raw,
{
    let m = cell.mass.0.raw as int;
    let one = ONE_RAW as int;
    let pi = PI_RAW as int;
    let area = (pi * m) / one;
    assert(cell.mass.spec_to_area().raw == area);
    let two = Scalar::spec_from_int(2);
    assert(two.raw == 2 * one);
    let half = (area * one) / (2 * one);
    assert(cell.mass.spec_to_area().spec_div(two).raw == half);
    let part = (half * one) / pi;
    assert(cell.spec_half_mass().0.raw == part);
}

/// Within the grace period no cell swallows a cell of its own owner: of two
/// cells with one owner that are both younger than five seconds, neither
/// swallows the other, whatever their sizes.
pub proof fn lemma_grace_period(a: Cell, b: Cell)
    requires
        a.same_owner(b),
        a.age.raw < grace_period().raw,
        b.age.raw < grace_period().raw,
    ensures
        !a.spec_can_swallow_cell(b),
        !b.spec_can_swallow_cell(a),
{
}

/// In a valid world no two entities have one identifier, nor two players,
/// nor an entity and a player.
pub proof fn lemma_identifiers_unique(world: WorldView)
    requires
        world.wf(),
    ensures
        forall|i: int, j: int|
            0 <= i < world.entities.len() && 0 <= j < world.entities.len() && i != j ==> (
            #[trigger] world.entities[i]).0 != (#[trigger] world.entities[j]).0,
        forall|i: int, j: int|
            0 <= i < world.players.len() && 0 <= j < world.players.len() && i != j ==> (
            #[trigger] world.players[i]).id != (#[trigger] world.players[j]).id,
        forall|i: int, j: int|
            0 <= i < world.players.len() && 0 <= j < world.entities.len() ==> (
            #[trigger] world.players[i]).id != (#[trigger] world.entities[j]).0,
{
    assert forall|i: int, j: int|
        0 <= i < world.entities.len() && 0 <= j < world.entities.len() && i != j implies (
    #[trigger] world.entities[i]).0 != (#[trigger] world.entities[j]).0 by {
        if i < j {
            assert(world.entities[i].0.number() < world.entities[j].0.number());
        } else {
            assert(world.entities[j].0.number() < world.entities[i].0.number());
        }
    }
    assert forall|i: int, j: int|
        0 <= i < world.players.len() && 0 <= j < world.players.len() && i != j implies (
    #[trigger] world.players[i]).id != (#[trigger] world.players[j]).id by {
        if i < j {
            assert(world.players[i].id != world.players[j].id);
        } else {
            assert(world.players[j].id != world.players[i].id);
        }
    }
}

/// The mass that an entity gives to the cell that eats it.
pub open spec fn mass_of(entity: Entity) -> Mass {
    match entity {
        Entity::Cell(cell) => cell.mass,
        Entity::Food(food) => food.mass,
        Entity::Wall(_) => Mass(Scalar::spec_zero()),
    }
}

/// Whether the cell `hunter`, as it meets the entries one after the other,
/// eats the entry at `at` and no other.
pub open spec fn eats_only(hunter: Cell, my_id: ID, entries: Seq<(ID, Entity)>, at: int) -> bool {
    &&& 0 <= at < entries.len()
    &&& forall|j: int|
        0 <= j < entries.len() ==> (hunter.spec_graze(my_id, entries.take(j)).spec_bites(
            my_id,
            #[trigger] entries[j],
        ) <==> j == at)
}

/// Whether no entry is a wall.
pub open spec fn no_walls(entries: Seq<(ID, Entity)>) -> bool {
    forall|i: int| 0 <= i < entries.len() ==> !((#[trigger] entries[i]).1 is Wall)
}

/// Whether the entry is no cell, or a cell inside the world's square.
pub open spec fn in_bounds(entry: (ID, Entity)) -> bool {
    match entry.1 {
        Entity::Cell(cell) => cell.position.in_bounds(),
        _ => true,
    }
}

/// Whether every cell among the entries lies inside the world's square.
pub open spec fn cells_in_bounds(entries: Seq<(ID, Entity)>) -> bool {
    forall|i: int| 0 <= i < entries.len() ==> in_bounds(#[trigger] entries[i])
}

/// A scalar times one is the scalar.
pub proof fn lemma_times_one(x: Scalar)
    ensures
        x.spec_mul(Scalar::spec_one()) == x,
{
    let v = x.raw as int;
    let one = ONE_RAW as int;
    if v >= 0 {
        assert((v * one) / one == v);
    } else {
        assert(((-v) * one) / one == -v);
    }
}

/// A tick of no duration wears nothing off a cell.
pub proof fn lemma_no_time_no_wear(cell: Cell)
    ensures
        cell.spec_wear(Scalar::spec_zero()) == cell,
{
    let zero = Scalar::spec_zero();
    let rate = Scalar::spec_from_ratio(3, 100);
    assert(rate.spec_mul(zero).raw == 0) by {
        assert(rate.raw * 0 == 0);
        assert(0int / (ONE_RAW as int) == 0);
    }
    assert(Cell::decay(zero) == Scalar::spec_one());
    lemma_times_one(cell.mass.0);
}

/// Meeting an entry changes a cell's mass only by what it eats.
pub proof fn lemma_meet_mass(cell: Cell, my_id: ID, entry: (ID, Entity))
    ensures
        cell.spec_meet(my_id, entry).mass == if cell.spec_bites(my_id, entry) {
            cell.mass.spec_add(mass_of(entry.1))
        } else {
            cell.mass
        },
{
}

/// The mass of a cell while it meets entries of which it eats one: its own
/// up to that entry, and the entry's more from there on.
proof fn lemma_graze_mass(hunter: Cell, my_id: ID, entries: Seq<(ID, Entity)>, at: int, n: int)
    requires
        eats_only(hunter, my_id, entries, at),
        0 <= n <= entries.len(),
    ensures
        hunter.spec_graze(my_id, entries.take(n)).mass == if n <= at {
            hunter.mass
        } else {
            hunter.mass.spec_add(mass_of(entries[at].1))
        },
    decreases n,
{
    if n > 0 {
        lemma_graze_mass(hunter, my_id, entries, at, n - 1);
        let so_far = hunter.spec_graze(my_id, entries.take(n - 1));
        assert(entries.take(n).drop_last() =~= entries.take(n - 1));
        assert(entries.take(n).last() == entries[n - 1]);
        assert(hunter.spec_graze(my_id, entries.take(n)) == so_far.spec_meet(
            my_id,
            entries[n - 1],
        ));
        lemma_meet_mass(so_far, my_id, entries[n - 1]);
        assert(so_far.spec_bites(my_id, entries[n - 1]) <==> n - 1 == at);
    }
}

/// The raw mass of all that the cell eats as it meets the entries one after
/// the other.
pub open spec fn eaten_mass(hunter: Cell, my_id: ID, entries: Seq<(ID, Entity)>) -> int
    decreases entries.len(),
{
    if entries.len() == 0 {
        0
    } else {
        let before = eaten_mass(hunter, my_id, entries.drop_last());
        if hunter.spec_graze(my_id, entries.drop_last()).spec_bites(my_id, entries.last()) {
            before + mass_of(entries.last().1).0.raw
        } else {
            before
        }
    }
}

/// Feeding moves mass and makes none: where no mass is below zero, a cell
/// ends its meal with its own mass and the masses of all that it has eaten
/// together, up to the limit of the scalar.
pub proof fn lemma_feeding_transfers_mass(hunter: Cell, my_id: ID, entries: Seq<(ID, Entity)>)
    requires
        hunter.mass.0.raw >= 0,
        forall|i: int| 0 <= i < entries.len() ==> mass_of((#[trigger] entries[i]).1).0.raw >= 0,
    ensures
        eaten_mass(hunter, my_id, entries) >= 0,
        hunter.spec_graze(my_id, entries).mass.0.raw == clamp64(
            hunter.mass.0.raw + eaten_mass(hunter, my_id, entries),
        ),
    decreases entries.len(),
{
    if entries.len() > 0 {
        let front = entries.drop_last();
        assert forall|i: int| 0 <= i < front.len() implies mass_of((#[trigger] front[i]).1).0.raw
            >= 0 by {
            assert(front[i] == entries[i]);
        }
        lemma_feeding_transfers_mass(hunter, my_id, front);
        lemma_meet_mass(hunter.spec_graze(my_id, front), my_id, entries.last());
        assert(entries.last() == entries[entries.len() - 1]);
    }
}

/// What a cell eats at some point of its meal is among its prey at the end.
proof fn lemma_prey_has(hunter: Cell, my_id: ID, entries: Seq<(ID, Entity)>, at: int)
    requires
        0 <= at < entries.len(),
        hunter.spec_graze(my_id, entries.take(at)).spec_bites(my_id, entries[at]),
    ensures
        hunter.spec_prey(my_id, entries).contains(entries[at].0),
    decreases entries.len(),
{
    let front = entries.drop_last();
    if at == entries.len() - 1 {
        assert(entries.take(at) =~= front);
        let prey = hunter.spec_prey(my_id, entries);
        assert(prey[prey.len() - 1] == entries[at].0);
    } else {
        assert(front.take(at) =~= entries.take(at));
        lemma_prey_has(hunter, my_id, front, at);
        let before = hunter.spec_prey(my_id, front);
        let k = choose|k: int| 0 <= k < before.len() && before[k] == entries[at].0;
        let prey = hunter.spec_prey(my_id, entries);
        assert(prey[k] == entries[at].0);
    }
}

/// Eating moves mass and makes none: a cell that in a tick of no duration
/// eats one entity ends the tick with its own mass and that entity's
/// together, and the entity is not among what the tick leaves of the world.
pub proof fn lemma_meal_conserves_mass(cell: Cell, my_id: ID, world: WorldView, at: int)
    requires
        ascending(world.entities),
        eats_only(
            cell.spec_update_controls(world.players).spec_advance(Scalar::spec_zero()),
            my_id,
            world.entities,
            at,
        ),
    ensures
        cell.spec_tick(my_id, Scalar::spec_zero(), world).mass == cell.mass.spec_add(
            mass_of(world.entities[at].1),
        ),
        !holds(
            cell.spec_leftovers(my_id, Scalar::spec_zero(), world).entities,
            world.entities[at].0,
        ),
{
    let zero = Scalar::spec_zero();
    let hunter = cell.spec_update_controls(world.players).spec_advance(zero);
    let entries = world.entities;
    lemma_graze_mass(hunter, my_id, entries, at, entries.len() as int);
    assert(entries.take(entries.len() as int) =~= entries);
    lemma_no_time_no_wear(hunter.spec_graze(my_id, entries));
    lemma_eaten_is_gone(cell, my_id, zero, world, at);
}

/// What a cell eats in its tick is not among what the tick leaves of the
/// world.
pub proof fn lemma_eaten_is_gone(cell: Cell, my_id: ID, seconds: Scalar, world: WorldView, at: int)
    requires
        ascending(world.entities),
        0 <= at < world.entities.len(),
        cell.spec_update_controls(world.players).spec_advance(seconds).spec_graze(
            my_id,
            world.entities.take(at),
        ).spec_bites(my_id, world.entities[at]),
    ensures
        !holds(cell.spec_leftovers(my_id, seconds, world).entities, world.entities[at].0),
{
    let hunter = cell.spec_update_controls(world.players).spec_advance(seconds);
    let entries = world.entities;
    lemma_prey_has(hunter, my_id, entries, at);
    let gone = hunter.spec_prey(my_id, entries).to_set();
    assert(gone.contains(entries[at].0));
    lemma_filter_entries(entries, gone);
}

/// Where a cell's tick has left the world without an identifier that the
/// source had handed out, the replenished world is without it too: eaten
/// stays eaten.
pub proof fn lemma_gone_stays_gone(left: WorldView, seconds: Scalar, after: WorldView, id: ID)
    requires
        left.ids.has_issued(id),
        !holds(left.entities, id),
        replenished(left, seconds, after),
    ensures
        !holds(after.entities, id),
{
    if holds(after.entities, id) {
        let k = choose|k: int| 0 <= k < after.entities.len() && (#[trigger] after.entities[k]).0
            == id;
        if k < left.entities.len() {
            assert(after.entities.take(left.entities.len() as int)[k] == after.entities[k]);
            assert(left.entities[k].0 == id);
        }
    }
}

/// A cell that no wall pushes stays where it is.
pub proof fn lemma_unpushed_stays(cell: Cell, my_id: ID, entries: Seq<(ID, Entity)>)
    requires
        !cell.spec_pushed(my_id, entries),
    ensures
        cell.spec_graze(my_id, entries).position == cell.position,
    decreases entries.len(),
{
    if entries.len() > 0 {
        let front = entries.drop_last();
        let n = entries.len() as int;
        assert forall|at: int| 0 <= at < front.len() implies !cell.spec_pushed_at(
            my_id,
            front,
            at,
        ) by {
            assert(front.take(at) =~= entries.take(at));
            assert(front[at] == entries[at]);
            assert(!cell.spec_pushed_at(my_id, entries, at));
        }
        lemma_unpushed_stays(cell, my_id, front);
        assert(entries.take(n - 1) =~= front);
        assert(entries.last() == entries[n - 1]);
        assert(!cell.spec_pushed_at(my_id, entries, n - 1));
    }
}

/// Where there is no wall, no wall pushes.
pub proof fn lemma_no_walls_no_push(cell: Cell, my_id: ID, entries: Seq<(ID, Entity)>)
    requires
        no_walls(entries),
    ensures
        !cell.spec_pushed(my_id, entries),
{
}

/// A cell ends its tick inside the world's square unless a wall has pushed
/// it: the clamp to the square comes before the cell meets the walls.
pub proof fn lemma_cell_tick_in_bounds(cell: Cell, my_id: ID, seconds: Scalar, world: WorldView)
    ensures
        cell.spec_tick(my_id, seconds, world).position.in_bounds() || cell.spec_hunter(
            seconds,
            world,
        ).spec_pushed(my_id, world.entities),
{
    let hunter = cell.spec_hunter(seconds, world);
    if !hunter.spec_pushed(my_id, world.entities) {
        lemma_unpushed_stays(hunter, my_id, world.entities);
    }
}

/// The entries before index `at` push the cell no more than all of them do.
proof fn lemma_unpushed_prefix(cell: Cell, my_id: ID, entries: Seq<(ID, Entity)>, at: int)
    requires
        0 <= at <= entries.len(),
        !cell.spec_pushed(my_id, entries),
    ensures
        !cell.spec_pushed(my_id, entries.take(at)),
{
    let front = entries.take(at);
    assert forall|j: int| 0 <= j < front.len() implies !cell.spec_pushed_at(my_id, front, j) by {
        assert(front.take(j) =~= entries.take(j));
        assert(front[j] == entries[j]);
        assert(!cell.spec_pushed_at(my_id, entries, j));
    }
}

/// Food in reach is eaten: a food that the cell can swallow as it sets out
/// is not among what its tick leaves of the world, where no wall pushes the
/// cell on its way and no mass is below zero, so that the cell stays where
/// it is and only grows until it meets the food.
pub proof fn lemma_food_in_reach_is_eaten(
    cell: Cell,
    my_id: ID,
    seconds: Scalar,
    world: WorldView,
    at: int,
)
    requires
        ascending(world.entities),
        0 <= at < world.entities.len(),
        world.entities[at].0 != my_id,
        world.entities[at].1 is Food,
        cell.spec_hunter(seconds, world).spec_can_swallow_food(world.entities[at].1->Food_0),
        !cell.spec_hunter(seconds, world).spec_pushed(my_id, world.entities),
        cell.mass.0.raw >= 0,
        forall|i: int|
            0 <= i < world.entities.len() ==> mass_of((#[trigger] world.entities[i]).1).0.raw >= 0,
    ensures
        !holds(cell.spec_leftovers(my_id, seconds, world).entities, world.entities[at].0),
{
    let hunter = cell.spec_hunter(seconds, world);
    let entries = world.entities;
    let front = entries.take(at);
    let food = entries[at].1->Food_0;
    let so_far = hunter.spec_graze(my_id, front);
    lemma_unpushed_prefix(hunter, my_id, entries, at);
    lemma_unpushed_stays(hunter, my_id, front);
    assert forall|i: int| 0 <= i < front.len() implies mass_of((#[trigger] front[i]).1).0.raw
        >= 0 by {
        assert(front[i] == entries[i]);
    }
    lemma_feeding_transfers_mass(hunter, my_id, front);
    assert(hunter.mass.0.raw <= so_far.mass.0.raw);
    lemma_sqrt_rises(hunter.mass.0, so_far.mass.0);
    assert(so_far.spec_can_swallow_food(food));
    lemma_eaten_is_gone(cell, my_id, seconds, world, at);
}

/// A valid world stays valid when entities leave it.
pub proof fn lemma_wf_filtered(world: WorldView, pred: spec_fn((ID, Entity)) -> bool)
    requires
        world.wf(),
    ensures
        (WorldView { entities: world.entities.filter(pred), ..world }).wf(),
{
    let now = world.entities.filter(pred);
    lemma_filter_keeps_order(world.entities, pred);
    assert forall|a: int| 0 <= a < now.len() implies world.ids.has_issued((#[trigger] now[a]).0) by {
        let b = choose|b: int| 0 <= b < world.entities.len() && world.entities[b] == now[a];
        assert(world.ids.has_issued(world.entities[b].0));
    }
    assert forall|a: int, c: int| 0 <= a < world.players.len() && 0 <= c < now.len() implies (
    #[trigger] world.players[a]).id != (#[trigger] now[c]).0 by {
        let b = choose|b: int| 0 <= b < world.entities.len() && world.entities[b] == now[c];
        assert(world.players[a].id != world.entities[b].0);
    }
}

/// A valid world stays valid when food is sown in it.
pub proof fn lemma_wf_sown(before: WorldView, after: WorldView)
    requires
        before.wf(),
        sown(before, after),
    ensures
        after.wf(),
{
    let n = before.entities.len() as int;
    assert forall|i: int| 0 <= i < n implies #[trigger] after.entities[i] == before.entities[i] by {
        assert(after.entities.take(n)[i] == after.entities[i]);
    }
    assert forall|i: int, j: int| 0 <= i < j < after.entities.len() implies (
    #[trigger] after.entities[i]).0.number() < (#[trigger] after.entities[j]).0.number() by {
        if j < n {
            assert(before.entities[i].0.number() < before.entities[j].0.number());
        } else if i < n {
            assert(before.ids.has_issued(before.entities[i].0));
        }
    }
    assert forall|i: int| 0 <= i < after.entities.len() implies after.ids.has_issued(
        (#[trigger] after.entities[i]).0,
    ) by {
        if i < n {
            assert(before.ids.has_issued(before.entities[i].0));
        }
    }
    assert forall|i: int| 0 <= i < after.players.len() implies after.ids.has_issued(
        (#[trigger] after.players[i]).id,
    ) by {
        assert(before.ids.has_issued(before.players[i].id));
    }
    assert forall|i: int, j: int|
        0 <= i < after.players.len() && 0 <= j < after.entities.len() implies (
    #[trigger] after.players[i]).id != (#[trigger] after.entities[j]).0 by {
        assert(before.ids.has_issued(before.players[i].id));
        if j < n {
            assert(before.players[i].id != before.entities[j].0);
        }
    }
}

/// One turn of a tick keeps a world valid.
pub proof fn lemma_turn_keeps_wf(before: WorldView, id: ID, seconds: Scalar, after: WorldView)
    requires
        before.wf(),
        turn_of(before, id, seconds, after),
    ensures
        after.wf(),
{
    match found(before.entities, id) {
        Some(Entity::Cell(cell)) => {
            let left = cell.spec_leftovers(id, seconds, before);
            let fed = choose|fed: WorldView| #[trigger]
                replenished(left, seconds, fed) && after == (WorldView {
                    entities: fed.entities.map_values(
                        replacing(id, Entity::Cell(cell.spec_tick(id, seconds, before))),
                    ),
                    ..fed
                });
            lemma_wf_filtered(
                before,
                absent_from(
                    cell.spec_update_controls(before.players).spec_advance(seconds).spec_prey(
                        id,
                        before.entities,
                    ).to_set(),
                ),
            );
            lemma_wf_sown(left, fed);
            lemma_wf_replacing(fed, id, Entity::Cell(cell.spec_tick(id, seconds, before)));
        },
        Some(Entity::Food(food)) => {
            lemma_wf_replacing(before, id, Entity::Food(food.spec_tick(seconds)));
        },
        _ => {},
    }
}

/// What holds of an entry after `done` turns of a tick: if it is a cell, it
/// has an identifier of the order, and once its turn has come it lies
/// inside the world's square or a wall has pushed it in its turn.
pub open spec fn entry_settled(
    trace: Seq<WorldView>,
    order: Seq<ID>,
    seconds: Scalar,
    done: int,
    entry: (ID, Entity),
) -> bool {
    entry.1 is Cell ==> {
        &&& order.contains(entry.0)
        &&& order.take(done).contains(entry.0) ==> in_bounds(entry) || pushed_before(
            trace,
            order,
            seconds,
            done,
            entry.0,
        )
    }
}

/// What the turns of a tick keep true, after `done` of them: the world is
/// valid, the players are those of the start, a world without walls is
/// still without, and every entry is settled.
pub open spec fn settled(
    start: WorldView,
    order: Seq<ID>,
    seconds: Scalar,
    trace: Seq<WorldView>,
    done: int,
) -> bool {
    let now = trace[done];
    &&& now.wf()
    &&& now.players == start.players
    &&& (no_walls(start.entities) ==> no_walls(now.entities))
    &&& forall|i: int|
        0 <= i < now.entities.len() ==> entry_settled(
            trace,
            order,
            seconds,
            done,
            #[trigger] now.entities[i],
        )
}

/// An entry that is settled after `k` turns is settled after the next,
/// unless that turn is its own.
proof fn lemma_entry_stays_settled(
    trace: Seq<WorldView>,
    order: Seq<ID>,
    seconds: Scalar,
    k: int,
    entry: (ID, Entity),
)
    requires
        0 <= k < order.len(),
        entry_settled(trace, order, seconds, k, entry),
        entry.0 != order[k],
    ensures
        entry_settled(trace, order, seconds, k + 1, entry),
{
    if entry.1 is Cell && order.take(k + 1).contains(entry.0) {
        let longer = order.take(k + 1);
        let j = choose|j: int| 0 <= j < longer.len() && longer[j] == entry.0;
        assert(j < k);
        assert(order.take(k)[j] == entry.0);
        if !in_bounds(entry) {
            let at = choose|at: int|
                0 <= at < k && #[trigger] pushed_in_turn(trace, order, seconds, at, entry.0);
            assert(pushed_in_turn(trace, order, seconds, at, entry.0));
        }
    }
}

/// One turn of a tick keeps `settled`.
proof fn lemma_turn_settles(
    start: WorldView,
    order: Seq<ID>,
    seconds: Scalar,
    trace: Seq<WorldView>,
    k: int,
)
    requires
        0 <= k < order.len(),
        trace.len() == order.len() + 1,
        settled(start, order, seconds, trace, k),
        turn_of(trace[k], order[k], seconds, trace[k + 1]),
    ensures
        settled(start, order, seconds, trace, k + 1),
{
    let id = order[k];
    let before = trace[k];
    let after = trace[k + 1];
    let walled = !no_walls(start.entities);
    lemma_turn_keeps_wf(before, id, seconds, after);
    lemma_found_holds(before.entities, id);
    assert(order.take(k + 1)[k] == id);
    match found(before.entities, id) {
        Some(Entity::Cell(cell)) => {
            let left = cell.spec_leftovers(id, seconds, before);
            let fed = choose|fed: WorldView| #[trigger]
                replenished(left, seconds, fed) && after == (WorldView {
                    entities: fed.entities.map_values(
                        replacing(id, Entity::Cell(cell.spec_tick(id, seconds, before))),
                    ),
                    ..fed
                });
            let grown = (id, Entity::Cell(cell.spec_tick(id, seconds, before)));
            lemma_cell_tick_in_bounds(cell, id, seconds, before);
            if !in_bounds(grown) {
                assert(pushed_in_turn(trace, order, seconds, k, id));
            }
            assert(entry_settled(trace, order, seconds, k + 1, grown));
            let gone = absent_from(
                cell.spec_update_controls(before.players).spec_advance(seconds).spec_prey(
                    id,
                    before.entities,
                ).to_set(),
            );
            assert forall|i: int| 0 <= i < fed.entities.len() implies (walled || !((
            #[trigger] fed.entities[i]).1 is Wall)) && (fed.entities[i].0 != id ==> entry_settled(
                trace,
                order,
                seconds,
                k + 1,
                fed.entities[i],
            )) by {
                if i < left.entities.len() {
                    assert(fed.entities.take(left.entities.len() as int)[i] == fed.entities[i]);
                    assert(left.entities.contains(left.entities[i]));
                    before.entities.lemma_filter_contains_rev(gone, left.entities[i]);
                    let j = choose|j: int|
                        0 <= j < before.entities.len() && before.entities[j] == left.entities[i];
                    assert(before.entities[j] == fed.entities[i]);
                    if fed.entities[i].0 != id {
                        lemma_entry_stays_settled(trace, order, seconds, k, fed.entities[i]);
                    }
                } else {
                    assert(is_random_food(fed.entities[i].1));
                }
            }
            assert forall|i: int| 0 <= i < after.entities.len() implies (walled || !((
            #[trigger] after.entities[i]).1 is Wall)) && entry_settled(
                trace,
                order,
                seconds,
                k + 1,
                after.entities[i],
            ) by {
                let was = fed.entities[i];
                if was.0 == id {
                    assert(after.entities[i] == grown);
                } else {
                    assert(after.entities[i] == was);
                }
            }
        },
        Some(Entity::Food(food)) => {
            assert forall|i: int| 0 <= i < after.entities.len() implies (walled || !((
            #[trigger] after.entities[i]).1 is Wall)) && entry_settled(
                trace,
                order,
                seconds,
                k + 1,
                after.entities[i],
            ) by {
                let was = before.entities[i];
                assert(after.entities[i] == replacing(id, Entity::Food(food.spec_tick(seconds)))(
                    was,
                ));
                if was.0 != id {
                    lemma_entry_stays_settled(trace, order, seconds, k, was);
                }
            }
        },
        Some(Entity::Wall(wall)) => {
            let j = choose|j: int|
                0 <= j < before.entities.len() && before.entities[j] == (id, Entity::Wall(wall));
            assert(before.entities[j].1 is Wall);
            assert forall|i: int| 0 <= i < after.entities.len() implies entry_settled(
                trace,
                order,
                seconds,
                k + 1,
                #[trigger] after.entities[i],
            ) by {
                let was = before.entities[i];
                if was.0 != id {
                    lemma_entry_stays_settled(trace, order, seconds, k, was);
                } else {
                    lemma_identifiers_unique(before);
                    assert(i == j);
                }
            }
        },
        None => {
            assert forall|i: int| 0 <= i < after.entities.len() implies entry_settled(
                trace,
                order,
                seconds,
                k + 1,
                #[trigger] after.entities[i],
            ) by {
                assert(after.entities[i].0 != id);
                lemma_entry_stays_settled(trace, order, seconds, k, after.entities[i]);
            }
        },
    }
}

/// The turns of a tick keep `settled` from the start to the end.
proof fn lemma_turns_settle(
    start: WorldView,
    order: Seq<ID>,
    seconds: Scalar,
    trace: Seq<WorldView>,
    k: int,
)
    requires
        start.wf(),
        order == start.entities.map_values(entry_id()),
        turns_taken(start, order, seconds, trace),
        0 <= k <= order.len(),
    ensures
        settled(start, order, seconds, trace, k),
    decreases k,
{
    if k == 0 {
        assert(order.take(0).len() == 0);
        assert forall|i: int| 0 <= i < start.entities.len() implies entry_settled(
            trace,
            order,
            seconds,
            0,
            #[trigger] start.entities[i],
        ) by {
            assert(order[i] == start.entities[i].0);
        }
    } else {
        lemma_turns_settle(start, order, seconds, trace, k - 1);
        lemma_turn_settles(start, order, seconds, trace, k - 1);
    }
}

/// What a tick with the turns of `trace` leaves. The players are those
/// that own a cell, in their order, and no other. Every cell that is left
/// has its owner among them. Every cell that is left lies inside the
/// world's square, but for those that a wall has pushed in their turn;
/// where the world had no wall, that is every cell.
pub proof fn lemma_trace_outcome(before: WorldView, seconds: Scalar, trace: Seq<WorldView>)
    requires
        before.wf(),
        turns_taken(before, before.entities.map_values(entry_id()), seconds, trace),
    ensures
        trace.last().pruned().players == before.players.filter(
            owns_cell_in(trace.last().pruned().entities),
        ),
        forall|i: int|
            0 <= i < trace.last().pruned().players.len() ==> cells_of(
                trace.last().pruned().entities,
                (#[trigger] trace.last().pruned().players[i]).id,
            ).len() > 0,
        forall|i: int|
            0 <= i < trace.last().pruned().entities.len() ==> has_listed_owner(
                trace.last().pruned().players,
            )(#[trigger] trace.last().pruned().entities[i]),
        held_in_square(
            trace,
            before.entities.map_values(entry_id()),
            seconds,
            trace.last().pruned().entities,
        ),
        ticked_in_square(before, seconds, trace.last().pruned()),
        no_walls(before.entities) ==> cells_in_bounds(trace.last().pruned().entities),
{
    let order = before.entities.map_values(entry_id());
    let n = order.len() as int;
    lemma_turns_settle(before, order, seconds, trace, n);
    let end = trace.last();
    assert(end == trace[n]);
    let after = end.pruned();
    lemma_pruned(end);
    assert(order.take(n) =~= order);
    assert forall|i: int| 0 <= i < after.entities.len() implies in_bounds(
        #[trigger] after.entities[i],
    ) || pushed_before(trace, order, seconds, n, after.entities[i].0) by {
        let entry = after.entities[i];
        end.entities.lemma_filter_contains_rev(has_listed_owner(end.players), entry);
        let j = choose|j: int| 0 <= j < end.entities.len() && end.entities[j] == entry;
        assert(entry_settled(trace, order, seconds, n, end.entities[j]));
        if entry.1 is Cell {
            assert(order.contains(entry.0));
        }
    }
    if no_walls(before.entities) {
        assert forall|i: int| 0 <= i < after.entities.len() implies in_bounds(
            #[trigger] after.entities[i],
        ) by {
            let id = after.entities[i].0;
            if pushed_before(trace, order, seconds, n, id) {
                let at = choose|at: int|
                    0 <= at < n && #[trigger] pushed_in_turn(trace, order, seconds, at, id);
                lemma_turns_settle(before, order, seconds, trace, at);
                let cell = found(trace[at].entities, id).unwrap()->Cell_0;
                lemma_no_walls_no_push(
                    cell.spec_hunter(seconds, trace[at]),
                    id,
                    trace[at].entities,
                );
            }
        }
    }
}

/// What a tick leaves, whatever its turns were: see `lemma_trace_outcome`.
pub proof fn lemma_tick_outcome(before: WorldView, seconds: Scalar, after: WorldView)
    requires
        before.wf(),
        ticked(before, seconds, after),
    ensures
        after.players == before.players.filter(owns_cell_in(after.entities)),
        forall|i: int|
            0 <= i < after.players.len() ==> cells_of(
                after.entities,
                (#[trigger] after.players[i]).id,
            ).len() > 0,
        forall|i: int|
            0 <= i < after.entities.len() ==> has_listed_owner(after.players)(
                #[trigger] after.entities[i],
            ),
        ticked_in_square(before, seconds, after),
        no_walls(before.entities) ==> cells_in_bounds(after.entities),
{
    let order = before.entities.map_values(entry_id());
    let trace = choose|trace: Seq<WorldView>| #[trigger]
        turns_taken(before, order, seconds, trace) && after == trace.last().pruned();
    lemma_trace_outcome(before, seconds, trace);
}

} // verus!
