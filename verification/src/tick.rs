//! The passing of time: what a tick does to a cell, and to the world.

use vstd::prelude::*;
use crate::entity::Cell;
use crate::entity::Entity;
use crate::entity::Food;
use crate::ident::ID;
use crate::ident::ID_COUNT;
use crate::laws::cells_in_bounds;
use crate::laws::in_bounds;
use crate::laws::lemma_cell_tick_in_bounds;
use crate::laws::lemma_trace_outcome;
use crate::laws::no_walls;
use crate::player::Player;
use crate::scalar::Scalar;
use crate::world::absent_from;
use crate::world::cells_of;
use crate::world::found;
use crate::world::has_listed_owner;
use crate::world::lemma_filter_keeps_all;
use crate::world::lemma_filter_twice;
use crate::world::listed;
use crate::world::owns_cell_in;
use crate::world::replacing;
use crate::world::World;
use crate::world::WorldView;

verus! {

/// The number of foods below which the world makes new ones.
pub const FOOD_FLOOR: usize = 1000;

/// The test that an entry is a food.
pub open spec fn is_food() -> spec_fn((ID, Entity)) -> bool {
    |entry: (ID, Entity)| entry.1 is Food
}

/// How many foods are among the entries.
pub open spec fn food_count(entries: Seq<(ID, Entity)>) -> nat {
    entries.filter(is_food()).len()
}

/// How many foods a tick of `seconds` asks for: ten a second, to the nearest
/// whole, while there are fewer than `FOOD_FLOOR` of them; none otherwise.
pub open spec fn foods_wanted(entries: Seq<(ID, Entity)>, seconds: Scalar) -> int {
    if food_count(entries) < FOOD_FLOOR {
        Scalar::spec_from_int(10).spec_mul(seconds).spec_abs().spec_round()
    } else {
        0
    }
}

/// Whether an entity is a food that can come out of `Food::default`.
pub open spec fn is_random_food(entity: Entity) -> bool {
    match entity {
        Entity::Food(food) => food.is_seeded(),
        _ => false,
    }
}

/// Whether `after` is `before` with nothing changed but random foods added
/// at the end, under the next identifiers of the source.
pub open spec fn sown(before: WorldView, after: WorldView) -> bool {
    &&& after.players == before.players
    &&& before.entities.len() <= after.entities.len()
    &&& after.entities.take(before.entities.len() as int) == before.entities
    &&& after.ids.issued() == before.ids.issued() + (after.entities.len() - before.entities.len())
    &&& forall|k: int|
        before.entities.len() <= k < after.entities.len() ==> {
            &&& (#[trigger] after.entities[k]).0.number() == before.ids.issued() + (k
                - before.entities.len())
            &&& is_random_food(after.entities[k].1)
        }
}

/// Whether `after` is `before` replenished for a tick of `seconds`: sown
/// with as many foods as the tick asks for, or as the source still has
/// identifiers for.
pub open spec fn replenished(before: WorldView, seconds: Scalar, after: WorldView) -> bool {
    let wanted = foods_wanted(before.entities, seconds);
    let left = ID_COUNT - before.ids.issued();
    &&& sown(before, after)
    &&& after.entities.len() - before.entities.len() == if wanted <= left {
        wanted
    } else {
        left
    }
}

/// The identifier of an entry.
pub open spec fn entry_id() -> spec_fn((ID, Entity)) -> ID {
    |entry: (ID, Entity)| entry.0
}

/// Whether `after` is `before` after the entity with identifier `id` has
/// had its turn in a tick of `seconds`. A cell lives its tick, which leaves
/// of the world what the cell has not eaten, replenished, and then stands
/// under `id` as it has become. A food grows. A wall, and an identifier
/// under which nothing stands any more, change nothing.
pub open spec fn turn_of(before: WorldView, id: ID, seconds: Scalar, after: WorldView) -> bool {
    match found(before.entities, id) {
        Some(Entity::Cell(cell)) => exists|fed: WorldView| #[trigger]
            replenished(cell.spec_leftovers(id, seconds, before), seconds, fed) && after == (
            WorldView {
                entities: fed.entities.map_values(
                    replacing(id, Entity::Cell(cell.spec_tick(id, seconds, before))),
                ),
                ..fed
            }),
        Some(Entity::Food(food)) => after == (WorldView {
            entities: before.entities.map_values(
                replacing(id, Entity::Food(food.spec_tick(seconds))),
            ),
            ..before
        }),
        Some(Entity::Wall(_)) => after == before,
        None => after == before,
    }
}

/// Whether `trace` holds the world after each turn of a tick of `seconds`
/// that starts from `start` and gives the identifiers of `order` their turn
/// one after the other.
pub open spec fn turns_taken(
    start: WorldView,
    order: Seq<ID>,
    seconds: Scalar,
    trace: Seq<WorldView>,
) -> bool {
    &&& trace.len() == order.len() + 1
    &&& trace[0] == start
    &&& forall|k: int|
        0 <= k < order.len() ==> turn_of(#[trigger] trace[k], order[k], seconds, trace[k + 1])
}

/// Whether `after` can be the world after a tick of `seconds` from `before`:
/// each entity that `before` holds has had its turn, in the world's order,
/// and then the cells without an owner among the players have gone, and
/// the players without a cell.
pub open spec fn ticked(before: WorldView, seconds: Scalar, after: WorldView) -> bool {
    exists|trace: Seq<WorldView>| #[trigger]
        turns_taken(before, before.entities.map_values(entry_id()), seconds, trace) && after
            == trace.last().pruned()
}

/// Whether the turn at index `at` of the tick is that of the cell with
/// identifier `id`, and a wall pushes the cell in it.
pub open spec fn pushed_in_turn(
    trace: Seq<WorldView>,
    order: Seq<ID>,
    seconds: Scalar,
    at: int,
    id: ID,
) -> bool {
    &&& 0 <= at < order.len()
    &&& order[at] == id
    &&& match found(trace[at].entities, id) {
        Some(Entity::Cell(cell)) => cell.spec_hunter(seconds, trace[at]).spec_pushed(
            id,
            trace[at].entities,
        ),
        _ => false,
    }
}

/// Whether a wall pushes the cell with identifier `id` in one of the first
/// `done` turns of the tick.
pub open spec fn pushed_before(
    trace: Seq<WorldView>,
    order: Seq<ID>,
    seconds: Scalar,
    done: int,
    id: ID,
) -> bool {
    exists|at: int| 0 <= at < done && #[trigger] pushed_in_turn(trace, order, seconds, at, id)
}

/// Whether every cell among the entries lies inside the world's square,
/// but for those that a wall has pushed in their turn of the tick.
pub open spec fn held_in_square(
    trace: Seq<WorldView>,
    order: Seq<ID>,
    seconds: Scalar,
    entries: Seq<(ID, Entity)>,
) -> bool {
    forall|i: int|
        0 <= i < entries.len() ==> in_bounds(#[trigger] entries[i]) || pushed_before(
            trace,
            order,
            seconds,
            order.len() as int,
            entries[i].0,
        )
}

/// Whether `after` can be the world after a tick of `seconds` from `before`
/// in which every cell that is left lies inside the world's square, but for
/// those that a wall has pushed in their turn. The clamp to the square comes
/// before the cell meets the walls, so a wall can push a cell over the edge.
pub open spec fn ticked_in_square(before: WorldView, seconds: Scalar, after: WorldView) -> bool {
    exists|trace: Seq<WorldView>| #[trigger]
        turns_taken(before, before.entities.map_values(entry_id()), seconds, trace) && after
            == trace.last().pruned() && held_in_square(
            trace,
            before.entities.map_values(entry_id()),
            seconds,
            after.entities,
        )
}

impl Cell {
    /// The cell with the steering of its owner, if `players` has the owner.
    pub open spec fn spec_update_controls(self, players: Seq<Player>) -> Cell {
        match self.owner() {
            Some(id) => match listed(players, id) {
                Some(player) => Cell { direction: player.direction, speed: player.speed, ..self },
                None => self,
            },
            None => self,
        }
    }

    /// The cell after moving for `seconds`: carried along its direction at
    /// the speed that its mass allows, slowed by friction, and held inside
    /// the world's square.
    pub open spec fn spec_advance(self, seconds: Scalar) -> Cell {
        let step = self.mass.spec_calculate_slowness(self.speed).spec_to_distance(seconds);
        let moved = self.spec_move_towards(self.direction, step).spec_apply_friction(seconds);
        Cell { position: moved.position.spec_clamped(), ..moved }
    }

    /// Whether the cell, whose own identifier is `my_id`, eats the entry.
    pub open spec fn spec_bites(self, my_id: ID, entry: (ID, Entity)) -> bool {
        entry.0 != my_id && match entry.1 {
            Entity::Food(food) => self.spec_can_swallow_food(food),
            Entity::Cell(cell) => self.spec_can_swallow_cell(cell),
            Entity::Wall(_) => false,
        }
    }

    /// The cell after it has met the entry: fed by what it eats, pushed out
    /// by a wall, unchanged by itself.
    pub open spec fn spec_meet(self, my_id: ID, entry: (ID, Entity)) -> Cell {
        if entry.0 == my_id {
            self
        } else {
            match entry.1 {
                Entity::Food(food) => if self.spec_can_swallow_food(food) {
                    self.spec_fed(food.mass)
                } else {
                    self
                },
                Entity::Cell(cell) => if self.spec_can_swallow_cell(cell) {
                    self.spec_fed(cell.mass)
                } else {
                    self
                },
                Entity::Wall(wall) => wall.spec_repel(self),
            }
        }
    }

    /// The cell after it has met the entries one after the other.
    pub open spec fn spec_graze(self, my_id: ID, entries: Seq<(ID, Entity)>) -> Cell
        decreases entries.len(),
    {
        if entries.len() == 0 {
            self
        } else {
            self.spec_graze(my_id, entries.drop_last()).spec_meet(my_id, entries.last())
        }
    }

    /// The identifiers of what the cell eats as it meets the entries one
    /// after the other, in that order.
    pub open spec fn spec_prey(self, my_id: ID, entries: Seq<(ID, Entity)>) -> Seq<ID>
        decreases entries.len(),
    {
        if entries.len() == 0 {
            Seq::empty()
        } else {
            let before = self.spec_prey(my_id, entries.drop_last());
            if self.spec_graze(my_id, entries.drop_last()).spec_bites(my_id, entries.last()) {
                before.push(entries.last().0)
            } else {
                before
            }
        }
    }

    /// The cell `seconds` older, and lighter by the decay over that time.
    pub open spec fn spec_wear(self, seconds: Scalar) -> Cell {
        Cell {
            age: self.age.spec_add(seconds),
            mass: self.mass.spec_scale(Cell::decay(seconds)),
            ..self
        }
    }

    /// The cell as it sets out to meet the entities of `world` in a tick of
    /// `seconds`: steered and moved.
    pub open spec fn spec_hunter(self, seconds: Scalar, world: WorldView) -> Cell {
        self.spec_update_controls(world.players).spec_advance(seconds)
    }

    /// Whether the entry at index `at` is a wall that pushes the cell, whose
    /// own identifier is `my_id`, as it meets the entries one after the
    /// other.
    pub open spec fn spec_pushed_at(self, my_id: ID, entries: Seq<(ID, Entity)>, at: int) -> bool {
        entries[at].0 != my_id && match entries[at].1 {
            Entity::Wall(wall) => wall.spec_touches(self.spec_graze(my_id, entries.take(at))),
            _ => false,
        }
    }

    /// Whether a wall pushes the cell as it meets the entries one after the
    /// other.
    pub open spec fn spec_pushed(self, my_id: ID, entries: Seq<(ID, Entity)>) -> bool {
        exists|at: int| 0 <= at < entries.len() && #[trigger] self.spec_pushed_at(my_id, entries, at)
    }

    /// The cell with identifier `my_id` after a tick of `seconds` in `world`:
    /// steered, moved, fed on what it meets, and worn.
    pub open spec fn spec_tick(self, my_id: ID, seconds: Scalar, world: WorldView) -> Cell {
        self.spec_update_controls(world.players).spec_advance(seconds).spec_graze(
            my_id,
            world.entities,
        ).spec_wear(seconds)
    }

    /// What a tick of the cell leaves of the world's entities: those that it
    /// has not eaten.
    pub open spec fn spec_leftovers(self, my_id: ID, seconds: Scalar, world: WorldView) -> WorldView {
        let hunter = self.spec_update_controls(world.players).spec_advance(seconds);
        WorldView {
            entities: world.entities.filter(
                absent_from(hunter.spec_prey(my_id, world.entities).to_set()),
            ),
            ..world
        }
    }

    /// Makes the cell follow the steering of its owner.
    pub fn update_controls(&mut self, world: &World)
        ensures
            *final(self) == old(self).spec_update_controls(world@.players),
    {
        if let Some(id) = self.get_player_id() {
            if let Some(player) = world.player_from_id(id) {
                self.set_velocity(player.get_direction(), player.get_speed());
            }
        }
    }

    /// Moves the cell for `seconds`, slows it, and holds it inside the
    /// world's square.
    pub fn advance(&mut self, seconds: Scalar)
        ensures
            *final(self) == old(self).spec_advance(seconds),
    {
        let direction = self.get_direction();
        let step: Scalar = self.mass.calculate_slowness(self.get_speed()).to_distance(seconds);
        self.move_towards(&direction, step);
        self.apply_friction(seconds);
        self.position = self.position.clamped();
    }

    /// Lets the cell meet every entity of the world but itself, and returns
    /// the identifiers of those that it has eaten. The world is not changed:
    /// what was eaten is taken out afterwards.
    pub fn graze(&mut self, my_id: ID, world: &World) -> (eaten: Vec<ID>)
        ensures
            *final(self) == old(self).spec_graze(my_id, world@.entities),
            eaten@ == old(self).spec_prey(my_id, world@.entities),
    {
        let ghost start = *self;
        let ghost all = world@.entities;
        let entries: Vec<(ID, &Entity)> = world.get_entities();
        let mut eaten: Vec<ID> = Vec::new();
        let mut i: usize = 0;
        while i < entries.len()
            invariant
                i <= entries.len(),
                all == world@.entities,
                entries@.len() == all.len(),
                forall|k: int|
                    0 <= k < entries@.len() ==> (#[trigger] entries@[k]).0 == all[k].0
                        && *entries@[k].1 == all[k].1,
                *self == start.spec_graze(my_id, all.take(i as int)),
                eaten@ == start.spec_prey(my_id, all.take(i as int)),
            decreases entries.len() - i,
        {
            let id: ID = entries[i].0;
            let entity: &Entity = entries[i].1;
            proof {
                assert(all.take(i + 1).drop_last() =~= all.take(i as int));
                assert(all.take(i + 1).last() == all[i as int]);
                assert(all[i as int] == (id, *entity));
            }
            if id != my_id {
                match entity {
                    Entity::Food(food) => {
                        if self.can_swallow_food(food) {
                            self.eat_food(food);
                            eaten.push(id);
                        }
                    },
                    Entity::Cell(cell) => {
                        if self.can_swallow_cell(cell) {
                            self.eat_cell(cell);
                            eaten.push(id);
                        }
                    },
                    Entity::Wall(wall) => {
                        wall.check_collisions(self);
                    },
                }
            }
            i += 1;
        }
        proof {
            assert(all.take(i as int) =~= all);
        }
        eaten
    }

    /// Ages the cell by `seconds` and lets its mass decay over that time.
    pub fn wear(&mut self, seconds: Scalar)
        ensures
            *final(self) == old(self).spec_wear(seconds),
    {
        let rate: Scalar = Scalar::from_ratio(3, 100);
        self.age = self.age + seconds;
        self.mass = self.mass * (Scalar::one() - rate * seconds);
    }

    /// Lives a tick of `seconds`. The cell, which stands in `world` under
    /// `my_id`, is steered, moved, fed on what it meets, and worn; what it has
    /// eaten leaves the world, and the world is replenished with food. The
    /// cell ends inside the world's square unless a wall has pushed it.
    pub fn tick(&mut self, my_id: ID, seconds_since_last_tick: Scalar, world: &mut World)
        requires
            old(world).wf(),
        ensures
            final(world).wf(),
            *final(self) == old(self).spec_tick(my_id, seconds_since_last_tick, old(world)@),
            replenished(
                old(self).spec_leftovers(my_id, seconds_since_last_tick, old(world)@),
                seconds_since_last_tick,
                final(world)@,
            ),
            final(self).position.in_bounds() || old(self).spec_hunter(
                seconds_since_last_tick,
                old(world)@,
            ).spec_pushed(my_id, old(world)@.entities),
    {
        proof {
            lemma_cell_tick_in_bounds(*old(self), my_id, seconds_since_last_tick, old(world)@);
        }
        self.update_controls(world);
        self.advance(seconds_since_last_tick);
        let ghost hunter = *self;
        let ghost all = world@.entities;
        let eaten: Vec<ID> = self.graze(my_id, world);

        proof {
            assert(eaten@.take(0).to_set() =~= Set::<ID>::empty());
            lemma_filter_keeps_all(all, absent_from(Set::<ID>::empty()));
        }
        let mut k: usize = 0;
        while k < eaten.len()
            invariant
                k <= eaten.len(),
                world.wf(),
                world@.players == old(world)@.players,
                world@.ids == old(world)@.ids,
                all == old(world)@.entities,
                world@.entities == all.filter(absent_from(eaten@.take(k as int).to_set())),
            decreases eaten.len() - k,
        {
            let gone: Option<Entity> = world.remove_entity(eaten[k]);
            proof {
                lemma_filter_twice(all, eaten@.take(k as int).to_set(), set![eaten@[k as int]]);
                assert(eaten@.take(k + 1) =~= eaten@.take(k as int).push(eaten@[k as int]));
                eaten@.take(k as int).lemma_push_to_set_commute(eaten@[k as int]);
                assert(eaten@.take(k + 1).to_set() =~= eaten@.take(k as int).to_set().union(
                    set![eaten@[k as int]],
                ));
            }
            k += 1;
        }
        proof {
            assert(eaten@.take(k as int) =~= eaten@);
            assert(world@ == old(self).spec_leftovers(
                my_id,
                seconds_since_last_tick,
                old(world)@,
            ));
        }

        world.replenish(seconds_since_last_tick);
        self.wear(seconds_since_last_tick);
    }
}

impl World {
    /// How many foods the world holds.
    pub fn count_food(&self) -> (r: usize)
        ensures
            r == food_count(self@.entities),
    {
        let entries: Vec<(ID, &Entity)> = self.get_entities();
        let ghost all = self@.entities;
        let mut count: usize = 0;
        let mut i: usize = 0;
        while i < entries.len()
            invariant
                i <= entries.len(),
                entries@.len() == all.len(),
                forall|k: int|
                    0 <= k < entries@.len() ==> (#[trigger] entries@[k]).0 == all[k].0
                        && *entries@[k].1 == all[k].1,
                count == food_count(all.take(i as int)),
                count <= i,
            decreases entries.len() - i,
        {
            proof {
                assert(all.take(i + 1) =~= all.take(i as int).push(all[i as int]));
                all.take(i as int).lemma_filter_len_push(is_food(), all[i as int]);
            }
            match entries[i].1 {
                Entity::Food(_) => {
                    count += 1;
                },
                _ => {},
            }
            i += 1;
        }
        proof {
            assert(all.take(i as int) =~= all);
        }
        count
    }

    /// Replenishes the world's food for a tick of `seconds`: while the world
    /// holds fewer than `FOOD_FLOOR` foods, ten random foods come for each
    /// second, as far as the source has identifiers for them.
    pub fn replenish(&mut self, seconds: Scalar)
        requires
            old(self).wf(),
        ensures
            final(self).wf(),
            replenished(old(self)@, seconds, final(self)@),
    {
        let wanted: i64 = if self.count_food() < FOOD_FLOOR {
            (Scalar::from_int(10) * seconds).abs().round()
        } else {
            0
        };
        let left: u64 = self.ids_left();
        let budget: i64 = if wanted <= left as i64 {
            wanted
        } else {
            left as i64
        };
        let ghost before = self@;
        let mut made: i64 = 0;
        proof {
            assert(self@.entities.take(self@.entities.len() as int) =~= self@.entities);
        }
        while made < budget
            invariant
                0 <= made <= budget,
                budget <= ID_COUNT - before.ids.issued(),
                before == old(self)@,
                self.wf(),
                sown(before, self@),
                self@.entities.len() == before.entities.len() + made,
            decreases budget - made,
        {
            let food: Food = Food::default();
            let ghost prior = self@;
            let added: Option<ID> = self.add_entity(Entity::Food(food));
            proof {
                let now = self@;
                assert(now.entities.take(before.entities.len() as int) =~= prior.entities.take(
                    before.entities.len() as int,
                ));
                assert forall|k: int|
                    before.entities.len() <= k < now.entities.len() implies {
                    &&& (#[trigger] now.entities[k]).0.number() == before.ids.issued() + (k
                        - before.entities.len())
                    &&& is_random_food(now.entities[k].1)
                } by {
                    if k < prior.entities.len() {
                        assert(now.entities[k] == prior.entities[k]);
                    }
                }
            }
            made += 1;
        }
    }
    /// The identifiers of the world's entities, in the world's order.
    pub fn entity_ids(&self) -> (r: Vec<ID>)
        ensures
            r@ == self@.entities.map_values(entry_id()),
    {
        let entries: Vec<(ID, &Entity)> = self.get_entities();
        let mut ids: Vec<ID> = Vec::new();
        let mut i: usize = 0;
        while i < entries.len()
            invariant
                i <= entries.len(),
                entries@.len() == self@.entities.len(),
                forall|k: int|
                    0 <= k < entries@.len() ==> (#[trigger] entries@[k]).0 == self@.entities[k].0,
                ids@ == self@.entities.take(i as int).map_values(entry_id()),
            decreases entries.len() - i,
        {
            ids.push(entries[i].0);
            proof {
                assert(ids@ =~= self@.entities.take(i + 1).map_values(entry_id()));
            }
            i += 1;
        }
        proof {
            assert(self@.entities.take(i as int) =~= self@.entities);
        }
        ids
    }

    /// Advances the world by `seconds`. Every entity that the world holds at
    /// the start has its turn, in the world's order, unless it was eaten
    /// before its turn came. Then the cells without an owner among the
    /// players go, and the players without a cell leave.
    pub fn tick(&mut self, seconds_since_last_tick: Scalar)
        requires
            old(self).wf(),
        ensures
            final(self).wf(),
            ticked(old(self)@, seconds_since_last_tick, final(self)@),
            final(self)@.players == old(self)@.players.filter(
                owns_cell_in(final(self)@.entities),
            ),
            forall|i: int|
                0 <= i < final(self)@.players.len() ==> cells_of(
                    final(self)@.entities,
                    (#[trigger] final(self)@.players[i]).id,
                ).len() > 0,
            forall|i: int|
                0 <= i < final(self)@.entities.len() ==> has_listed_owner(final(self)@.players)(
                    #[trigger] final(self)@.entities[i],
                ),
            ticked_in_square(old(self)@, seconds_since_last_tick, final(self)@),
            no_walls(old(self)@.entities) ==> cells_in_bounds(final(self)@.entities),
    {
        let order: Vec<ID> = self.entity_ids();
        let ghost start = self@;
        let ghost mut trace: Seq<WorldView> = seq![self@];
        let mut i: usize = 0;
        while i < order.len()
            invariant
                i <= order.len(),
                self.wf(),
                start == old(self)@,
                order@ == start.entities.map_values(entry_id()),
                trace.len() == i + 1,
                trace[0] == start,
                trace.last() == self@,
                forall|k: int|
                    0 <= k < i ==> turn_of(
                        #[trigger] trace[k],
                        order@[k],
                        seconds_since_last_tick,
                        trace[k + 1],
                    ),
            decreases order.len() - i,
        {
            let id: ID = order[i];
            let ghost before = self@;
            let current: Option<Entity> = match self.get_entity(id) {
                Some(entity) => Some(*entity),
                None => None,
            };
            match current {
                Some(Entity::Cell(cell)) => {
                    let mut cell: Cell = cell;
                    cell.tick(id, seconds_since_last_tick, self);
                    let ghost fed = self@;
                    self.update_entity(id, Entity::Cell(cell));
                    proof {
                        assert(replenished(
                            current.unwrap()->Cell_0.spec_leftovers(
                                id,
                                seconds_since_last_tick,
                                before,
                            ),
                            seconds_since_last_tick,
                            fed,
                        ));
                        assert(self@ == (WorldView {
                            entities: fed.entities.map_values(replacing(id, Entity::Cell(cell))),
                            ..fed
                        }));
                    }
                },
                Some(Entity::Food(food)) => {
                    let mut food: Food = food;
                    food.tick(id, seconds_since_last_tick, self);
                    self.update_entity(id, Entity::Food(food));
                    proof {
                        assert(self@ == (WorldView {
                            entities: before.entities.map_values(
                                replacing(id, Entity::Food(food)),
                            ),
                            ..before
                        }));
                    }
                },
                _ => {},
            }
            proof {
                assert(turn_of(before, id, seconds_since_last_tick, self@));
                let ghost longer = trace.push(self@);
                assert forall|k: int| 0 <= k < i + 1 implies turn_of(
                    #[trigger] longer[k],
                    order@[k],
                    seconds_since_last_tick,
                    longer[k + 1],
                ) by {
                    if k < i {
                        assert(longer[k] == trace[k] && longer[k + 1] == trace[k + 1]);
                    }
                }
                trace = longer;
            }
            i += 1;
        }
        self.prune();
        proof {
            assert(turns_taken(start, order@, seconds_since_last_tick, trace));
            lemma_trace_outcome(start, seconds_since_last_tick, trace);
        }
    }
}

} // verus!
