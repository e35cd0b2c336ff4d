use microbiome::ident::ID_COUNT;
use microbiome::scalar::ONE_RAW;
use microbiome::Cell;
use microbiome::Color;
use microbiome::Direction;
use microbiome::Entity;
use microbiome::Food;
use microbiome::IdSource;
use microbiome::Mass;
use microbiome::Player;
use microbiome::Position;
use microbiome::Scalar;
use microbiome::Speed;
use microbiome::Wall;
use microbiome::World;
use microbiome::ID;

const GREY: Color = Color { r: 128, g: 128, b: 128 };

fn place(x: (i64, i64), y: (i64, i64)) -> Position {
    Position(Scalar::from_ratio(x.0, x.1), Scalar::from_ratio(y.0, y.1))
}

fn food(mass: i64, x: (i64, i64)) -> Entity {
    Entity::Food(Food::new(Mass(Scalar::from_int(mass)), place(x, (0, 1))))
}

fn owned_cell(owner: Player, mass: i64, x: (i64, i64)) -> Entity {
    Entity::Cell(Cell::new(
        Mass(Scalar::from_int(mass)),
        place(x, (0, 1)),
        Direction::default(),
        Speed(Scalar::zero()),
        Some(owner),
    ))
}

fn numbers(world: &World) -> Vec<u32> {
    world.get_entities().iter().map(|entry| entry.0.to_number()).collect()
}

#[test]
fn a_new_world_is_empty() {
    let world = World::new();
    assert!(world.get_players().is_empty());
    assert!(world.get_entities().is_empty());
    assert!(world.get_cells().is_empty());
    assert_eq!(world.ids_left(), ID_COUNT);
    assert_eq!(world.count_food(), 0);
}

#[test]
fn entities_get_rising_identifiers() {
    let mut world = World::new();
    let first = world.add_entity(food(1, (0, 1))).unwrap();
    let second = world.add_entity(food(2, (0, 1))).unwrap();
    let third = world.add_entity(Entity::Wall(Wall::new(place((0, 1), (0, 1)), Scalar::one()))).unwrap();
    assert_eq!((first.to_number(), second.to_number(), third.to_number()), (0, 1, 2));
    assert_eq!(numbers(&world), vec![0, 1, 2]);
    assert_eq!(world.get_entity(second), Some(&food(2, (0, 1))));
    assert_eq!(world.ids_left(), ID_COUNT - 3);
}

#[test]
fn a_world_without_identifiers_adds_nothing() {
    let mut world = World::with_source(IdSource::starting_at(ID_COUNT - 1));
    let last = world.add_entity(food(1, (0, 1)));
    assert_eq!(last.map(|id| id.to_number()), Some(u32::MAX));
    assert_eq!(world.add_entity(food(2, (0, 1))), None);
    assert_eq!(world.get_entities().len(), 1);
    assert_eq!(world.ids_left(), 0);
}

#[test]
fn nobody_joins_a_world_with_one_identifier_left() {
    let mut world = World::with_source(IdSource::starting_at(ID_COUNT - 1));
    assert_eq!(world.create_new_player(['a'; 32], GREY), None);
    assert!(world.get_players().is_empty());
    assert!(world.get_entities().is_empty());
    assert_eq!(world.ids_left(), 1);
    let mut world = World::with_source(IdSource::starting_at(ID_COUNT - 2));
    let player = world.create_new_player(['a'; 32], GREY);
    assert_eq!(player.map(|p| p.get_id().to_number()), Some(u32::MAX - 1));
    assert_eq!(numbers(&world), vec![u32::MAX]);
    assert_eq!(world.ids_left(), 0);
}

#[test]
fn removed_identifiers_are_not_used_again() {
    let mut world = World::new();
    let first = world.add_entity(food(1, (0, 1))).unwrap();
    let second = world.add_entity(food(2, (0, 1))).unwrap();
    assert_eq!(world.remove_entity(first), Some(food(1, (0, 1))));
    assert_eq!(world.remove_entity(second), Some(food(2, (0, 1))));
    let third = world.add_entity(food(3, (0, 1))).unwrap();
    assert_eq!(third.to_number(), 2);
    assert_eq!(numbers(&world), vec![2]);
}

#[test]
fn removing_takes_one_entity_and_keeps_the_order() {
    let mut world = World::new();
    let ids: Vec<ID> = (1..=5).map(|mass| world.add_entity(food(mass, (0, 1))).unwrap()).collect();
    assert_eq!(world.remove_entity(ids[2]), Some(food(3, (0, 1))));
    assert_eq!(numbers(&world), vec![0, 1, 3, 4]);
    assert_eq!(world.get_entity(ids[2]), None);
    assert_eq!(world.get_entity(ids[3]), Some(&food(4, (0, 1))));
    assert_eq!(world.remove_entity(ids[2]), None);
    assert_eq!(numbers(&world), vec![0, 1, 3, 4]);
}

#[test]
fn updating_replaces_an_entity_in_its_place() {
    let mut world = World::new();
    let first = world.add_entity(food(1, (0, 1))).unwrap();
    let second = world.add_entity(food(2, (0, 1))).unwrap();
    world.update_entity(first, food(7, (1, 2)));
    assert_eq!(world.get_entity(first), Some(&food(7, (1, 2))));
    assert_eq!(world.get_entity(second), Some(&food(2, (0, 1))));
    assert_eq!(numbers(&world), vec![0, 1]);
}

#[test]
fn updating_what_is_not_there_changes_nothing() {
    let mut world = World::new();
    let first = world.add_entity(food(1, (0, 1))).unwrap();
    let gone = world.add_entity(food(2, (0, 1))).unwrap();
    world.remove_entity(gone);
    world.update_entity(gone, food(9, (0, 1)));
    assert_eq!(world.get_entity(gone), None);
    assert_eq!(world.get_entities(), vec![(first, &food(1, (0, 1)))]);
}

#[test]
fn an_entity_is_changed_through_its_reference() {
    let mut world = World::new();
    let first = world.add_entity(food(1, (0, 1))).unwrap();
    let second = world.add_entity(food(2, (0, 1))).unwrap();
    if let Some(entity) = world.get_entity_mut(second) {
        *entity = food(5, (1, 4));
    }
    assert_eq!(world.get_entity(second), Some(&food(5, (1, 4))));
    assert_eq!(world.get_entity(first), Some(&food(1, (0, 1))));
    world.remove_entity(first);
    assert!(world.get_entity_mut(first).is_none());
}

#[test]
fn a_new_player_gets_a_first_cell() {
    let mut world = World::new();
    let player = world.create_new_player(['p'; 32], GREY).unwrap();
    assert_eq!(player.get_id().to_number(), 0);
    assert_eq!(player.get_color(), GREY);
    assert_eq!(player.get_score(), 0);
    assert_eq!(player.get_name(), "p".repeat(32));
    assert_eq!(world.get_players(), vec![&player]);
    assert_eq!(numbers(&world), vec![1]);
    let cells = world.get_cells();
    assert_eq!(cells.len(), 1);
    assert_eq!(cells[0].get_player(), Some(&player));
    assert_eq!(cells[0].get_mass(), Mass::default() * Scalar::from_int(10));
    assert_eq!(cells[0].get_speed(), Speed(Scalar::zero()));
    assert_eq!(cells[0].age, Scalar::zero());
    assert_eq!(cells[0].get_position(), cells[0].get_position().clamped());
    assert_eq!(world.get_player_cells(&player), cells);
}

#[test]
fn players_are_found_by_identifier() {
    let mut world = World::new();
    let first = world.create_new_player(['a'; 32], GREY).unwrap();
    let second = world.create_new_player(['b'; 32], GREY).unwrap();
    assert_eq!(world.get_player(first.get_id()), Some(&first));
    assert_eq!(world.get_player(second.get_id()), Some(&second));
    assert_eq!(world.player_from_id(second.get_id()), Some(&second));
    let cell_id = world.get_entities()[0].0;
    assert_eq!(world.get_player(cell_id), None);
    assert_eq!(world.player_from_id(cell_id), None);
    assert_eq!(world.get_entity(first.get_id()), None);
}

#[test]
fn no_two_players_or_entities_share_an_identifier() {
    let mut world = World::new();
    let mut seen: Vec<u32> = Vec::new();
    for round in 0..20 {
        let player = world.create_new_player(['n'; 32], GREY).unwrap();
        world.add_entity(food(1, (0, 1))).unwrap();
        world.add_entity(owned_cell(player, 1, (0, 1))).unwrap();
        if round % 3 == 0 {
            let oldest = world.get_entities()[0].0;
            world.remove_entity(oldest);
        }
        if round % 5 == 0 {
            world.remove_player(player.get_id());
        }
    }
    for player in world.get_players() {
        seen.push(player.get_id().to_number());
    }
    for (id, _) in world.get_entities() {
        seen.push(id.to_number());
    }
    let count = seen.len();
    seen.sort();
    seen.dedup();
    assert_eq!(seen.len(), count);
    assert_eq!(world.get_players().len(), 16);
    assert_eq!(world.get_entities().len(), 53);
}

#[test]
fn removing_a_player_keeps_the_others_in_order() {
    let mut world = World::new();
    let first = world.create_new_player(['a'; 32], GREY).unwrap();
    let second = world.create_new_player(['b'; 32], GREY).unwrap();
    let third = world.create_new_player(['c'; 32], GREY).unwrap();
    world.remove_player(second.get_id());
    assert_eq!(world.get_players(), vec![&first, &third]);
    world.remove_player(second.get_id());
    assert_eq!(world.get_players(), vec![&first, &third]);
    assert_eq!(world.get_cells().len(), 3);
    world.remove_player(first.get_id());
    world.remove_player(third.get_id());
    assert!(world.get_players().is_empty());
}

#[test]
fn cells_are_listed_by_owner() {
    let mut world = World::new();
    let first = world.create_new_player(['a'; 32], GREY).unwrap();
    let second = world.create_new_player(['b'; 32], GREY).unwrap();
    world.add_entity(food(1, (0, 1))).unwrap();
    world.add_entity(owned_cell(first, 3, (0, 1))).unwrap();
    world.add_entity(Entity::Wall(Wall::new(place((0, 1), (0, 1)), Scalar::one()))).unwrap();
    world.add_entity(owned_cell(second, 4, (0, 1))).unwrap();
    world.add_entity(owned_cell(first, 5, (0, 1))).unwrap();
    assert_eq!(world.get_cells().len(), 5);
    let of_first: Vec<Mass> = world.get_player_cells(&first).iter().map(|c| c.get_mass()).collect();
    let small = Mass::default() * Scalar::from_int(10);
    assert_eq!(of_first, vec![small, Mass(Scalar::from_int(3)), Mass(Scalar::from_int(5))]);
    let of_second: Vec<Mass> = world.get_player_cells(&second).iter().map(|c| c.get_mass()).collect();
    assert_eq!(of_second, vec![small, Mass(Scalar::from_int(4))]);
    assert_eq!(world.count_food(), 1);
}

#[test]
fn a_stranger_owns_no_cells() {
    let mut world = World::new();
    let mut other = World::new();
    world.add_entity(food(1, (0, 1))).unwrap();
    let player = world.create_new_player(['a'; 32], GREY).unwrap();
    let stranger = other.create_new_player(['s'; 32], GREY).unwrap();
    assert_eq!(world.get_player_cells(&player).len(), 1);
    assert!(world.get_player_cells(&stranger).is_empty());
}

#[test]
fn controls_reach_the_player_and_its_cells() {
    let mut world = World::new();
    let first = world.create_new_player(['a'; 32], GREY).unwrap();
    let second = world.create_new_player(['b'; 32], GREY).unwrap();
    world.add_entity(owned_cell(first, 3, (0, 1))).unwrap();
    let heading = Direction(Scalar::from_int(2));
    let speed = Speed(Scalar::from_ratio(1, 8));
    world.set_controls(&first, heading, speed);
    let listed = world.get_player(first.get_id()).unwrap();
    assert_eq!(listed.get_direction(), heading);
    assert_eq!(listed.get_speed(), speed);
    assert_eq!(listed.get_id(), first.get_id());
    for cell in world.get_player_cells(&first) {
        assert_eq!(cell.get_direction(), heading);
        assert_eq!(cell.get_speed(), speed);
    }
    assert_eq!(world.get_player_cells(&first).len(), 2);
    assert_eq!(world.get_player(second.get_id()), Some(&second));
    for cell in world.get_player_cells(&second) {
        assert_eq!(cell.get_speed(), Speed(Scalar::zero()));
    }
}

#[test]
fn controls_of_a_stranger_change_nothing() {
    let mut world = World::new();
    let mut other = World::with_source(IdSource::starting_at(100));
    let player = world.create_new_player(['a'; 32], GREY).unwrap();
    let stranger = other.create_new_player(['s'; 32], GREY).unwrap();
    let cell = *world.get_cells()[0];
    world.set_controls(&stranger, Direction(Scalar::one()), Speed(Scalar::one()));
    assert_eq!(world.get_players(), vec![&player]);
    assert_eq!(world.get_cells(), vec![&cell]);
}

#[test]
fn the_camera_looks_at_the_weighted_centre() {
    let mut world = World::new();
    let player = world.create_new_player(['a'; 32], GREY).unwrap();
    let first = world.get_entities()[0].0;
    world.update_entity(first, owned_cell(player, 1, (1, 2)));
    world.add_entity(owned_cell(player, 3, (-1, 2))).unwrap();
    let camera = world.get_camera_position(&player);
    assert_eq!(camera.0.to_raw(), -274_877_906_942);
    assert_eq!(camera.1.to_raw(), 0);
    assert!((camera.0.to_raw() as f64 / ONE_RAW as f64 + 0.25).abs() < 1e-9);
}

#[test]
fn the_camera_of_a_player_without_cells_is_at_the_origin() {
    let mut world = World::new();
    let mut other = World::new();
    world.add_entity(food(1, (1, 2))).unwrap();
    let stranger = other.create_new_player(['s'; 32], GREY).unwrap();
    assert_eq!(world.get_camera_position(&stranger), place((0, 1), (0, 1)));
}

#[test]
fn players_without_cells_are_pruned() {
    let mut world = World::new();
    let first = world.create_new_player(['a'; 32], GREY).unwrap();
    let second = world.create_new_player(['b'; 32], GREY).unwrap();
    let third = world.create_new_player(['c'; 32], GREY).unwrap();
    let cells: Vec<ID> = world.get_entities().iter().map(|entry| entry.0).collect();
    world.remove_entity(cells[0]);
    world.remove_entity(cells[2]);
    world.prune_players();
    assert_eq!(world.get_players(), vec![&second]);
    assert_eq!(world.get_player(first.get_id()), None);
    assert_eq!(world.get_player(third.get_id()), None);
    world.prune_players();
    assert_eq!(world.get_players(), vec![&second]);
}

#[test]
fn the_order_of_turns_is_the_order_of_identifiers() {
    let mut world = World::new();
    for mass in 1..=4 {
        world.add_entity(food(mass, (0, 1))).unwrap();
    }
    let order: Vec<u32> = world.entity_ids().iter().map(|id| id.to_number()).collect();
    assert_eq!(order, vec![0, 1, 2, 3]);
}

#[test]
fn a_world_is_put_together_from_valid_parts() {
    let mut world = World::new();
    let player = world.create_new_player(['a'; 32], GREY).unwrap();
    world.add_entity(food(1, (0, 1))).unwrap();
    let gone = world.add_entity(food(2, (0, 1))).unwrap();
    world.add_entity(owned_cell(player, 3, (0, 1))).unwrap();
    world.remove_entity(gone);
    let players: Vec<Player> = world.get_players().into_iter().copied().collect();
    let entities: Vec<(ID, Entity)> = world.get_entities().into_iter().map(|(id, e)| (id, *e)).collect();
    let issued = ID_COUNT - world.ids_left();
    let again = World::from_parts(players.clone(), entities.clone(), IdSource::starting_at(issued));
    assert_eq!(again, Some(world));
    let mut again = again.unwrap();
    assert_eq!(again.add_entity(food(9, (0, 1))).map(|id| id.to_number() as u64), Some(issued));
}

#[test]
fn invalid_parts_make_no_world() {
    let mut world = World::new();
    let player = world.create_new_player(['a'; 32], GREY).unwrap();
    let other = world.create_new_player(['b'; 32], GREY).unwrap();
    let entities: Vec<(ID, Entity)> = world.get_entities().into_iter().map(|(id, e)| (id, *e)).collect();
    let players = vec![player, other];
    let source = || IdSource::starting_at(4);
    assert!(World::from_parts(players.clone(), entities.clone(), source()).is_some());
    assert!(World::from_parts(players.clone(), entities.clone(), IdSource::starting_at(3)).is_none());
    let swapped = vec![entities[1], entities[0]];
    assert!(World::from_parts(players.clone(), swapped, source()).is_none());
    let doubled = vec![entities[0], entities[0]];
    assert!(World::from_parts(players.clone(), doubled, source()).is_none());
    assert!(World::from_parts(vec![player, player], entities.clone(), source()).is_none());
    let mut impostor = other;
    impostor.id = entities[0].0;
    assert!(World::from_parts(vec![player, impostor], entities.clone(), source()).is_none());
    assert!(World::from_parts(vec![other, player], entities.clone(), source()).is_some());
    assert!(World::from_parts(Vec::new(), Vec::new(), IdSource::new()).is_some());
}

#[test]
fn entities_are_changed_through_their_references() {
    let mut world = World::new();
    let player = world.create_new_player(['a'; 32], GREY).unwrap();
    world.add_entity(food(1, (0, 1))).unwrap();
    world.add_entity(owned_cell(player, 3, (0, 1))).unwrap();
    let before = numbers(&world);
    {
        let entities = world.get_entities_mut();
        assert_eq!(entities.len(), 3);
        let listed: Vec<u32> = entities.iter().map(|entry| entry.0.to_number()).collect();
        assert_eq!(listed, before);
        for (_, entity) in entities {
            if let Entity::Food(morsel) = entity {
                *entity = Entity::Food(Food::new(morsel.to_mass() + morsel.to_mass(), morsel.get_position()));
            }
        }
    }
    assert_eq!(numbers(&world), before);
    assert_eq!(world.get_entities()[1].1, &food(2, (0, 1)));
    assert_eq!(world.get_entities()[2].1, &owned_cell(player, 3, (0, 1)));
}

#[test]
fn cells_are_changed_through_their_references() {
    let mut world = World::new();
    let first = world.create_new_player(['a'; 32], GREY).unwrap();
    world.add_entity(food(1, (0, 1))).unwrap();
    let second = world.create_new_player(['b'; 32], GREY).unwrap();
    world.add_entity(owned_cell(first, 3, (0, 1))).unwrap();
    world.add_entity(Entity::Wall(Wall::new(place((0, 1), (0, 1)), Scalar::one()))).unwrap();
    let before = numbers(&world);
    {
        let cells = world.get_cells_mut();
        assert_eq!(cells.len(), 3);
        for (step, cell) in cells.into_iter().enumerate() {
            cell.set_position(place((step as i64, 10), (0, 1)));
        }
    }
    assert_eq!(numbers(&world), before);
    let places: Vec<Position> = world.get_cells().iter().map(|cell| cell.get_position()).collect();
    assert_eq!(places, vec![place((0, 10), (0, 1)), place((1, 10), (0, 1)), place((2, 10), (0, 1))]);
    {
        let own = world.get_player_cells_mut(&first);
        assert_eq!(own.len(), 2);
        for cell in own {
            cell.age = Scalar::from_int(7);
        }
    }
    let ages: Vec<Scalar> = world.get_cells().iter().map(|cell| cell.age).collect();
    assert_eq!(ages, vec![Scalar::from_int(7), Scalar::zero(), Scalar::from_int(7)]);
    assert_eq!(world.get_player_cells(&second).len(), 1);
    assert_eq!(world.count_food(), 1);
    assert!(world.get_player_cells_mut(&second).len() == 1);
}

#[test]
fn a_large_world_hands_out_all_its_cells() {
    let mut world = World::new();
    let player = world.create_new_player(['a'; 32], GREY).unwrap();
    for step in 0..200_000 {
        if step % 2 == 0 {
            world.add_entity(food(1, (0, 1))).unwrap();
        } else {
            world.add_entity(owned_cell(player, 1, (0, 1))).unwrap();
        }
    }
    assert_eq!(world.get_entities_mut().len(), 200_001);
    assert_eq!(world.get_cells_mut().len(), 100_001);
    for cell in world.get_player_cells_mut(&player) {
        cell.age = Scalar::one();
    }
    assert!(world.get_cells().iter().all(|cell| cell.age == Scalar::one()));
}

#[test]
fn orphans_are_pruned() {
    let mut world = World::new();
    let mut other = World::with_source(IdSource::starting_at(100));
    let stranger = other.create_new_player(['s'; 32], GREY).unwrap();
    let player = world.create_new_player(['a'; 32], GREY).unwrap();
    let morsel = world.add_entity(food(1, (0, 1))).unwrap();
    let strange = world.add_entity(owned_cell(stranger, 2, (0, 1))).unwrap();
    let own = world.add_entity(owned_cell(player, 3, (0, 1))).unwrap();
    let wall = world.add_entity(Entity::Wall(Wall::new(place((0, 1), (0, 1)), Scalar::one()))).unwrap();
    let unowned = world
        .add_entity(Entity::Cell(Cell::new(
            Mass(Scalar::one()),
            place((0, 1), (0, 1)),
            Direction::default(),
            Speed(Scalar::zero()),
            None,
        )))
        .unwrap();
    world.prune_orphans();
    assert_eq!(numbers(&world), vec![1, morsel.to_number(), own.to_number(), wall.to_number()]);
    assert_eq!(world.get_entity(strange), None);
    assert_eq!(world.get_entity(unowned), None);
    assert_eq!(world.get_players(), vec![&player]);
    world.prune_orphans();
    assert_eq!(world.get_entities().len(), 4);
}

#[test]
fn pruning_takes_orphans_and_players_without_cells() {
    let mut world = World::new();
    let first = world.create_new_player(['a'; 32], GREY).unwrap();
    let second = world.create_new_player(['b'; 32], GREY).unwrap();
    let third = world.create_new_player(['c'; 32], GREY).unwrap();
    let cells: Vec<ID> = world.get_entities().iter().map(|entry| entry.0).collect();
    world.remove_entity(cells[0]);
    world.remove_player(third.get_id());
    let morsel = world.add_entity(food(1, (0, 1))).unwrap();
    world.prune();
    assert_eq!(world.get_players(), vec![&second]);
    assert_eq!(numbers(&world), vec![cells[1].to_number(), morsel.to_number()]);
    assert_eq!(world.get_player(first.get_id()), None);
    let before = world.clone();
    world.prune();
    assert_eq!(world, before);
}

#[test]
fn a_new_entity_gets_a_key_that_nothing_had() {
    let mut world = World::new();
    let player = world.create_new_player(['a'; 32], GREY).unwrap();
    world.add_entity(food(1, (0, 1))).unwrap();
    let before: Vec<(ID, Entity)> = world.get_entities().into_iter().map(|(id, e)| (id, *e)).collect();
    let added = world.add_entity(food(7, (1, 2))).unwrap();
    assert!(before.iter().all(|entry| entry.0 != added));
    assert!(added != player.get_id());
    assert_eq!(world.get_entity(added), Some(&food(7, (1, 2))));
    let after: Vec<(ID, Entity)> = world.get_entities().into_iter().map(|(id, e)| (id, *e)).collect();
    assert_eq!(after.len(), before.len() + 1);
    assert_eq!(&after[..before.len()], &before[..]);
    assert_eq!(world.get_players(), vec![&player]);
}
