use microbiome::Cell;
use microbiome::Color;
use microbiome::Direction;
use microbiome::Entity;
use microbiome::Food;
use microbiome::Mass;
use microbiome::Position;
use microbiome::Scalar;
use microbiome::Speed;
use microbiome::World;
use microbiome::WorldError;

const GREY: Color = Color { r: 128, g: 128, b: 128 };

fn origin() -> Position {
    Position(Scalar::zero(), Scalar::zero())
}

#[test]
fn a_mass_below_zero_is_reported() {
    assert_eq!(Mass::checked(Scalar::from_raw(-1)), Err(WorldError::InvalidMass));
    assert_eq!(Mass::checked(Scalar::from_int(-3)), Err(WorldError::InvalidMass));
    assert_eq!(Mass::checked(Scalar::from_raw(i64::MIN)), Err(WorldError::InvalidMass));
    assert_eq!(Mass::checked(Scalar::zero()), Ok(Mass(Scalar::zero())));
    assert_eq!(Mass::checked(Scalar::from_int(3)), Ok(Mass(Scalar::from_int(3))));
}

#[test]
fn an_unknown_entity_is_reported() {
    let mut world = World::new();
    let morsel = Entity::Food(Food::new(Mass(Scalar::one()), origin()));
    let kept = world.add_entity(morsel).unwrap();
    let gone = world.add_entity(morsel).unwrap();
    world.remove_entity(gone);
    assert_eq!(world.find_entity(kept), Ok(&morsel));
    assert_eq!(world.find_entity(gone), Err(WorldError::UnknownEntity));
}

#[test]
fn an_unknown_player_is_reported() {
    let mut world = World::new();
    let stays = world.create_new_player(['a'; 32], GREY).unwrap();
    let leaves = world.create_new_player(['b'; 32], GREY).unwrap();
    world.remove_player(leaves.get_id());
    assert_eq!(world.find_player(stays.get_id()), Ok(&stays));
    assert_eq!(world.find_player(leaves.get_id()), Err(WorldError::UnknownPlayer));
    let cell = world.get_entities()[0].0;
    assert_eq!(world.find_player(cell), Err(WorldError::UnknownPlayer));
}

#[test]
fn a_split_without_mature_cells_is_reported() {
    let mut world = World::new();
    let player = world.create_new_player(['a'; 32], GREY).unwrap();
    let before = world.clone();
    assert_eq!(world.try_mitosis(&player), Err(WorldError::MitosisNoEligibleCells));
    assert_eq!(world, before);
    let mut cell = Cell::new(
        Mass(Scalar::from_int(4)),
        origin(),
        Direction::default(),
        Speed::default(),
        Some(player),
    );
    cell.age = Scalar::from_int(9);
    world.add_entity(Entity::Cell(cell)).unwrap();
    assert_eq!(world.try_mitosis(&player), Ok(()));
    assert_eq!(world.get_player_cells(&player).len(), 3);
    assert_eq!(world.try_mitosis(&player), Err(WorldError::MitosisNoEligibleCells));
    assert_eq!(world.get_player_cells(&player).len(), 3);
}
