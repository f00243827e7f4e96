use cougr_core::component::{ComponentStorage, ComponentTrait};
use cougr_core::game_components::{Creature, Direction, DirectionComponent, PlayerMarker};
use cougr_core::symbol::Symbol;
use cougr_core::system::{IntoSystem, QueryParam, ResourceParam, System, SystemParam};
use cougr_core::world::World;

#[test]
fn creature_round_trips_and_has_exact_layout() {
    let c = Creature::new(7, 5, 20, 8, 5);
    assert_eq!(c.hp, 20);
    let bytes = c.serialize();
    assert_eq!(bytes.len(), 24);
    assert_eq!(&bytes[0..8], &[0, 0, 0, 7, 0, 0, 0, 5]);
    assert_eq!(Creature::deserialize(&bytes), Some(c));
    let max = Creature { species_id: u32::MAX, level: 0, hp: 1, max_hp: 2, atk: 3, def: u32::MAX };
    assert_eq!(Creature::deserialize(&max.serialize()), Some(max));
}

#[test]
fn creature_rejects_23_and_25_bytes() {
    assert_eq!(Creature::deserialize(&vec![0; 23]), None);
    assert_eq!(Creature::deserialize(&vec![0; 25]), None);
    assert!(Creature::deserialize(&vec![0; 24]).is_some());
}

#[test]
fn player_marker_is_one_byte() {
    assert_eq!(PlayerMarker.serialize(), vec![1]);
    assert_eq!(PlayerMarker::deserialize(&vec![1]), Some(PlayerMarker));
    assert_eq!(PlayerMarker::deserialize(&vec![]), None);
    assert_eq!(PlayerMarker::deserialize(&vec![1, 1]), None);
    assert_eq!(PlayerMarker::default_storage(), ComponentStorage::Sparse);
    assert_eq!(PlayerMarker::component_type(), Symbol::short("player"));
}

#[test]
fn direction_codes_and_range() {
    for (d, b) in [(Direction::Up, 0u8), (Direction::Down, 1), (Direction::Left, 2), (Direction::Right, 3)] {
        assert_eq!(d.to_u8(), b);
        assert_eq!(Direction::from_u8(b), Some(d));
        let c = DirectionComponent::new(d);
        assert_eq!(c.serialize(), vec![b]);
        assert_eq!(DirectionComponent::deserialize(&vec![b]), Some(c));
    }
    assert_eq!(Direction::from_u8(4), None);
    assert_eq!(DirectionComponent::deserialize(&vec![4]), None);
    assert_eq!(DirectionComponent::deserialize(&vec![0, 0]), None);
    assert_eq!(DirectionComponent::default_storage(), ComponentStorage::Table);
}

#[test]
fn parameters_fetch_nothing() {
    let mut world = World::new();
    assert!(QueryParam::fetch(&world).is_empty());
    assert!(ResourceParam::fetch_mut(&mut world).is_none());
    let param = QueryParam::new(vec![Symbol::short("position")]).with_component(Symbol::short("velocity"));
    assert_eq!(param.query.component_types.len(), 2);
    assert_eq!(ResourceParam::new(Symbol::short("score")).resource_type, Symbol::short("score"));
}

#[test]
fn closures_become_systems() {
    let mut system = (|world: &mut World, n: usize| world.entity_count() + n).into_system();
    let mut world = World::new();
    world.spawn_empty();
    assert_eq!(system.run(&mut world, 2), 3);
}
