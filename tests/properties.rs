use cougr_core::component::{Component, ComponentId, ComponentRegistry, ComponentTrait, Position, Velocity};
use cougr_core::components;
use cougr_core::entity::{EntityId, EntityManager};
use cougr_core::event::{CollisionEvent, DamageEvent, Event, EventReader, EventTrait, EventWriter};
use cougr_core::query::{query_with_filter, AllFilters, AnyFilter, Query, QueryFilter, WithoutComponent};
use cougr_core::resource::{GameState, Resource, ResourceTrait};
use cougr_core::storage::Storage;
use cougr_core::symbol::Symbol;
use cougr_core::system::{CollisionSystem, HealthSystem, System};
use cougr_core::systems::MovementSystem;
use cougr_core::world::World;
use cougr_core::{add_component, create_world, get_component, query_entities, remove_component, spawn_entity};

fn tag(name: &str) -> Symbol {
    Symbol::short(name)
}

fn position(x: i32, y: i32) -> Component {
    Component::new(Position::component_type(), Position::new(x, y).serialize())
}

fn velocity(x: i32, y: i32) -> Component {
    Component::new(Velocity::component_type(), Velocity::new(x, y).serialize())
}

#[test]
fn symbol_words_pack_six_bit_codes() {
    assert_eq!(tag("_").bits(), 270);
    assert_eq!(tag("a").bits(), 38 * 256 + 14);
    assert_eq!(tag("ab").bits(), (38 * 64 + 39) * 256 + 14);
    assert_eq!(tag("A0").bits(), (12 * 64 + 2) * 256 + 14);
    assert_ne!(tag("position"), tag("velocity"));
}

#[test]
fn symbol_from_bits_accepts_only_small_symbol_words() {
    assert_eq!(Symbol::from_bits(tag("fire").bits()), Some(tag("fire")));
    assert_eq!(Symbol::from_bits(15), None);
    assert_eq!(Symbol::from_bits(0x4000_0000_0000_000e), None);
    assert_eq!(Symbol::from_bits(14), Some(Symbol::from_bits(14).unwrap()));
}

#[test]
fn position_bytes_are_big_endian() {
    assert_eq!(Position::new(1, -2).serialize(), vec![0, 0, 0, 1, 255, 255, 255, 254]);
    assert_eq!(Velocity::new(256, 0).serialize(), vec![0, 0, 1, 0, 0, 0, 0, 0]);
}

#[test]
fn payloads_round_trip_at_extremes() {
    for (x, y) in [(i32::MIN, i32::MAX), (0, -1), (-7, 7)] {
        assert_eq!(Position::deserialize(&Position::new(x, y).serialize()), Some(Position::new(x, y)));
        assert_eq!(Velocity::deserialize(&Velocity::new(x, y).serialize()), Some(Velocity::new(x, y)));
    }
    let g = GameState { score: i32::MIN, level: i32::MAX, is_game_over: true };
    assert_eq!(GameState::deserialize(&g.serialize()), Some(g));
    let c = CollisionEvent::new(u64::MAX, 0, tag("physical"));
    assert_eq!(CollisionEvent::deserialize(&c.serialize()), Some(c));
    let d = DamageEvent::new(1, i32::MIN, tag("fire"));
    assert_eq!(DamageEvent::deserialize(&d.serialize()), Some(d));
}

#[test]
fn payloads_reject_wrong_lengths() {
    assert_eq!(Position::deserialize(&vec![0; 7]), None);
    assert_eq!(Position::deserialize(&vec![0; 9]), None);
    assert_eq!(Velocity::deserialize(&vec![]), None);
    assert_eq!(GameState::deserialize(&vec![0; 8]), None);
    assert_eq!(GameState::deserialize(&vec![0; 10]), None);
    let mut c = CollisionEvent::new(1, 2, tag("physical")).serialize();
    c.push(0);
    assert_eq!(CollisionEvent::deserialize(&c), None);
    c.truncate(23);
    assert_eq!(CollisionEvent::deserialize(&c), None);
    let mut d = DamageEvent::new(1, 2, tag("fire")).serialize();
    assert_eq!(d.len(), 20);
    d.push(0);
    assert_eq!(DamageEvent::deserialize(&d), None);
    d.truncate(19);
    assert_eq!(DamageEvent::deserialize(&d), None);
}

#[test]
fn event_payloads_reject_a_bad_symbol_word() {
    let mut c = CollisionEvent::new(1, 2, tag("physical")).serialize();
    c[23] = 0;
    assert_eq!(CollisionEvent::deserialize(&c), None);
}

#[test]
fn game_state_bytes_and_flag() {
    let g = GameState { score: 100, level: 2, is_game_over: true };
    assert_eq!(g.serialize(), vec![0, 0, 0, 100, 0, 0, 0, 2, 1]);
    let read = GameState::deserialize(&vec![0, 0, 0, 0, 0, 0, 0, 1, 7]).unwrap();
    assert!(read.is_game_over);
    let mut s = GameState::new();
    s.increment_score(-5);
    s.next_level();
    s.game_over();
    assert_eq!(s, GameState { score: -5, level: 2, is_game_over: true });
    assert_eq!(GameState::default(), GameState::new());
}

#[test]
fn storage_upsert_keeps_one_row_with_latest_payload() {
    let mut storage = Storage::new();
    let e5 = EntityId::new(5, 0);
    storage.add_component(e5, position(1, 1));
    storage.add_component(e5, position(2, 2));
    let got = storage.get_component(e5, Position::component_type()).unwrap();
    assert_eq!(Position::deserialize(got.data()), Some(Position::new(2, 2)));
    assert_eq!(storage.len(), 1);
    assert_eq!(storage.get_entity_components(e5).len(), 1);
}

#[test]
fn storage_remove_absent_and_present() {
    let mut storage = Storage::new();
    let e1 = EntityId::new(1, 0);
    storage.add_component(e1, position(3, 4));
    assert!(!storage.remove_component(e1, Velocity::component_type()));
    assert!(!storage.remove_component(EntityId::new(2, 0), Position::component_type()));
    assert_eq!(storage.len(), 1);
    assert!(storage.has_component(e1, Position::component_type()));
    assert!(storage.remove_component(e1, Position::component_type()));
    assert!(!storage.has_component(e1, Position::component_type()));
    assert!(storage.is_empty());
}

#[test]
fn storage_entity_components_keep_table_order() {
    let mut storage = Storage::new();
    let a = EntityId::new(1, 0);
    let b = EntityId::new(2, 0);
    storage.add_component(a, position(1, 1));
    storage.add_component(b, position(9, 9));
    storage.add_component(a, velocity(2, 2));
    let comps = storage.get_entity_components(a);
    assert_eq!(comps.len(), 2);
    assert_eq!(comps[0].component_type, Position::component_type());
    assert_eq!(comps[1].component_type, Velocity::component_type());
    storage.clear();
    assert_eq!(storage.len(), 0);
}

#[test]
fn entity_ids_are_reused_most_recent_first() {
    let mut manager = EntityManager::new();
    let first = manager.spawn();
    let second = manager.spawn();
    assert_eq!(first.id(), 1);
    assert_eq!(second.id(), 2);
    assert!(manager.despawn(first));
    assert_eq!(manager.spawn().id(), 1);
    assert_eq!(manager.spawn().id(), 3);
    assert!(!manager.despawn(EntityId::new(99, 0)));
}

#[test]
fn despawn_frees_in_lifo_order() {
    let mut manager = EntityManager::new();
    let a = manager.spawn();
    let b = manager.spawn();
    manager.despawn(a);
    manager.despawn(b);
    assert_eq!(manager.spawn().id(), 2);
    assert_eq!(manager.spawn().id(), 1);
}

#[test]
fn query_requires_and_excludes() {
    let mut world = World::new();
    let e1 = world.spawn(vec![position(0, 0), velocity(1, 1)]).id();
    let e2 = world.spawn(vec![position(5, 5)]).id();
    let e3 = world.spawn(vec![velocity(2, 2)]).id();
    let query = Query::new()
        .with_component(Position::component_type())
        .without_component(Velocity::component_type());
    assert_eq!(query.execute(&world), vec![e2]);
    assert_eq!(world.query_entities(&[Velocity::component_type()]), vec![e1, e3]);
    let filter = WithoutComponent::new(Velocity::component_type());
    assert_eq!(query_with_filter(&world, &filter), vec![e2]);
    let all = AllFilters::new()
        .add_filter(Position::component_type())
        .add_filter(Velocity::component_type());
    assert!(all.matches(&world, e1));
    assert!(!all.matches(&world, e2));
    let any = AnyFilter::new().add_filter(Velocity::component_type());
    assert!(any.matches(&world, e3));
    assert!(!any.matches(&world, e2));
}

#[test]
fn reader_drains_one_type_in_order() {
    let x = tag("x");
    let y = tag("y");
    let events = vec![
        Event::with_timestamp(x, vec![1], 10),
        Event::with_timestamp(x, vec![2], 11),
        Event::with_timestamp(y, vec![3], 12),
    ];
    let mut reader = EventReader::new(&events, x);
    assert_eq!(reader.read().unwrap().data, vec![1]);
    assert_eq!(reader.read().unwrap().data, vec![2]);
    assert!(reader.has_more());
    assert!(reader.read().is_none());
    assert!(!reader.has_more());
    reader.reset();
    assert_eq!(reader.read().unwrap().timestamp(), 10);
}

#[test]
fn world_events_filter_and_clear() {
    let mut world = World::new();
    world.send_event(Event::new(tag("x"), vec![1]));
    world.send_event(Event::new(tag("y"), vec![2]));
    world.send_event(Event::new(tag("x"), vec![3]));
    let xs = world.get_events(&tag("x"));
    assert_eq!(xs.len(), 2);
    assert_eq!(xs[1].data, vec![3]);
    world.clear_events();
    assert_eq!(world.get_events(&tag("x")).len(), 0);
    assert_eq!(world.get_events(&tag("y")).len(), 0);
}

#[test]
fn writer_appends_in_order() {
    let mut events = Vec::new();
    {
        let mut writer = EventWriter::new(&mut events);
        writer.send(Event::new(tag("a"), vec![]));
        writer.send_with_data(tag("b"), vec![9]);
        writer.send_batch(vec![Event::new(tag("c"), vec![]), Event::new(tag("d"), vec![])]);
    }
    let types: Vec<Symbol> = events.iter().map(|e| e.event_type).collect();
    assert_eq!(types, vec![tag("a"), tag("b"), tag("c"), tag("d")]);
}

#[test]
fn resources_add_get_remove() {
    let mut world = World::new();
    let score = tag("score");
    world.add_resource(Resource::new(score, vec![1]));
    assert_eq!(world.get_resource(&score).unwrap().data, vec![1]);
    world.add_resource(Resource::new(tag("level"), vec![5]));
    world.add_resource(Resource::new(score, vec![2]));
    assert_eq!(world.get_resource(&score).unwrap().data, vec![1]);
    assert_eq!(world.remove_resource(&score).unwrap().data, vec![2]);
    assert!(world.get_resource(&score).is_none());
    assert!(world.remove_resource(&score).is_none());
    assert_eq!(world.resources.len(), 1);
    world.clear_resources();
    assert!(world.get_resource(&tag("level")).is_none());
}

#[test]
fn despawn_removes_every_stored_component() {
    let mut world = World::new();
    let keep = world.spawn(vec![position(7, 7)]).id();
    let gone = world.spawn(vec![position(1, 2), velocity(3, 4)]).id();
    assert_eq!(world.storage.get_entity_components(gone).len(), 2);
    assert!(world.despawn(gone));
    assert_eq!(world.storage.get_entity_components(gone).len(), 0);
    assert_eq!(world.storage.len(), 1);
    assert!(world.has_component(keep, &Position::component_type()));
    assert!(!world.despawn(gone));
}

#[test]
fn world_components_stay_linked_to_tags() {
    let mut world = World::new();
    let e = world.spawn_empty().id();
    world.add_component_to_entity(e, position(1, 1));
    world.add_component_to_entity(e, position(2, 2));
    let entity = world.get_entity(e).unwrap();
    assert_eq!(entity.component_count(), 1);
    assert!(world.has_component(e, &Position::component_type()));
    let got = world.get_component(e, &Position::component_type()).unwrap();
    assert_eq!(Position::deserialize(got.data()), Some(Position::new(2, 2)));
    assert!(world.remove_component_from_entity(e, &Position::component_type()));
    assert!(!world.has_component(e, &Position::component_type()));
    assert!(!world.remove_component_from_entity(e, &Position::component_type()));
    assert!(world.get_entity(e).unwrap().is_empty());
    assert_eq!(world.component_count(), 1);
}

#[test]
fn adding_to_a_dead_entity_only_registers_the_type() {
    let mut world = World::new();
    world.add_component_to_entity(EntityId::new(4, 0), velocity(1, 1));
    assert_eq!(world.storage.len(), 0);
    assert_eq!(world.component_count(), 1);
    assert!(!world.has_component(EntityId::new(4, 0), &Velocity::component_type()));
}

#[test]
fn spawn_returns_entity_with_its_tags() {
    let mut world = World::new();
    let entity = world.spawn(vec![position(1, 1), velocity(0, 1), position(4, 4)]);
    assert_eq!(entity.component_count(), 2);
    assert_eq!(entity.component_types()[0], Position::component_type());
    let got = world.get_component(entity.id(), &Position::component_type()).unwrap();
    assert_eq!(Position::deserialize(got.data()), Some(Position::new(4, 4)));
}

#[test]
fn registry_assigns_ids_from_one() {
    let mut registry = ComponentRegistry::new();
    let a = registry.register_component(tag("a"));
    let b = registry.register_component(tag("b"));
    assert_eq!(a, ComponentId::new(1));
    assert_eq!(b, ComponentId::new(2));
    assert_eq!(registry.register_component(tag("a")), ComponentId::new(1));
    assert_eq!(registry.get_component_type(ComponentId::new(2)), Some(tag("b")));
    assert_eq!(registry.get_component_type(ComponentId::new(3)), None);
    assert_eq!(registry.get_component_type(ComponentId::new(0)), None);
    assert_eq!(registry.get_component_id(&tag("c")), None);
}

#[test]
fn movement_clamps_at_zero() {
    let p = components::Position { x: 5, y: 5 };
    assert_eq!(MovementSystem::update(&p, -10, 3), components::Position { x: 0, y: 8 });
    assert_eq!(MovementSystem::update(&p, 0, -5), components::Position { x: 5, y: 0 });
}

#[test]
fn collision_system_pairs_entities_in_order() {
    let mut world = World::new();
    let shape = Component::new(tag("collision"), vec![]);
    let a = world.spawn(vec![position(0, 0), shape.clone()]).id();
    let _lone = world.spawn(vec![position(0, 0)]).id();
    let b = world.spawn(vec![position(1, 1), shape.clone()]).id();
    let c = world.spawn(vec![shape.clone(), position(2, 2)]).id();
    CollisionSystem.run(&mut world, ());
    let events = world.get_events(&CollisionEvent::event_type());
    let pairs: Vec<(u64, u64)> = events
        .iter()
        .map(|e| {
            let c = CollisionEvent::deserialize(e.data()).unwrap();
            assert_eq!(c.collision_type, tag("physical"));
            (c.entity_a, c.entity_b)
        })
        .collect();
    assert_eq!(pairs, vec![(a.id(), b.id()), (a.id(), c.id()), (b.id(), c.id())]);
}

#[test]
fn health_system_leaves_world_unchanged() {
    let mut world = World::new();
    let damage = DamageEvent::new(1, 5, tag("fire"));
    world.send_event(Event::new(DamageEvent::event_type(), damage.serialize()));
    HealthSystem.run(&mut world, ());
    assert_eq!(world.get_events(&tag("damage")).len(), 1);
}

#[test]
fn top_level_functions_delegate_to_the_world() {
    let mut world = create_world();
    let e = spawn_entity(&mut world, vec![position(1, 2)]);
    assert!(add_component(&mut world, e, velocity(3, 4)));
    assert!(!add_component(&mut world, EntityId::new(50, 0), velocity(3, 4)));
    assert_eq!(query_entities(&world, vec![Velocity::component_type()]), vec![e]);
    assert!(get_component(&world, e, Velocity::component_type()).is_some());
    assert!(remove_component(&mut world, e, Velocity::component_type()));
    assert!(get_component(&world, e, Velocity::component_type()).is_none());
    world.clear();
    assert_eq!(world.entity_count(), 0);
}

#[test]
fn entity_id_zero_is_invalid() {
    assert!(!EntityId::new(0, 0).is_valid());
    let world = World::new();
    assert!(!world.is_alive(EntityId::new(0, 0)));
    assert!(world.get_entity(EntityId::new(0, 0)).is_none());
}
