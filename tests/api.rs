use cougr_core::component::{
    Component, ComponentId, ComponentRegistry, ComponentStorage, ComponentTrait, Position,
};
use cougr_core::entity::{Entity, EntityId, EntityManager};
use cougr_core::event::{CollisionEvent, DamageEvent, Event, EventTrait};
use cougr_core::query::{
    query_with_filter, AllFilters, AnyFilter, Query, QueryBuilder, QueryFilter, QueryState,
    WithComponent, WithoutComponent,
};
use cougr_core::resource::{GameState, Resource, ResourceTrait};
use cougr_core::system::{CollisionSystem, FunctionSystem, MovementSystem, System};
use cougr_core::symbol::Symbol;
use cougr_core::world::World;

#[test]
fn test_event_creation() {
    let event_type = Symbol::short("testevent");
    let mut data = Vec::new();
    data.extend_from_slice(&[1, 2, 3, 4]);
    let event = Event::new(event_type, data.clone());

    assert_eq!(event.event_type(), &Symbol::short("testevent"));
    assert_eq!(event.data(), &data);
    assert_eq!(event.timestamp(), 0);
}

#[test]
fn test_collision_event_serialization() {
    let collision_event = CollisionEvent::new(123, 456, Symbol::short("physical"));

    let data = collision_event.serialize();
    let deserialized = CollisionEvent::deserialize(&data).unwrap();

    assert_eq!(collision_event.entity_a, deserialized.entity_a);
    assert_eq!(collision_event.entity_b, deserialized.entity_b);
    assert_eq!(collision_event.collision_type, deserialized.collision_type);
}

#[test]
fn test_damage_event_serialization() {
    let damage_event = DamageEvent::new(789, 50, Symbol::short("fire"));

    let data = damage_event.serialize();
    let deserialized = DamageEvent::deserialize(&data).unwrap();

    assert_eq!(damage_event.target_entity, deserialized.target_entity);
    assert_eq!(damage_event.damage_amount, deserialized.damage_amount);
    assert_eq!(damage_event.damage_type, deserialized.damage_type);
}

#[test]
fn lib_test_world_creation() {
    let world = World::new();
    assert_eq!(world.entity_count(), 0);
}

#[test]
fn lib_test_entity_spawn() {
    let mut world = World::new();
    let _entity = world.spawn_empty();
    assert_eq!(world.entity_count(), 1);
}

#[test]
fn test_component_id_creation() {
    let id = ComponentId::new(1);
    assert_eq!(id.id(), 1);
}

#[test]
fn test_component_creation() {
    let component_type = Symbol::short("test");
    let mut data = Vec::new();
    data.extend_from_slice(&[1, 2, 3, 4]);
    let component = Component::new(component_type, data.clone());

    assert_eq!(component.component_type(), &Symbol::short("test"));
    assert_eq!(component.data(), &data);
    assert_eq!(component.storage(), ComponentStorage::Table);
}

#[test]
fn test_component_registry() {
    let mut registry = ComponentRegistry::new();
    assert_eq!(registry.component_count(), 0);

    let component_type = Symbol::short("test");
    let id = registry.register_component(component_type);
    assert_eq!(registry.component_count(), 1);
    assert!(registry.is_registered(&component_type));

    let retrieved_id = registry.get_component_id(&component_type);
    assert_eq!(retrieved_id, Some(id));
}

#[test]
fn test_position_component() {
    let position = Position::new(100, 200);
    let data = position.serialize();
    let deserialized = Position::deserialize(&data).unwrap();

    assert_eq!(position.x, deserialized.x);
    assert_eq!(position.y, deserialized.y);
}

#[test]
fn test_entity_id_creation() {
    let entity_id = EntityId::new(1, 0);
    assert_eq!(entity_id.id(), 1);
    assert_eq!(entity_id.generation(), 0);
    assert!(entity_id.is_valid());
}

#[test]
fn test_entity_creation() {
    let entity_id = EntityId::new(1, 0);
    let entity = Entity::new(entity_id);
    assert_eq!(entity.id(), entity_id);
    assert!(entity.is_empty());
}

#[test]
fn test_entity_manager() {
    let mut manager = EntityManager::new();
    assert_eq!(manager.entity_count(), 0);

    let entity_id = manager.spawn();
    assert_eq!(manager.entity_count(), 1);
    assert!(manager.is_alive(entity_id));

    assert!(manager.despawn(entity_id));
    assert_eq!(manager.entity_count(), 0);
    assert!(!manager.is_alive(entity_id));
}

#[test]
fn query_test_query_creation() {
    let query = Query::new();
    assert!(query.is_empty());
}

#[test]
fn test_query_with_component() {
    let query = Query::new()
        .with_component(Symbol::short("position"))
        .with_component(Symbol::short("velocity"));

    assert!(!query.is_empty());
    assert_eq!(query.required_components.len(), 2);
}

#[test]
fn test_query_builder() {
    let query = QueryBuilder::new()
        .with_component(Symbol::short("position"))
        .without_component(Symbol::short("dead"))
        .build();

    assert!(!query.is_empty());
    assert_eq!(query.required_components.len(), 1);
    assert_eq!(query.excluded_components.len(), 1);
}

#[test]
fn query_test_query_state() {
    let query = Query::new().with_component(Symbol::short("position"));
    let mut query_state = QueryState::new(query);

    let world = World::new();
    let results = query_state.execute(&world);
    assert_eq!(results.len(), 0);
    assert!(query_state.is_empty());
}

#[test]
fn test_with_component_filter() {
    let filter = WithComponent::new(Symbol::short("position"));
    let world = World::new();

    let entity_id = EntityId::new(1, 0);
    assert!(!filter.matches(&world, entity_id));
}

#[test]
fn test_without_component_filter() {
    let filter = WithoutComponent::new(Symbol::short("position"));
    let world = World::new();

    let entity_id = EntityId::new(1, 0);
    assert!(filter.matches(&world, entity_id));
}

#[test]
fn test_all_filters() {
    let filter = AllFilters::new()
        .add_filter(Symbol::short("position"))
        .add_filter(Symbol::short("dead"));

    let world = World::new();
    let entity_id = EntityId::new(1, 0);

    assert!(!filter.matches(&world, entity_id));
}

#[test]
fn test_any_filter() {
    let filter = AnyFilter::new()
        .add_filter(Symbol::short("position"))
        .add_filter(Symbol::short("velocity"));

    let world = World::new();
    let entity_id = EntityId::new(1, 0);

    assert!(!filter.matches(&world, entity_id));
}

#[test]
fn test_query_with_filter() {
    let filter = WithComponent::new(Symbol::short("position"));
    let world = World::new();

    let results = query_with_filter(&world, &filter);
    assert_eq!(results.len(), 0);
}

#[test]
fn test_resource_creation() {
    let resource_type = Symbol::short("testres");
    let mut data = Vec::new();
    data.extend_from_slice(&[1, 2, 3, 4]);
    let resource = Resource::new(resource_type, data.clone());

    assert_eq!(resource.resource_type(), &Symbol::short("testres"));
    assert_eq!(resource.data(), &data);
}

#[test]
fn test_game_state_serialization() {
    let mut game_state = GameState::new();
    game_state.increment_score(100);
    game_state.next_level();

    let data = game_state.serialize();
    let deserialized = GameState::deserialize(&data).unwrap();

    assert_eq!(game_state.score, deserialized.score);
    assert_eq!(game_state.level, deserialized.level);
    assert_eq!(game_state.is_game_over, deserialized.is_game_over);
}

#[test]
fn system_test_query_creation() {
    let mut component_types = Vec::new();
    component_types.push(Symbol::short("position"));
    component_types.push(Symbol::short("velocity"));
    let query = cougr_core::system::Query::new(component_types);

    let world = World::new();
    let results = query.execute(&world);
    assert_eq!(results.len(), 0);
}

#[test]
fn system_test_query_state() {
    let mut component_types = Vec::new();
    component_types.push(Symbol::short("position"));
    let query = cougr_core::system::Query::new(component_types);
    let mut query_state = cougr_core::system::QueryState::new(query);

    let world = World::new();
    let results = query_state.execute(&world);
    assert_eq!(results.len(), 0);
    assert!(query_state.is_empty());
}

#[test]
fn test_function_system() {
    let mut system = FunctionSystem::new(|_world: &mut World, input: i32| input);

    let mut world = World::new();
    let result = system.run(&mut world, 42);
    assert_eq!(result, 42);
}

#[test]
fn test_movement_system() {
    let mut system = MovementSystem;
    let mut world = World::new();

    system.run(&mut world, ());
}

#[test]
fn test_collision_system() {
    let mut system = CollisionSystem;
    let mut world = World::new();

    system.run(&mut world, ());
}

#[test]
fn world_test_world_creation() {
    let world = World::new();
    assert_eq!(world.entity_count(), 0);
    assert_eq!(world.component_count(), 0);
}

#[test]
fn world_test_entity_spawn() {
    let mut world = World::new();
    let entity = world.spawn_empty();
    assert_eq!(world.entity_count(), 1);
    assert!(world.is_alive(entity.id()));
}

#[test]
fn test_entity_despawn() {
    let mut world = World::new();
    let entity_id = world.spawn_empty().id();
    assert_eq!(world.entity_count(), 1);

    assert!(world.despawn(entity_id));
    assert_eq!(world.entity_count(), 0);
    assert!(!world.is_alive(entity_id));
}
