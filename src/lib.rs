//! An entity-component-system data layer: entities, byte-serialized
//! components held in a flat row store, a component-type registry, and
//! tag-keyed resources and events, all kept in one `World` aggregate.
use vstd::prelude::*;

pub mod codec;
pub mod component;
pub mod components;
pub mod entity;
pub mod event;
pub mod game_components;
pub mod query;
pub mod resource;
pub mod storage;
pub mod symbol;
pub mod system;
pub mod systems;
pub mod world;

pub use component::{Component, ComponentId, ComponentStorage};
pub use components::Position;
pub use entity::{Entity, EntityId};
pub use event::{Event, EventReader, EventWriter};
pub use query::{Query, QueryState};
pub use resource::Resource;
pub use storage::{SparseStorage, Storage, TableStorage};
pub use symbol::Symbol;
pub use system::{IntoSystem, System, SystemParam};
pub use systems::MovementSystem;
pub use world::World;

use crate::storage::{has_key, row_data, upserted, without_key, RowView};
use crate::world::{component_views, matching_ids, upsert_all};

verus! {

/// An empty world.
pub fn create_world() -> (r: World)
    ensures
        r.wf(),
        r.entities.entities@.len() == 0,
        r.storage.rows().len() == 0,
        r.resources@.len() == 0,
        r.events@.len() == 0,
{
    World::new()
}

/// Spawns an entity with `components` attached in order; returns its id.
pub fn spawn_entity(world: &mut World, components: Vec<Component>) -> (r: EntityId)
    requires
        old(world).wf(),
        old(world).entities.can_spawn(),
        old(world).components.tags().len() + components@.len() < u32::MAX,
    ensures
        final(world).wf(),
        r == (EntityId { id: old(world).entities.next_spawn_id(), generation: 0 }),
        final(world).entities.alive(r.id),
        final(world).storage.rows() == upsert_all(
            old(world).storage.rows(),
            r.id,
            component_views(components@),
        ),
{
    let entity = world.spawn(components);
    entity.id()
}

/// Attaches `component` to the entity with `entity_id`'s numeric id;
/// returns whether that entity is alive and so now carries it.
pub fn add_component(world: &mut World, entity_id: EntityId, component: Component) -> (r: bool)
    requires
        old(world).wf(),
        old(world).components.can_register(component.component_type),
    ensures
        final(world).wf(),
        r == old(world).entities.alive(entity_id.id),
        r ==> final(world).storage.rows() == upserted(
            old(world).storage.rows(),
            RowView { entity: entity_id.id, tag: component.component_type, data: component.data@ },
        ),
        !r ==> final(world).storage == old(world).storage,
{
    let alive = world.is_alive(entity_id);
    world.add_component_to_entity(entity_id, component);
    alive
}

/// Detaches the component of type `component_type` from the entity with
/// `entity_id`'s numeric id; returns whether one was stored.
pub fn remove_component(world: &mut World, entity_id: EntityId, component_type: Symbol) -> (r: bool)
    requires
        old(world).wf(),
    ensures
        final(world).wf(),
        r == has_key(old(world).storage.rows(), entity_id.id, component_type),
        final(world).storage.rows() == without_key(
            old(world).storage.rows(),
            entity_id.id,
            component_type,
        ),
{
    world.remove_component_from_entity(entity_id, &component_type)
}

/// The component of type `component_type` stored for `entity_id`'s numeric
/// id.
pub fn get_component(world: &World, entity_id: EntityId, component_type: Symbol) -> (r: Option<
    Component,
>)
    requires
        world.wf(),
    ensures
        r.is_some() == has_key(world.storage.rows(), entity_id.id, component_type),
        r matches Some(c) ==> row_data(world.storage.rows(), entity_id.id, component_type) == Some(
            c.data@,
        ) && c.component_type == component_type,
{
    world.get_component(entity_id, &component_type)
}

/// The ids of the live entities that carry every one of
/// `component_types`, in spawn order.
pub fn query_entities(world: &World, component_types: Vec<Symbol>) -> (r: Vec<EntityId>)
    ensures
        r@ == matching_ids(world.entities.entities@, component_types@, seq![]),
{
    world.query_entities(component_types.as_slice())
}

} // verus!
