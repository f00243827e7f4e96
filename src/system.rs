//! Systems: units of per-step work on a world, the queries and parameters
//! they use, and the built-in movement, collision and health systems.
use vstd::prelude::*;
use crate::entity::EntityId;
use crate::event::{CollisionEvent, DamageEvent, Event, EventTrait, EventView, event_views};
use crate::resource::Resource;
use crate::symbol::{Symbol, lemma_short_name, spec_short, symbol_chars_ok};
use crate::world::{World, collect_matching, matching_ids};

verus! {

/// A unit of work run on a world with an input.
pub trait System {
    type In;
    type Out;

    /// Whether the system can run on any well-formed world and input.
    spec fn ready(&self) -> bool;

    /// Runs the system.
    fn run(&mut self, world: &mut World, input: Self::In) -> Self::Out
        requires
            old(self).ready(),
            old(world).wf(),
    ;
}

/// Data a system can fetch from a world.
pub trait SystemParam {
    type Param;
    type Fetch;

    /// Fetches the data.
    fn fetch(world: &World) -> Self::Fetch;

    /// Fetches the data from a world that may be changed.
    fn fetch_mut(world: &mut World) -> Self::Fetch;
}

/// Entities that carry every listed type.
#[derive(Clone, Debug)]
pub struct Query {
    pub component_types: Vec<Symbol>,
}

impl Query {
    /// A query for `component_types`.
    pub fn new(component_types: Vec<Symbol>) -> (r: Query)
        ensures
            r.component_types@ == component_types@,
    {
        Query { component_types }
    }

    /// This query, also requiring `component_type`.
    pub fn with_component(self, component_type: Symbol) -> (r: Query)
        ensures
            r.component_types@ == self.component_types@.push(component_type),
    {
        let mut q = self;
        q.component_types.push(component_type);
        q
    }

    /// The ids of the live entities that carry every listed type, in spawn
    /// order.
    pub fn execute(&self, world: &World) -> (r: Vec<EntityId>)
        ensures
            r@ == matching_ids(world.entities.entities@, self.component_types@, seq![]),
    {
        let none: Vec<Symbol> = Vec::new();
        assert(none@ =~= Seq::<Symbol>::empty());
        collect_matching(&world.entities.entities, self.component_types.as_slice(), none.as_slice())
    }
}

/// A query with the results of its last run.
#[derive(Clone, Debug)]
pub struct QueryState {
    pub query: Query,
    pub last_results: Vec<EntityId>,
}

impl QueryState {
    /// A state for `query` with no results yet.
    pub fn new(query: Query) -> (r: QueryState)
        ensures
            r.query == query,
            r.last_results@ == Seq::<EntityId>::empty(),
    {
        QueryState { query, last_results: Vec::new() }
    }

    /// Runs the query on `world` and keeps the results.
    pub fn execute(&mut self, world: &World) -> (r: &Vec<EntityId>)
        ensures
            final(self).query == old(self).query,
            final(self).last_results@ == matching_ids(
                world.entities.entities@,
                old(self).query.component_types@,
                seq![],
            ),
            r@ == final(self).last_results@,
    {
        self.last_results = self.query.execute(world);
        &self.last_results
    }

    /// The results of the last run.
    pub fn results(&self) -> (r: &Vec<EntityId>)
        ensures
            r@ == self.last_results@,
    {
        &self.last_results
    }

    /// Whether the last run found nothing.
    pub fn is_empty(&self) -> (r: bool)
        ensures
            r == (self.last_results@.len() == 0),
    {
        self.last_results.len() == 0
    }

    /// The number of results of the last run.
    pub fn len(&self) -> (r: usize)
        ensures
            r == self.last_results@.len(),
    {
        self.last_results.len()
    }
}

/// A system made from a function of the world and an input.
pub struct FunctionSystem<F, In, Out> {
    pub function: F,
    pub _phantom: core::marker::PhantomData<(In, Out)>,
}

impl<F, In, Out> FunctionSystem<F, In, Out> where F: FnMut(&mut World, In) -> Out {
    /// The system that runs `function`.
    pub fn new(function: F) -> (r: FunctionSystem<F, In, Out>)
        ensures
            r.function == function,
    {
        FunctionSystem { function, _phantom: core::marker::PhantomData }
    }
}

impl<F, In, Out> System for FunctionSystem<F, In, Out> where F: FnMut(&mut World, In) -> Out {
    type In = In;
    type Out = Out;

    /// The function accepts every world and input.
    open spec fn ready(&self) -> bool {
        forall|w: &mut World, i: In| call_requires(self.function, (w, i))
    }

    fn run(&mut self, world: &mut World, input: In) -> Out {
        broadcast use vstd::function::group_function_axioms;

        (self.function)(world, input)
    }
}

/// Turns a value into a system.
pub trait IntoSystem<In, Out> {
    type System: System<In = In, Out = Out>;

    /// The system.
    fn into_system(self) -> Self::System;
}

impl<F, In, Out> IntoSystem<In, Out> for F where F: FnMut(&mut World, In) -> Out {
    type System = FunctionSystem<F, In, Out>;

    fn into_system(self) -> (r: FunctionSystem<F, In, Out>)
        ensures
            r.function == self,
    {
        FunctionSystem::new(self)
    }
}

/// Fetches the ids of entities that carry a set of types.
pub struct QueryParam {
    pub query: Query,
}

impl QueryParam {
    /// A parameter for entities that carry every one of `component_types`.
    pub fn new(component_types: Vec<Symbol>) -> (r: QueryParam)
        ensures
            r.query.component_types@ == component_types@,
    {
        QueryParam { query: Query::new(component_types) }
    }

    /// This parameter, also requiring `component_type`.
    pub fn with_component(self, component_type: Symbol) -> (r: QueryParam)
        ensures
            r.query.component_types@ == self.query.component_types@.push(component_type),
    {
        QueryParam { query: self.query.with_component(component_type) }
    }
}

impl SystemParam for QueryParam {
    type Param = QueryParam;
    type Fetch = Vec<EntityId>;

    /// Without a parameter value to read the types from, nothing is
    /// fetched.
    fn fetch(world: &World) -> (r: Vec<EntityId>)
        ensures
            r@.len() == 0,
    {
        Vec::new()
    }

    fn fetch_mut(world: &mut World) -> (r: Vec<EntityId>)
        ensures
            r@.len() == 0,
            *final(world) == *old(world),
    {
        Self::fetch(world)
    }
}

/// Fetches a resource by type.
pub struct ResourceParam {
    pub resource_type: Symbol,
}

impl ResourceParam {
    /// A parameter for the resource of type `resource_type`.
    pub fn new(resource_type: Symbol) -> (r: ResourceParam)
        ensures
            r.resource_type == resource_type,
    {
        ResourceParam { resource_type }
    }
}

impl SystemParam for ResourceParam {
    type Param = ResourceParam;
    type Fetch = Option<Resource>;

    /// Without a parameter value to read the type from, nothing is
    /// fetched.
    fn fetch(world: &World) -> (r: Option<Resource>)
        ensures
            r.is_none(),
    {
        None
    }

    fn fetch_mut(world: &mut World) -> (r: Option<Resource>)
        ensures
            r.is_none(),
            *final(world) == *old(world),
    {
        Self::fetch(world)
    }
}

/// Visits the entities that have a position and a velocity.
pub struct MovementSystem;

impl System for MovementSystem {
    type In = ();
    type Out = ();

    open spec fn ready(&self) -> bool {
        true
    }

    /// Leaves the world as it was.
    fn run(&mut self, world: &mut World, input: ())
        ensures
            *final(world) == *old(world),
    {
        let movers = world.query_entities(&[position_tag(), velocity_tag()]);
        let n = movers.len();
        let mut i: usize = 0;
        while i < n
            invariant
                0 <= i <= n,
            decreases n - i,
        {
            i = i + 1;
        }
    }
}

/// The tag `position`.
fn position_tag() -> (r: Symbol)
    ensures
        r == spec_short("position"@),
{
    proof {
        reveal_strlit("position");
        reveal_with_fuel(symbol_chars_ok, 10);
        lemma_short_name("position"@);
    }
    Symbol::short("position")
}

/// The tag `velocity`.
fn velocity_tag() -> (r: Symbol)
    ensures
        r == spec_short("velocity"@),
{
    proof {
        reveal_strlit("velocity");
        reveal_with_fuel(symbol_chars_ok, 10);
        lemma_short_name("velocity"@);
    }
    Symbol::short("velocity")
}

/// The tag `collision`.
fn collision_tag() -> (r: Symbol)
    ensures
        r == spec_short("collision"@),
{
    proof {
        reveal_strlit("collision");
        reveal_with_fuel(symbol_chars_ok, 10);
        lemma_short_name("collision"@);
    }
    Symbol::short("collision")
}

/// The tag `physical`.
fn physical_tag() -> (r: Symbol)
    ensures
        r == spec_short("physical"@),
        r.wf(),
{
    proof {
        reveal_strlit("physical");
        reveal_with_fuel(symbol_chars_ok, 10);
        lemma_short_name("physical"@);
    }
    Symbol::short("physical")
}

/// The tag `damage`.
fn damage_tag() -> (r: Symbol)
    ensures
        r == spec_short("damage"@),
{
    proof {
        reveal_strlit("damage");
        reveal_with_fuel(symbol_chars_ok, 10);
        lemma_short_name("damage"@);
    }
    Symbol::short("damage")
}

/// The events that a collision pass sends for the entities `ids`: for each
/// pair `i < j`, in order of `i` then `j`, a `collision` event whose
/// payload is the collision of `ids[i]` and `ids[j]` of kind `physical`.
pub open spec fn collision_events(ids: Seq<EntityId>, i: int) -> Seq<EventView>
    decreases ids.len() - i,
{
    if i < 0 || i >= ids.len() {
        Seq::empty()
    } else {
        Seq::new(
            (ids.len() - i - 1) as nat,
            |k: int|
                EventView {
                    event_type: spec_short("collision"@),
                    data: (CollisionEvent {
                        entity_a: ids[i].id,
                        entity_b: ids[i + 1 + k].id,
                        collision_type: spec_short("physical"@),
                    }).spec_bytes(),
                    timestamp: 0,
                },
        ) + collision_events(ids, i + 1)
    }
}

/// Sends a collision event for each pair of entities that have a position
/// and a collision shape.
pub struct CollisionSystem;

impl System for CollisionSystem {
    type In = ();
    type Out = ();

    open spec fn ready(&self) -> bool {
        true
    }

    /// Appends the collision events of every pair of entities that carry
    /// `position` and `collision`; nothing else changes.
    fn run(&mut self, world: &mut World, input: ())
        ensures
            final(world).wf(),
            final(world).entities == old(world).entities,
            final(world).components == old(world).components,
            final(world).storage == old(world).storage,
            final(world).resources == old(world).resources,
            event_views(final(world).events@) == event_views(old(world).events@) + collision_events(
                matching_ids(
                    old(world).entities.entities@,
                    seq![spec_short("position"@), spec_short("collision"@)],
                    seq![],
                ),
                0,
            ),
    {
        let colliding_tag = collision_tag();
        let tags = [position_tag(), colliding_tag];
        assert(tags@ =~= seq![spec_short("position"@), spec_short("collision"@)]);
        let ids = world.query_entities(&tags);
        let physical = physical_tag();
        let n = ids.len();
        let mut i: usize = 0;
        while i < n
            invariant
                0 <= i <= n,
                n == ids@.len(),
                world.wf(),
                world.entities == old(world).entities,
                world.components == old(world).components,
                world.storage == old(world).storage,
                world.resources == old(world).resources,
                colliding_tag == spec_short("collision"@),
                physical == spec_short("physical"@),
                event_views(world.events@) + collision_events(ids@, i as int) == event_views(
                    old(world).events@,
                ) + collision_events(ids@, 0),
            decreases n - i,
        {
            let ghost before = event_views(world.events@);
            let mut j: usize = i + 1;
            while j < n
                invariant
                    i < n,
                    i + 1 <= j <= n,
                    n == ids@.len(),
                    world.wf(),
                    world.entities == old(world).entities,
                    world.components == old(world).components,
                    world.storage == old(world).storage,
                    world.resources == old(world).resources,
                    colliding_tag == spec_short("collision"@),
                    physical == spec_short("physical"@),
                    event_views(world.events@) == before + collision_events(ids@, i as int).subrange(
                        0,
                        j - i - 1,
                    ),
                decreases n - j,
            {
                let collision = CollisionEvent::new(ids[i].id, ids[j].id, physical);
                let data = collision.serialize();
                let ghost pre = world.events@;
                world.send_event(Event::new(colliding_tag, data));
                proof {
                    let row = collision_events(ids@, i as int);
                    assert(event_views(world.events@) =~= event_views(pre).push(world.events@.last()@));
                    assert(row.subrange(0, j - i) =~= row.subrange(0, j - i - 1).push(row[j - i - 1]));
                }
                j = j + 1;
            }
            proof {
                let row = collision_events(ids@, i as int);
                assert(row.subrange(0, n - i - 1) + collision_events(ids@, i + 1) =~= row);
            }
            i = i + 1;
        }
        proof {
            assert(event_views(world.events@) + Seq::<EventView>::empty() =~= event_views(world.events@));
        }
    }
}

/// Reads the damage events and decodes each payload.
pub struct HealthSystem;

impl System for HealthSystem {
    type In = ();
    type Out = ();

    open spec fn ready(&self) -> bool {
        true
    }

    /// Leaves the world as it was.
    fn run(&mut self, world: &mut World, input: ())
        ensures
            *final(world) == *old(world),
    {
        let damage_events = world.get_events(&damage_tag());
        let n = damage_events.len();
        let mut i: usize = 0;
        while i < n
            invariant
                0 <= i <= n,
                n == damage_events@.len(),
            decreases n - i,
        {
            let decoded = DamageEvent::deserialize(damage_events[i].data());
            i = i + 1;
        }
    }
}

} // verus!
