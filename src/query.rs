//! Declarative queries: required and excluded component types evaluated
//! against every live entity, and composable per-entity filters.
use vstd::prelude::*;
use crate::entity::{Entity, EntityId};
use crate::symbol::Symbol;
use crate::world::{World, collect_matching, matching_ids};

verus! {

/// Entities that carry every required type and none of the excluded ones.
#[derive(Clone, Debug)]
pub struct Query {
    pub required_components: Vec<Symbol>,
    pub excluded_components: Vec<Symbol>,
}

impl Query {
    /// A query with no requirements, which every entity meets.
    pub fn new() -> (r: Query)
        ensures
            r.required_components@ == Seq::<Symbol>::empty(),
            r.excluded_components@ == Seq::<Symbol>::empty(),
    {
        Query { required_components: Vec::new(), excluded_components: Vec::new() }
    }

    /// This query, also requiring `component_type`.
    pub fn with_component(self, component_type: Symbol) -> (r: Query)
        ensures
            r.required_components@ == self.required_components@.push(component_type),
            r.excluded_components@ == self.excluded_components@,
    {
        let mut q = self;
        q.required_components.push(component_type);
        q
    }

    /// This query, also excluding `component_type`.
    pub fn without_component(self, component_type: Symbol) -> (r: Query)
        ensures
            r.required_components@ == self.required_components@,
            r.excluded_components@ == self.excluded_components@.push(component_type),
    {
        let mut q = self;
        q.excluded_components.push(component_type);
        q
    }

    /// The ids of the live entities that match, in spawn order.
    pub fn execute(&self, world: &World) -> (r: Vec<EntityId>)
        ensures
            r@ == matching_ids(
                world.entities.entities@,
                self.required_components@,
                self.excluded_components@,
            ),
    {
        collect_matching(
            &world.entities.entities,
            self.required_components.as_slice(),
            self.excluded_components.as_slice(),
        )
    }

    /// Whether the query neither requires nor excludes any type.
    pub fn is_empty(&self) -> (r: bool)
        ensures
            r == (self.required_components@.len() == 0 && self.excluded_components@.len() == 0),
    {
        self.required_components.len() == 0 && self.excluded_components.len() == 0
    }
}

impl Default for Query {
    fn default() -> (r: Query)
        ensures
            r.required_components@ == Seq::<Symbol>::empty(),
            r.excluded_components@ == Seq::<Symbol>::empty(),
    {
        Query::new()
    }
}

/// A query with the results of its last run. Every run recomputes them.
#[derive(Clone, Debug)]
pub struct QueryState {
    pub query: Query,
    pub last_results: Vec<EntityId>,
    pub last_execution_time: u64,
}

impl QueryState {
    /// A state for `query` with no results yet.
    pub fn new(query: Query) -> (r: QueryState)
        ensures
            r.query == query,
            r.last_results@ == Seq::<EntityId>::empty(),
            r.last_execution_time == 0,
    {
        QueryState { query, last_results: Vec::new(), last_execution_time: 0 }
    }

    /// Runs the query on `world` and keeps the results.
    pub fn execute(&mut self, world: &World) -> (r: &Vec<EntityId>)
        ensures
            final(self).query == old(self).query,
            final(self).last_execution_time == 0,
            final(self).last_results@ == matching_ids(
                world.entities.entities@,
                old(self).query.required_components@,
                old(self).query.excluded_components@,
            ),
            r@ == final(self).last_results@,
    {
        self.last_results = self.query.execute(world);
        self.last_execution_time = 0;
        &self.last_results
    }

    /// The results of the last run.
    pub fn results(&self) -> (r: &Vec<EntityId>)
        ensures
            r@ == self.last_results@,
    {
        &self.last_results
    }

    /// Whether the last run found nothing.
    pub fn is_empty(&self) -> (r: bool)
        ensures
            r == (self.last_results@.len() == 0),
    {
        self.last_results.len() == 0
    }

    /// The number of results of the last run.
    pub fn len(&self) -> (r: usize)
        ensures
            r == self.last_results@.len(),
    {
        self.last_results.len()
    }

    /// The time recorded at the last run.
    pub fn last_execution_time(&self) -> (r: u64)
        ensures
            r == self.last_execution_time,
    {
        self.last_execution_time
    }

    /// Whether the results must be recomputed before use: always, since
    /// nothing tracks changes to the world.
    pub fn needs_update(&self, current_time: u64) -> (r: bool)
        ensures
            r,
    {
        true
    }
}

/// Builds a query step by step.
pub struct QueryBuilder {
    pub query: Query,
}

impl QueryBuilder {
    /// A builder for a query with no requirements.
    pub fn new() -> (r: QueryBuilder)
        ensures
            r.query.required_components@ == Seq::<Symbol>::empty(),
            r.query.excluded_components@ == Seq::<Symbol>::empty(),
    {
        QueryBuilder { query: Query::new() }
    }

    /// Also requires `component_type`.
    pub fn with_component(self, component_type: Symbol) -> (r: QueryBuilder)
        ensures
            r.query.required_components@ == self.query.required_components@.push(component_type),
            r.query.excluded_components@ == self.query.excluded_components@,
    {
        QueryBuilder { query: self.query.with_component(component_type) }
    }

    /// Also excludes `component_type`.
    pub fn without_component(self, component_type: Symbol) -> (r: QueryBuilder)
        ensures
            r.query.required_components@ == self.query.required_components@,
            r.query.excluded_components@ == self.query.excluded_components@.push(component_type),
    {
        QueryBuilder { query: self.query.without_component(component_type) }
    }

    /// Also requires each of `component_types`, in order.
    pub fn with_components(self, component_types: Vec<Symbol>) -> (r: QueryBuilder)
        ensures
            r.query.required_components@ == self.query.required_components@ + component_types@,
            r.query.excluded_components@ == self.query.excluded_components@,
    {
        let mut q = self.query;
        let ghost start = q.required_components@;
        let n = component_types.len();
        let mut i: usize = 0;
        while i < n
            invariant
                n == component_types@.len(),
                0 <= i <= n,
                q.required_components@ == start + component_types@.subrange(0, i as int),
                q.excluded_components@ == self.query.excluded_components@,
            decreases n - i,
        {
            q = q.with_component(component_types[i]);
            assert(start + component_types@.subrange(0, i + 1) =~= (start + component_types@.subrange(0, i as int)).push(component_types@[i as int]));
            i = i + 1;
        }
        assert(component_types@.subrange(0, n as int) =~= component_types@);
        QueryBuilder { query: q }
    }

    /// Also excludes each of `component_types`, in order.
    pub fn without_components(self, component_types: Vec<Symbol>) -> (r: QueryBuilder)
        ensures
            r.query.required_components@ == self.query.required_components@,
            r.query.excluded_components@ == self.query.excluded_components@ + component_types@,
    {
        let mut q = self.query;
        let ghost start = q.excluded_components@;
        let n = component_types.len();
        let mut i: usize = 0;
        while i < n
            invariant
                n == component_types@.len(),
                0 <= i <= n,
                q.excluded_components@ == start + component_types@.subrange(0, i as int),
                q.required_components@ == self.query.required_components@,
            decreases n - i,
        {
            q = q.without_component(component_types[i]);
            assert(start + component_types@.subrange(0, i + 1) =~= (start + component_types@.subrange(0, i as int)).push(component_types@[i as int]));
            i = i + 1;
        }
        assert(component_types@.subrange(0, n as int) =~= component_types@);
        QueryBuilder { query: q }
    }

    /// The query built.
    pub fn build(self) -> (r: Query)
        ensures
            r == self.query,
    {
        self.query
    }

    /// A query state for the query built.
    pub fn build_state(self) -> (r: QueryState)
        ensures
            r.query == self.query,
            r.last_results@ == Seq::<EntityId>::empty(),
            r.last_execution_time == 0,
    {
        QueryState::new(self.query)
    }
}

impl Default for QueryBuilder {
    fn default() -> (r: QueryBuilder)
        ensures
            r.query.required_components@ == Seq::<Symbol>::empty(),
            r.query.excluded_components@ == Seq::<Symbol>::empty(),
    {
        QueryBuilder::new()
    }
}

/// A test of one entity of a world.
pub trait QueryFilter {
    /// Whether the entity with numeric id `id` passes, in `world`.
    spec fn spec_matches(&self, world: World, id: u64) -> bool;

    /// Whether the entity with `entity_id`'s numeric id passes.
    fn matches(&self, world: &World, entity_id: EntityId) -> (r: bool)
        requires
            world.wf(),
        ensures
            r == self.spec_matches(*world, entity_id.id),
    ;
}

/// Passes entities that carry a type.
pub struct WithComponent {
    pub component_type: Symbol,
}

impl WithComponent {
    /// A filter for `component_type`.
    pub fn new(component_type: Symbol) -> (r: WithComponent)
        ensures
            r.component_type == component_type,
    {
        WithComponent { component_type }
    }
}

impl QueryFilter for WithComponent {
    /// The type is stored for the entity.
    open spec fn spec_matches(&self, world: World, id: u64) -> bool {
        world.has(id, self.component_type)
    }

    fn matches(&self, world: &World, entity_id: EntityId) -> (r: bool) {
        world.has_component(entity_id, &self.component_type)
    }
}

/// Passes entities that do not carry a type.
pub struct WithoutComponent {
    pub component_type: Symbol,
}

impl WithoutComponent {
    /// A filter against `component_type`.
    pub fn new(component_type: Symbol) -> (r: WithoutComponent)
        ensures
            r.component_type == component_type,
    {
        WithoutComponent { component_type }
    }
}

impl QueryFilter for WithoutComponent {
    /// The type is not stored for the entity.
    open spec fn spec_matches(&self, world: World, id: u64) -> bool {
        !world.has(id, self.component_type)
    }

    fn matches(&self, world: &World, entity_id: EntityId) -> (r: bool) {
        !world.has_component(entity_id, &self.component_type)
    }
}

/// Passes live entities that carry every listed type.
pub struct AllFilters {
    pub filters: Vec<Symbol>,
}

impl AllFilters {
    /// A filter with no types, which every live entity passes.
    pub fn new() -> (r: AllFilters)
        ensures
            r.filters@ == Seq::<Symbol>::empty(),
    {
        AllFilters { filters: Vec::new() }
    }

    /// This filter, also requiring `component_type`.
    pub fn add_filter(self, component_type: Symbol) -> (r: AllFilters)
        ensures
            r.filters@ == self.filters@.push(component_type),
    {
        let mut f = self;
        f.filters.push(component_type);
        f
    }
}

impl QueryFilter for AllFilters {
    /// The entity is alive and every listed type is stored for it.
    open spec fn spec_matches(&self, world: World, id: u64) -> bool {
        world.entities.alive(id) && forall|k: int|
            0 <= k < self.filters@.len() ==> world.has(id, #[trigger] self.filters@[k])
    }

    fn matches(&self, world: &World, entity_id: EntityId) -> (r: bool) {
        match world.get_entity(entity_id) {
            Some(entity) => {
                let n = self.filters.len();
                let mut i: usize = 0;
                while i < n
                    invariant
                        world.wf(),
                        n == self.filters@.len(),
                        0 <= i <= n,
                        entity@.id.id == entity_id.id,
                        forall|t: Symbol| entity@.types.contains(t) == world.has(entity_id.id, t),
                        forall|k: int| 0 <= k < i ==> world.has(entity_id.id, #[trigger] self.filters@[k]),
                    decreases n - i,
                {
                    if !entity.has_component(&self.filters[i]) {
                        return false;
                    }
                    i = i + 1;
                }
                true
            },
            None => false,
        }
    }
}

/// Passes live entities that carry at least one listed type.
pub struct AnyFilter {
    pub filters: Vec<Symbol>,
}

impl AnyFilter {
    /// A filter with no types, which no entity passes.
    pub fn new() -> (r: AnyFilter)
        ensures
            r.filters@ == Seq::<Symbol>::empty(),
    {
        AnyFilter { filters: Vec::new() }
    }

    /// This filter, also accepting `component_type`.
    pub fn add_filter(self, component_type: Symbol) -> (r: AnyFilter)
        ensures
            r.filters@ == self.filters@.push(component_type),
    {
        let mut f = self;
        f.filters.push(component_type);
        f
    }
}

impl QueryFilter for AnyFilter {
    /// The entity is alive and some listed type is stored for it.
    open spec fn spec_matches(&self, world: World, id: u64) -> bool {
        world.entities.alive(id) && exists|k: int|
            0 <= k < self.filters@.len() && world.has(id, #[trigger] self.filters@[k])
    }

    fn matches(&self, world: &World, entity_id: EntityId) -> (r: bool) {
        match world.get_entity(entity_id) {
            Some(entity) => {
                let n = self.filters.len();
                let mut i: usize = 0;
                while i < n
                    invariant
                        world.wf(),
                        n == self.filters@.len(),
                        0 <= i <= n,
                        entity@.id.id == entity_id.id,
                        forall|t: Symbol| entity@.types.contains(t) == world.has(entity_id.id, t),
                        forall|k: int| 0 <= k < i ==> !world.has(entity_id.id, #[trigger] self.filters@[k]),
                    decreases n - i,
                {
                    if entity.has_component(&self.filters[i]) {
                        return true;
                    }
                    i = i + 1;
                }
                false
            },
            None => false,
        }
    }
}

/// The ids of the entities of `ents` that pass `filter` in `world`, in
/// order.
pub open spec fn filtered_ids<F: QueryFilter>(ents: Seq<Entity>, filter: F, world: World) -> Seq<
    EntityId,
>
    decreases ents.len(),
{
    if ents.len() == 0 {
        Seq::empty()
    } else if filter.spec_matches(world, ents.last().id.id) {
        filtered_ids(ents.drop_last(), filter, world).push(ents.last().id)
    } else {
        filtered_ids(ents.drop_last(), filter, world)
    }
}

/// The ids of the live entities that pass `filter`, in spawn order.
pub fn query_with_filter<F: QueryFilter>(world: &World, filter: &F) -> (r: Vec<EntityId>)
    requires
        world.wf(),
    ensures
        r@ == filtered_ids(world.entities.entities@, *filter, *world),
{
    let ghost ents = world.entities.entities@;
    let mut out: Vec<EntityId> = Vec::new();
    let n = world.entities.entities.len();
    let mut i: usize = 0;
    while i < n
        invariant
            world.wf(),
            ents == world.entities.entities@,
            n == ents.len(),
            0 <= i <= n,
            out@ == filtered_ids(ents.subrange(0, i as int), *filter, *world),
        decreases n - i,
    {
        proof {
            assert(ents.subrange(0, i + 1).drop_last() =~= ents.subrange(0, i as int));
        }
        let id = world.entities.entities[i].id;
        if filter.matches(world, id) {
            out.push(id);
        }
        i = i + 1;
    }
    assert(ents.subrange(0, n as int) =~= ents);
    out
}

} // verus!
