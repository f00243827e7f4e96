//! The world: entities, the component registry, the component table,
//! resources and events, kept so that every live entity's tags are
//! exactly the types stored for it.
use vstd::prelude::*;
use crate::component::{Component, ComponentRegistry, registered};
use crate::entity::{
    Entity, EntityId, EntityManager, EntityView, is_entity_at, lemma_entity_index_unique,
    lemma_contains_push, lemma_retagged, retagged, without_tag, lemma_without_contains,
};
use crate::component::ComponentView;
use crate::event::{Event, EventView, event_views, events_of, tagged_from};
use crate::resource::Resource;
use crate::storage::{
    RowView, Storage, entity_rows, has_key, is_key_at, lemma_no_key_no_rows, lemma_upserted_facts, lemma_without_key_facts, row_data,
    upserted, without_key,
};
use crate::symbol::Symbol;

verus! {

/// `types` with `t` appended, unless it is already there.
pub open spec fn with_tag(types: Seq<Symbol>, t: Symbol) -> Seq<Symbol> {
    if types.contains(t) {
        types
    } else {
        types.push(t)
    }
}

/// The table rows after storing, in order, each of `comps` for entity `x`.
pub open spec fn upsert_all(rows: Seq<RowView>, x: u64, comps: Seq<ComponentView>) -> Seq<RowView>
    decreases comps.len(),
{
    if comps.len() == 0 {
        rows
    } else {
        upserted(
            upsert_all(rows, x, comps.drop_last()),
            RowView { entity: x, tag: comps.last().component_type, data: comps.last().data },
        )
    }
}

/// The tags of an entity after attaching, in order, each of `comps` to an
/// entity with tags `types`.
pub open spec fn tags_after(types: Seq<Symbol>, comps: Seq<ComponentView>) -> Seq<Symbol>
    decreases comps.len(),
{
    if comps.len() == 0 {
        types
    } else {
        with_tag(tags_after(types, comps.drop_last()), comps.last().component_type)
    }
}

/// The registered types after registering, in order, the type of each of
/// `comps`.
pub open spec fn registered_all(tags: Seq<Symbol>, comps: Seq<ComponentView>) -> Seq<Symbol>
    decreases comps.len(),
{
    if comps.len() == 0 {
        tags
    } else {
        registered(registered_all(tags, comps.drop_last()), comps.last().component_type)
    }
}

/// The views of a list of components.
pub open spec fn component_views(comps: Seq<Component>) -> Seq<ComponentView> {
    comps.map_values(|c: Component| c@)
}

/// Whether an entity with tags `types` has every tag of `required` and
/// none of `excluded`.
pub open spec fn tags_match(types: Seq<Symbol>, required: Seq<Symbol>, excluded: Seq<Symbol>) -> bool {
    &&& forall|k: int| 0 <= k < required.len() ==> types.contains(#[trigger] required[k])
    &&& forall|k: int| 0 <= k < excluded.len() ==> !types.contains(#[trigger] excluded[k])
}

/// The ids of the entities of `ents` that match, in order.
pub open spec fn matching_ids(ents: Seq<Entity>, required: Seq<Symbol>, excluded: Seq<Symbol>) -> Seq<
    EntityId,
>
    decreases ents.len(),
{
    if ents.len() == 0 {
        Seq::empty()
    } else if tags_match(ents.last()@.types, required, excluded) {
        matching_ids(ents.drop_last(), required, excluded).push(ents.last().id)
    } else {
        matching_ids(ents.drop_last(), required, excluded)
    }
}

/// The first resource of `rs` with type `t`, if any.
pub open spec fn first_resource(rs: Seq<Resource>, t: Symbol) -> Option<Resource>
    decreases rs.len(),
{
    if rs.len() == 0 {
        None
    } else {
        match first_resource(rs.drop_last(), t) {
            Some(r) => Some(r),
            None => if rs.last().resource_type == t {
                Some(rs.last())
            } else {
                None
            },
        }
    }
}

/// The last resource of `rs` with type `t`, if any.
pub open spec fn last_resource(rs: Seq<Resource>, t: Symbol) -> Option<Resource>
    decreases rs.len(),
{
    if rs.len() == 0 {
        None
    } else if rs.last().resource_type == t {
        Some(rs.last())
    } else {
        last_resource(rs.drop_last(), t)
    }
}

/// `rs` without the resources of type `t`, the rest in order.
pub open spec fn resources_without(rs: Seq<Resource>, t: Symbol) -> Seq<Resource>
    decreases rs.len(),
{
    if rs.len() == 0 {
        rs
    } else if rs.last().resource_type == t {
        resources_without(rs.drop_last(), t)
    } else {
        resources_without(rs.drop_last(), t).push(rs.last())
    }
}

/// Whether the entity has every tag of `required` and none of `excluded`.
pub fn entity_matches(entity: &Entity, required: &[Symbol], excluded: &[Symbol]) -> (r: bool)
    ensures
        r == tags_match(entity@.types, required@, excluded@),
{
    let mut k: usize = 0;
    while k < required.len()
        invariant
            0 <= k <= required@.len(),
            forall|a: int| 0 <= a < k ==> entity@.types.contains(#[trigger] required@[a]),
        decreases required@.len() - k,
    {
        if !entity.has_component(&required[k]) {
            return false;
        }
        k = k + 1;
    }
    let mut k: usize = 0;
    while k < excluded.len()
        invariant
            0 <= k <= excluded@.len(),
            forall|a: int| 0 <= a < required@.len() ==> entity@.types.contains(#[trigger] required@[a]),
            forall|a: int| 0 <= a < k ==> !entity@.types.contains(#[trigger] excluded@[a]),
        decreases excluded@.len() - k,
    {
        if entity.has_component(&excluded[k]) {
            return false;
        }
        k = k + 1;
    }
    true
}

/// The ids of the entities of `ents` that match, in order.
pub fn collect_matching(ents: &Vec<Entity>, required: &[Symbol], excluded: &[Symbol]) -> (r: Vec<
    EntityId,
>)
    ensures
        r@ == matching_ids(ents@, required@, excluded@),
{
    let mut out: Vec<EntityId> = Vec::new();
    let n = ents.len();
    let mut i: usize = 0;
    while i < n
        invariant
            n == ents@.len(),
            0 <= i <= n,
            out@ == matching_ids(ents@.subrange(0, i as int), required@, excluded@),
        decreases n - i,
    {
        proof {
            assert(ents@.subrange(0, i + 1).drop_last() =~= ents@.subrange(0, i as int));
        }
        if entity_matches(&ents[i], required, excluded) {
            out.push(ents[i].id);
        }
        i = i + 1;
    }
    assert(ents@.subrange(0, n as int) =~= ents@);
    out
}

/// The aggregate that application code works on.
#[derive(Clone, Debug)]
pub struct World {
    pub entities: EntityManager,
    pub components: ComponentRegistry,
    pub storage: Storage,
    pub resources: Vec<Resource>,
    pub events: Vec<Event>,
}

impl World {
    /// Every live entity carries a tag exactly when the table holds that
    /// type for it, and every stored row belongs to a live entity.
    pub open spec fn linked(&self) -> bool {
        let ents = self.entities.entities@;
        let rows = self.storage.rows();
        &&& forall|i: int, t: Symbol|
            #![trigger ents[i]@.types.contains(t)]
            #![trigger has_key(rows, ents[i].id.id, t)]
            0 <= i < ents.len() ==> (ents[i]@.types.contains(t) <==> has_key(rows, ents[i].id.id, t))
        &&& forall|x: u64, u: Symbol| #[trigger] has_key(rows, x, u) ==> self.entities.alive(x)
    }

    /// The parts are well formed and linked.
    pub open spec fn wf(&self) -> bool {
        &&& self.entities.wf()
        &&& self.components.wf()
        &&& self.storage.wf()
        &&& self.linked()
    }

    /// Whether a component of type `t` is stored for numeric id `x`.
    pub open spec fn has(&self, x: u64, t: Symbol) -> bool {
        has_key(self.storage.rows(), x, t)
    }

    /// An empty world.
    pub fn new() -> (r: World)
        ensures
            r.wf(),
            r.entities.entities@.len() == 0,
            r.entities.next_id == 1,
            r.entities.free_list@.len() == 0,
            r.components.tags().len() == 0,
            r.storage.rows().len() == 0,
            r.resources@.len() == 0,
            r.events@.len() == 0,
    {
        World {
            entities: EntityManager::new(),
            components: ComponentRegistry::new(),
            storage: Storage::new(),
            resources: Vec::new(),
            events: Vec::new(),
        }
    }

    /// Spawns an entity with no components.
    pub fn spawn_empty(&mut self) -> (r: Entity)
        requires
            old(self).wf(),
            old(self).entities.can_spawn(),
        ensures
            final(self).wf(),
            r@ == (EntityView { id: EntityId { id: old(self).entities.next_spawn_id(), generation: 0 }, types: seq![] }),
            !old(self).entities.alive(r.id.id),
            final(self).entities.alive(r.id.id),
            final(self).entities.entities@.drop_last() == old(self).entities.entities@,
            final(self).entities.entities@.last()@ == r@,
            old(self).entities.free_list@.len() > 0 ==> final(self).entities.free_list@
                == old(self).entities.free_list@.drop_last() && final(self).entities.next_id
                == old(self).entities.next_id,
            old(self).entities.free_list@.len() == 0 ==> final(self).entities.free_list@
                == old(self).entities.free_list@ && final(self).entities.next_id
                == old(self).entities.next_id + 1,
            final(self).storage == old(self).storage,
            final(self).components == old(self).components,
            final(self).resources == old(self).resources,
            final(self).events == old(self).events,
    {
        let id = self.spawn_id();
        Entity::new(id)
    }

    fn spawn_id(&mut self) -> (r: EntityId)
        requires
            old(self).wf(),
            old(self).entities.can_spawn(),
        ensures
            final(self).wf(),
            r == (EntityId { id: old(self).entities.next_spawn_id(), generation: 0 }),
            !old(self).entities.alive(r.id),
            final(self).entities.alive(r.id),
            final(self).entities.entities@.len() == old(self).entities.entities@.len() + 1,
            final(self).entities.entities@.drop_last() == old(self).entities.entities@,
            final(self).entities.entities@.last()@ == (EntityView { id: r, types: seq![] }),
            forall|x: u64| x != r.id ==> #[trigger] final(self).entities.alive(x) == old(self).entities.alive(x),
            old(self).entities.free_list@.len() > 0 ==> final(self).entities.free_list@
                == old(self).entities.free_list@.drop_last() && final(self).entities.next_id
                == old(self).entities.next_id,
            old(self).entities.free_list@.len() == 0 ==> final(self).entities.free_list@
                == old(self).entities.free_list@ && final(self).entities.next_id
                == old(self).entities.next_id + 1,
            final(self).storage == old(self).storage,
            final(self).components == old(self).components,
            final(self).resources == old(self).resources,
            final(self).events == old(self).events,
    {
        let id = self.entities.spawn();
        proof {
            let e0 = old(self).entities.entities@;
            let e1 = self.entities.entities@;
            let n = e0.len();
            assert(is_entity_at(e1, id.id, n as int));
            assert forall|x: u64| x != id.id implies #[trigger] self.entities.alive(x) == old(self).entities.alive(x) by {
                if old(self).entities.alive(x) {
                    let k = choose|k: int| is_entity_at(e0, x, k);
                    assert(e1[k] == e0[k]);
                    assert(is_entity_at(e1, x, k));
                }
                if self.entities.alive(x) {
                    let k = choose|k: int| is_entity_at(e1, x, k);
                    assert(k != n);
                    assert(e1[k] == e0[k]);
                    assert(is_entity_at(e0, x, k));
                }
            }
            let rows = self.storage.rows();
            assert forall|i: int, t: Symbol|
                #![trigger e1[i]@.types.contains(t)]
                #![trigger has_key(rows, e1[i].id.id, t)]
                0 <= i < e1.len() implies (e1[i]@.types.contains(t) <==> has_key(rows, e1[i].id.id, t)) by {
                if i < n {
                    assert(e1[i] == e0[i]);
                } else {
                    assert(e1[i]@.types == Seq::<Symbol>::empty());
                    if has_key(rows, id.id, t) {
                        assert(old(self).entities.alive(id.id));
                    }
                }
            }
            assert forall|x: u64, u: Symbol| #[trigger] has_key(rows, x, u) implies self.entities.alive(x) by {
                assert(old(self).entities.alive(x));
            }
        }
        id
    }

    /// Attaches `component` to the entity with `entity_id`'s numeric id:
    /// registers its type, adds the tag unless the entity has it, and
    /// stores the payload in place of any earlier one of that type. The
    /// type is registered even when no such entity is alive; then nothing
    /// else changes.
    pub fn add_component_to_entity(&mut self, entity_id: EntityId, component: Component)
        requires
            old(self).wf(),
            old(self).components.can_register(component.component_type),
        ensures
            final(self).wf(),
            final(self).components.tags() == registered(
                old(self).components.tags(),
                component.component_type,
            ),
            final(self).entities.next_id == old(self).entities.next_id,
            final(self).entities.free_list == old(self).entities.free_list,
            final(self).resources == old(self).resources,
            final(self).events == old(self).events,
            old(self).entities.alive(entity_id.id) ==> exists|i: int|
                is_entity_at(old(self).entities.entities@, entity_id.id, i) && retagged(
                    old(self).entities.entities@,
                    final(self).entities.entities@,
                    i,
                    with_tag(old(self).entities.entities@[i]@.types, component.component_type),
                ),
            old(self).entities.alive(entity_id.id) ==> final(self).storage.rows() == upserted(
                old(self).storage.rows(),
                RowView { entity: entity_id.id, tag: component.component_type, data: component.data@ },
            ),
            old(self).entities.alive(entity_id.id) ==> final(self).has(
                entity_id.id,
                component.component_type,
            ) && row_data(final(self).storage.rows(), entity_id.id, component.component_type)
                == Some(component.data@),
            !old(self).entities.alive(entity_id.id) ==> final(self).entities.entities
                == old(self).entities.entities && final(self).storage == old(self).storage,
    {
        let t = component.component_type;
        self.components.register_component(t);
        match self.entities.find(entity_id.id) {
            Some(i) => {
                let ghost m0 = self.entities;
                let ghost rows0 = self.storage.rows();
                let ghost types0 = self.entities.entities@[i as int]@.types;
                if !self.entities.entities[i].has_component(&t) {
                    self.entities.entities[i].add_component_type(t);
                }
                let ghost row = RowView { entity: entity_id.id, tag: t, data: component.data@ };
                self.storage.add_component(entity_id, component);
                proof {
                    let e0 = m0.entities@;
                    let e1 = self.entities.entities@;
                    assert(self.entities.entities@[i as int]@.types =~= with_tag(types0, t));
                    assert(retagged(e0, e1, i as int, with_tag(types0, t)));
                    lemma_retagged(m0, self.entities, i as int, with_tag(types0, t));
                    lemma_upserted_facts(rows0, row);
                    let rows = self.storage.rows();
                    assert forall|k: int, u: Symbol|
                        #![trigger e1[k]@.types.contains(u)]
                        #![trigger has_key(rows, e1[k].id.id, u)]
                        0 <= k < e1.len() implies (e1[k]@.types.contains(u) <==> has_key(rows, e1[k].id.id, u)) by {
                        if k == i {
                            assert(e0[k]@.types.contains(u) == has_key(rows0, e0[k].id.id, u));
                            if u == t {
                                assert(with_tag(types0, t).contains(t)) by {
                                    if !types0.contains(t) {
                                        assert(types0.push(t)[types0.len() as int] == t);
                                    }
                                }
                            } else {
                                lemma_with_tag_contains(types0, t, u);
                            }
                        } else {
                            assert(e1[k] == e0[k]);
                            assert(e0[k].id.id != entity_id.id) by {
                                if e0[k].id.id == entity_id.id {
                                    lemma_entity_index_unique(m0, entity_id.id, i as int, k);
                                }
                            }
                            assert(e0[k]@.types.contains(u) == has_key(rows0, e0[k].id.id, u));
                        }
                    }
                    assert forall|x: u64, u: Symbol| #[trigger] has_key(rows, x, u) implies self.entities.alive(x) by {
                        if !(x == entity_id.id && u == t) {
                            assert(has_key(rows0, x, u));
                            assert(m0.alive(x));
                        } else {
                            assert(is_entity_at(e0, x, i as int));
                            assert(m0.alive(x));
                        }
                    }
                }
            },
            None => {
                proof {
                    let rows = self.storage.rows();
                    assert forall|x: u64, u: Symbol| #[trigger] has_key(rows, x, u) implies self.entities.alive(x) by {
                        assert(old(self).entities.alive(x));
                    }
                }
            },
        }
    }
    /// Detaches the component of type `component_type` from the entity with
    /// `entity_id`'s numeric id: drops the tag and the stored row. Returns
    /// whether a row was stored.
    pub fn remove_component_from_entity(&mut self, entity_id: EntityId, component_type: &Symbol) -> (r:
        bool)
        requires
            old(self).wf(),
        ensures
            final(self).wf(),
            r == old(self).has(entity_id.id, *component_type),
            final(self).storage.rows() == without_key(
                old(self).storage.rows(),
                entity_id.id,
                *component_type,
            ),
            old(self).entities.alive(entity_id.id) ==> exists|i: int|
                is_entity_at(old(self).entities.entities@, entity_id.id, i) && retagged(
                    old(self).entities.entities@,
                    final(self).entities.entities@,
                    i,
                    without_tag(old(self).entities.entities@[i]@.types, *component_type),
                ),
            !old(self).entities.alive(entity_id.id) ==> final(self).entities.entities
                == old(self).entities.entities,
            final(self).entities.next_id == old(self).entities.next_id,
            final(self).entities.free_list == old(self).entities.free_list,
            final(self).components == old(self).components,
            final(self).resources == old(self).resources,
            final(self).events == old(self).events,
    {
        let t = *component_type;
        let ghost m0 = self.entities;
        let ghost rows0 = self.storage.rows();
        let found = self.entities.find(entity_id.id);
        match found {
            Some(i) => {
                let ghost types0 = self.entities.entities@[i as int]@.types;
                self.entities.entities[i].remove_component_type(component_type);
                proof {
                    let e0 = m0.entities@;
                    let e1 = self.entities.entities@;
                    assert(retagged(e0, e1, i as int, without_tag(types0, t)));
                    lemma_retagged(m0, self.entities, i as int, without_tag(types0, t));
                }
            },
            None => {},
        }
        let r = self.storage.remove_component(entity_id, t);
        proof {
            lemma_without_key_facts(rows0, entity_id.id, t);
            let e0 = m0.entities@;
            let e1 = self.entities.entities@;
            let rows = self.storage.rows();
            assert forall|k: int, u: Symbol|
                #![trigger e1[k]@.types.contains(u)]
                #![trigger has_key(rows, e1[k].id.id, u)]
                0 <= k < e1.len() implies (e1[k]@.types.contains(u) <==> has_key(rows, e1[k].id.id, u)) by {
                assert(e0[k]@.types.contains(u) == has_key(rows0, e0[k].id.id, u));
                match found {
                    Some(i) => {
                        if e0[k].id.id == entity_id.id {
                            lemma_entity_index_unique(m0, entity_id.id, i as int, k);
                            lemma_without_contains(e0[k]@.types, t, u);
                        } else {
                            assert(k != i);
                            assert(e1[k] == e0[k]);
                        }
                    },
                    None => {
                        if e0[k].id.id == entity_id.id {
                            assert(is_entity_at(e0, entity_id.id, k));
                        }
                    },
                }
            }
            assert forall|x: u64, u: Symbol| #[trigger] has_key(rows, x, u) implies self.entities.alive(x) by {
                assert(has_key(rows0, x, u));
                assert(m0.alive(x));
            }
        }
        r
    }

    /// The component of type `component_type` stored for `entity_id`'s
    /// numeric id, read back with table storage.
    pub fn get_component(&self, entity_id: EntityId, component_type: &Symbol) -> (r: Option<Component>)
        requires
            self.wf(),
        ensures
            r.is_some() == self.has(entity_id.id, *component_type),
            r matches Some(c) ==> row_data(self.storage.rows(), entity_id.id, *component_type)
                == Some(c.data@) && c.component_type == *component_type && c.storage
                == crate::component::ComponentStorage::Table,
    {
        self.storage.get_component(entity_id, *component_type)
    }

    /// A copy of the component of type `component_type` stored for
    /// `entity_id`'s numeric id, as `get_component` gives it.
    pub fn get_component_mut(&mut self, entity_id: EntityId, component_type: &Symbol) -> (r: Option<
        Component,
    >)
        requires
            old(self).wf(),
        ensures
            *final(self) == *old(self),
            r.is_some() == old(self).has(entity_id.id, *component_type),
            r matches Some(c) ==> row_data(old(self).storage.rows(), entity_id.id, *component_type)
                == Some(c.data@) && c.component_type == *component_type && c.storage
                == crate::component::ComponentStorage::Table,
    {
        self.get_component(entity_id, component_type)
    }

    /// Whether a component of type `component_type` is attached to the live
    /// entity with `entity_id`'s numeric id.
    pub fn has_component(&self, entity_id: EntityId, component_type: &Symbol) -> (r: bool)
        requires
            self.wf(),
        ensures
            r == self.has(entity_id.id, *component_type),
    {
        match self.entities.find(entity_id.id) {
            Some(i) => {
                let r = self.entities.entities[i].has_component(component_type);
                proof {
                    let ents = self.entities.entities@;
                    assert(ents[i as int]@.types.contains(*component_type) <==> has_key(
                        self.storage.rows(),
                        ents[i as int].id.id,
                        *component_type,
                    ));
                }
                r
            },
            None => {
                proof {
                    if self.has(entity_id.id, *component_type) {
                        assert(self.entities.alive(entity_id.id));
                    }
                }
                false
            },
        }
    }

    /// Despawns the entity with `entity_id`'s numeric id: removes every
    /// component stored for it, then the entity, freeing its id. Returns
    /// whether it was alive; if not, nothing changes.
    pub fn despawn(&mut self, entity_id: EntityId) -> (r: bool)
        requires
            old(self).wf(),
        ensures
            final(self).wf(),
            r == old(self).entities.alive(entity_id.id),
            !final(self).entities.alive(entity_id.id),
            forall|u: Symbol| !#[trigger] final(self).has(entity_id.id, u),
            forall|x: u64, u: Symbol|
                x != entity_id.id ==> #[trigger] final(self).has(x, u) == old(self).has(x, u)
                    && row_data(final(self).storage.rows(), x, u) == row_data(
                    old(self).storage.rows(),
                    x,
                    u,
                ),
            r ==> exists|i: int|
                is_entity_at(old(self).entities.entities@, entity_id.id, i)
                && final(self).entities.entities@ == old(self).entities.entities@.remove(i),
            r ==> final(self).entities.free_list@ == old(self).entities.free_list@.push(entity_id.id),
            !r ==> final(self).entities.entities@ == old(self).entities.entities@
                && final(self).entities.free_list@ == old(self).entities.free_list@
                && final(self).storage == old(self).storage,
            final(self).entities.next_id == old(self).entities.next_id,
            final(self).components == old(self).components,
            final(self).resources == old(self).resources,
            final(self).events == old(self).events,
    {
        let e = entity_id.id;
        let ghost rows0 = self.storage.rows();
        match self.entities.find(e) {
            Some(i) => {
                let types = self.entities.entities[i].component_types.clone();
                assert(types@ =~= self.entities.entities@[i as int]@.types);
                let n = types.len();
                let mut j: usize = 0;
                while j < n
                    invariant
                        n == types@.len(),
                        0 <= j <= n,
                        e == entity_id.id,
                        self.storage.wf(),
                        self.entities == old(self).entities,
                        self.components == old(self).components,
                        self.resources == old(self).resources,
                        self.events == old(self).events,
                        is_entity_at(self.entities.entities@, e, i as int),
                        types@ == self.entities.entities@[i as int]@.types,
                        forall|x: u64, u: Symbol|
                            x != e ==> #[trigger] has_key(self.storage.rows(), x, u) == has_key(rows0, x, u)
                                && row_data(self.storage.rows(), x, u) == row_data(rows0, x, u),
                        forall|u: Symbol|
                            #[trigger] has_key(self.storage.rows(), e, u) == (has_key(rows0, e, u)
                                && !types@.subrange(0, j as int).contains(u)),
                    decreases n - j,
                {
                    let ghost before = self.storage.rows();
                    let tag = types[j];
                    proof {
                        lemma_without_key_facts(before, e, tag);
                    }
                    self.storage.remove_component(entity_id, tag);
                    proof {
                        let after = self.storage.rows();
                        let tj = tag;
                        assert(after == without_key(before, e, tj));
                        assert forall|x: u64, u: Symbol|
                            x != e implies #[trigger] has_key(after, x, u) == has_key(rows0, x, u)
                                && row_data(after, x, u) == row_data(rows0, x, u) by {
                            assert(has_key(after, x, u) == has_key(before, x, u));
                            assert(row_data(after, x, u) == row_data(before, x, u));
                        }
                        assert forall|u: Symbol| #[trigger] has_key(after, e, u) == (has_key(rows0, e, u)
                            && !types@.subrange(0, j + 1).contains(u)) by {
                            assert(types@.subrange(0, j + 1) =~= types@.subrange(0, j as int).push(tj));
                            lemma_contains_push(types@.subrange(0, j as int), tj, u);
                            if u != tj {
                                assert(has_key(after, e, u) == has_key(before, e, u));
                            }
                        }
                    }
                    j = j + 1;
                }
                proof {
                    assert(types@.subrange(0, n as int) =~= types@);
                    assert forall|u: Symbol| !#[trigger] has_key(self.storage.rows(), e, u) by {
                        assert(self.entities.entities@[i as int]@.types.contains(u) == has_key(rows0, e, u));
                    }
                }
            },
            None => {
                proof {
                    assert forall|u: Symbol| !#[trigger] has_key(self.storage.rows(), e, u) by {
                        if has_key(rows0, e, u) {
                            assert(self.entities.alive(e));
                        }
                    }
                }
            },
        }
        let ghost m1 = self.entities;
        let r = self.entities.despawn(entity_id);
        proof {
            let e0 = m1.entities@;
            let e1 = self.entities.entities@;
            let rows = self.storage.rows();
            if r {
                let i = choose|i: int| is_entity_at(e0, e, i) && e1 == e0.remove(i);
                assert forall|k: int| 0 <= k < e1.len() implies #[trigger] e1[k] == e0[if k < i { k } else { k + 1 }] by {}
                assert forall|k: int, u: Symbol|
                    #![trigger e1[k]@.types.contains(u)]
                    #![trigger has_key(rows, e1[k].id.id, u)]
                    0 <= k < e1.len() implies (e1[k]@.types.contains(u) <==> has_key(rows, e1[k].id.id, u)) by {
                    let k1 = if k < i { k } else { k + 1 };
                    assert(e1[k] == e0[k1]);
                    assert(e0[k1]@.types.contains(u) == has_key(rows0, e0[k1].id.id, u));
                    if e0[k1].id.id == e {
                        lemma_entity_index_unique(m1, e, i, k1);
                    }
                }
                assert forall|x: u64, u: Symbol| #[trigger] has_key(rows, x, u) implies self.entities.alive(x) by {
                    assert(x != e);
                    assert(has_key(rows0, x, u));
                    assert(m1.alive(x));
                    let k1 = choose|k1: int| is_entity_at(e0, x, k1);
                    assert(k1 != i);
                    let k = if k1 < i { k1 } else { k1 - 1 };
                    assert(e1[k] == e0[k1]);
                    assert(is_entity_at(e1, x, k));
                }
                assert forall|k: int| !is_entity_at(e1, e, k) by {
                    if 0 <= k < e1.len() {
                        let k1 = if k < i { k } else { k + 1 };
                        assert(e1[k] == e0[k1]);
                        if e0[k1].id.id == e {
                            lemma_entity_index_unique(m1, e, i, k1);
                        }
                    }
                }
            } else {
                assert forall|x: u64, u: Symbol| #[trigger] has_key(rows, x, u) implies self.entities.alive(x) by {
                    assert(has_key(rows0, x, u));
                }
            }
        }
        r
    }

    /// The number of live entities.
    pub fn entity_count(&self) -> (r: usize)
        ensures
            r == self.entities.entities@.len(),
    {
        self.entities.entity_count()
    }

    /// The number of registered component types.
    pub fn component_count(&self) -> (r: usize)
        ensures
            r == self.components.tags().len(),
    {
        self.components.component_count()
    }

    /// Whether an entity with `entity_id`'s numeric id is alive.
    pub fn is_alive(&self, entity_id: EntityId) -> (r: bool)
        ensures
            r == self.entities.alive(entity_id.id),
    {
        self.entities.is_alive(entity_id)
    }

    /// A copy of the entity with `entity_id`'s numeric id, if it is alive.
    pub fn get_entity(&self, entity_id: EntityId) -> (r: Option<Entity>)
        ensures
            r.is_some() == self.entities.alive(entity_id.id),
            r matches Some(e) ==> exists|i: int|
                is_entity_at(self.entities.entities@, entity_id.id, i) && e@
                    == self.entities.entities@[i]@,
    {
        self.entities.get_entity(entity_id)
    }

    /// A copy of the entity with `entity_id`'s numeric id, as `get_entity`
    /// gives it.
    pub fn get_entity_mut(&mut self, entity_id: EntityId) -> (r: Option<Entity>)
        ensures
            *final(self) == *old(self),
            r.is_some() == old(self).entities.alive(entity_id.id),
            r matches Some(e) ==> exists|i: int|
                is_entity_at(old(self).entities.entities@, entity_id.id, i) && e@
                    == old(self).entities.entities@[i]@,
    {
        self.get_entity(entity_id)
    }
    /// Spawns an entity and attaches each of `components` to it in order.
    /// Returns a copy of the new entity.
    pub fn spawn(&mut self, components: Vec<Component>) -> (r: Entity)
        requires
            old(self).wf(),
            old(self).entities.can_spawn(),
            old(self).components.tags().len() + components@.len() < u32::MAX,
        ensures
            final(self).wf(),
            r.id == (EntityId { id: old(self).entities.next_spawn_id(), generation: 0 }),
            !old(self).entities.alive(r.id.id),
            final(self).entities.alive(r.id.id),
            r@.types == tags_after(seq![], component_views(components@)),
            final(self).entities.entities@.len() == old(self).entities.entities@.len() + 1,
            final(self).entities.entities@.drop_last() == old(self).entities.entities@,
            final(self).entities.entities@.last()@ == r@,
            final(self).storage.rows() == upsert_all(
                old(self).storage.rows(),
                r.id.id,
                component_views(components@),
            ),
            final(self).components.tags() == registered_all(
                old(self).components.tags(),
                component_views(components@),
            ),
            old(self).entities.free_list@.len() > 0 ==> final(self).entities.free_list@
                == old(self).entities.free_list@.drop_last() && final(self).entities.next_id
                == old(self).entities.next_id,
            old(self).entities.free_list@.len() == 0 ==> final(self).entities.free_list@
                == old(self).entities.free_list@ && final(self).entities.next_id
                == old(self).entities.next_id + 1,
            final(self).resources == old(self).resources,
            final(self).events == old(self).events,
    {
        let id = self.spawn_id();
        let ghost rows1 = self.storage.rows();
        let ghost ents1 = self.entities.entities@;
        let ghost cv = component_views(components@);
        let last_i: usize = self.entities.entities.len() - 1;
        let ghost last = last_i as int;
        proof {
            assert(cv.subrange(0, 0) =~= Seq::<ComponentView>::empty());
            assert(is_entity_at(ents1, id.id, last));
        }
        let n = components.len();
        let mut i: usize = 0;
        while i < n
            invariant
                n == components@.len(),
                cv == component_views(components@),
                0 <= i <= n,
                self.wf(),
                self.components.tags().len() <= old(self).components.tags().len() + i,
                old(self).components.tags().len() + n < u32::MAX,
                self.entities.entities@.len() == ents1.len(),
                last == ents1.len() - 1,
                self.entities.entities@.drop_last() == ents1.drop_last(),
                self.entities.entities@[last]@ == (EntityView {
                    id,
                    types: tags_after(seq![], cv.subrange(0, i as int)),
                }),
                is_entity_at(self.entities.entities@, id.id, last),
                self.storage.rows() == upsert_all(rows1, id.id, cv.subrange(0, i as int)),
                self.components.tags() == registered_all(
                    old(self).components.tags(),
                    cv.subrange(0, i as int),
                ),
                self.resources == old(self).resources,
                self.events == old(self).events,
                old(self).entities.free_list@.len() > 0 ==> self.entities.free_list@
                    == old(self).entities.free_list@.drop_last() && self.entities.next_id
                    == old(self).entities.next_id,
                old(self).entities.free_list@.len() == 0 ==> self.entities.free_list@
                    == old(self).entities.free_list@ && self.entities.next_id
                    == old(self).entities.next_id + 1,
            decreases n - i,
        {
            let c = components[i].duplicate();
            let ghost m0 = self.entities;
            proof {
                assert(self.entities.alive(id.id));
                assert(cv.subrange(0, i + 1).drop_last() =~= cv.subrange(0, i as int));
                assert(cv[i as int] == components@[i as int]@);
                if !self.components.tags().contains(c.component_type) {
                    assert(self.components.next_id as int == self.components.tags().len() + 1);
                }
            }
            self.add_component_to_entity(id, c);
            proof {
                let k = choose|k: int|
                    is_entity_at(m0.entities@, id.id, k) && retagged(
                        m0.entities@,
                        self.entities.entities@,
                        k,
                        with_tag(m0.entities@[k]@.types, cv[i as int].component_type),
                    );
                lemma_entity_index_unique(m0, id.id, k, last);
                let e2 = self.entities.entities@;
                assert(e2.drop_last() =~= ents1.drop_last()) by {
                    assert forall|a: int| 0 <= a < e2.len() - 1 implies e2[a] == ents1.drop_last()[a] by {
                        assert(e2[a] == m0.entities@[a]);
                    }
                }
                assert(is_entity_at(e2, id.id, last));
            }
            i = i + 1;
        }
        proof {
            assert(cv.subrange(0, n as int) =~= cv);
        }
        let r = self.entities.entities[last_i].duplicate();
        proof {
            let e2 = self.entities.entities@;
            assert(e2 =~= e2.drop_last().push(e2[last]));
            assert(e2.drop_last() =~= ents1.drop_last());
            assert(ents1.drop_last() =~= old(self).entities.entities@);
        }
        r
    }

    /// Adds a resource after those already there.
    pub fn add_resource(&mut self, resource: Resource)
        requires
            old(self).wf(),
        ensures
            final(self).wf(),
            final(self).resources@ == old(self).resources@.push(resource),
            final(self).entities == old(self).entities,
            final(self).components == old(self).components,
            final(self).storage == old(self).storage,
            final(self).events == old(self).events,
    {
        self.resources.push(resource);
    }

    /// A copy of the first resource of type `resource_type`.
    pub fn get_resource(&self, resource_type: &Symbol) -> (r: Option<Resource>)
        ensures
            r.is_some() == first_resource(self.resources@, *resource_type).is_some(),
            r matches Some(x) ==> x@ == first_resource(self.resources@, *resource_type)->Some_0@,
    {
        let ghost rs = self.resources@;
        let n = self.resources.len();
        let mut i: usize = 0;
        while i < n
            invariant
                n == rs.len(),
                rs == self.resources@,
                0 <= i <= n,
                first_resource(rs.subrange(0, i as int), *resource_type).is_none(),
            decreases n - i,
        {
            proof {
                assert(rs.subrange(0, i + 1).drop_last() =~= rs.subrange(0, i as int));
                lemma_first_resource_prefix(rs, *resource_type, i as int + 1);
            }
            if self.resources[i].resource_type == *resource_type {
                proof {
                    lemma_first_resource_extend(rs, *resource_type, i as int + 1);
                }
                return Some(self.resources[i].duplicate());
            }
            i = i + 1;
        }
        proof {
            assert(rs.subrange(0, n as int) =~= rs);
        }
        None
    }

    /// A copy of the first resource of type `resource_type`, as
    /// `get_resource` gives it.
    pub fn get_resource_mut(&mut self, resource_type: &Symbol) -> (r: Option<Resource>)
        ensures
            *final(self) == *old(self),
            r.is_some() == first_resource(old(self).resources@, *resource_type).is_some(),
            r matches Some(x) ==> x@ == first_resource(old(self).resources@, *resource_type)->Some_0@,
    {
        self.get_resource(resource_type)
    }

    /// Removes every resource of type `resource_type`; returns the last of
    /// them.
    pub fn remove_resource(&mut self, resource_type: &Symbol) -> (r: Option<Resource>)
        requires
            old(self).wf(),
        ensures
            final(self).wf(),
            r == last_resource(old(self).resources@, *resource_type),
            final(self).resources@ == resources_without(old(self).resources@, *resource_type),
            final(self).entities == old(self).entities,
            final(self).components == old(self).components,
            final(self).storage == old(self).storage,
            final(self).events == old(self).events,
    {
        let t = *resource_type;
        let ghost rs = self.resources@;
        let n = self.resources.len();
        let mut found: Option<Resource> = None;
        let mut j: usize = 0;
        let mut i: usize = 0;
        while j < n
            invariant
                n == rs.len(),
                0 <= j <= n,
                i <= j,
                i == resources_without(rs.subrange(0, j as int), t).len(),
                self.resources@ == resources_without(rs.subrange(0, j as int), t) + rs.subrange(j as int, n as int),
                found == last_resource(rs.subrange(0, j as int), t),
                self.wf(),
                self.entities == old(self).entities,
                self.components == old(self).components,
                self.storage == old(self).storage,
                self.events == old(self).events,
            decreases n - j,
        {
            let ghost pre = resources_without(rs.subrange(0, j as int), t);
            proof {
                assert(rs.subrange(0, j + 1).drop_last() =~= rs.subrange(0, j as int));
                assert(self.resources@[i as int] == rs[j as int]);
            }
            if self.resources[i].resource_type == t {
                let x = self.resources.remove(i);
                found = Some(x);
                proof {
                    assert(self.resources@ =~= pre + rs.subrange(j + 1, n as int));
                }
            } else {
                i = i + 1;
                proof {
                    assert(self.resources@ =~= pre.push(rs[j as int]) + rs.subrange(j + 1, n as int));
                }
            }
            j = j + 1;
        }
        proof {
            assert(rs.subrange(0, n as int) =~= rs);
            assert(self.resources@ =~= resources_without(rs, t));
        }
        found
    }

    /// Adds an event after those already there.
    pub fn send_event(&mut self, event: Event)
        requires
            old(self).wf(),
        ensures
            final(self).wf(),
            final(self).events@ == old(self).events@.push(event),
            final(self).entities == old(self).entities,
            final(self).components == old(self).components,
            final(self).storage == old(self).storage,
            final(self).resources == old(self).resources,
    {
        self.events.push(event);
    }

    /// Copies of the events of type `event_type`, in order.
    pub fn get_events(&self, event_type: &Symbol) -> (r: Vec<Event>)
        ensures
            event_views(r@) == events_of(self.events@, *event_type),
    {
        let t = *event_type;
        let ghost evs = self.events@;
        let mut out: Vec<Event> = Vec::new();
        let n = self.events.len();
        let mut i: usize = 0;
        while i < n
            invariant
                n == evs.len(),
                evs == self.events@,
                0 <= i <= n,
                event_views(out@) + tagged_from(evs, t, i as int) == tagged_from(evs, t, 0),
            decreases n - i,
        {
            let ghost before = out@;
            if self.events[i].event_type == t {
                out.push(self.events[i].duplicate());
                proof {
                    assert(event_views(out@) =~= event_views(before).push(evs[i as int]@));
                    assert(event_views(before).push(evs[i as int]@) + tagged_from(evs, t, i + 1)
                        =~= event_views(before) + tagged_from(evs, t, i as int));
                }
            }
            i = i + 1;
        }
        proof {
            assert(tagged_from(evs, t, n as int) =~= Seq::<EventView>::empty());
            assert(event_views(out@) + Seq::<EventView>::empty() =~= event_views(out@));
        }
        out
    }

    /// Drops every event.
    pub fn clear_events(&mut self)
        requires
            old(self).wf(),
        ensures
            final(self).wf(),
            final(self).events@.len() == 0,
            final(self).entities == old(self).entities,
            final(self).components == old(self).components,
            final(self).storage == old(self).storage,
            final(self).resources == old(self).resources,
    {
        self.events = Vec::new();
    }

    /// The live entities, in spawn order.
    pub fn iter_entities(&self) -> (r: &Vec<Entity>)
        ensures
            r@ == self.entities.entities@,
    {
        self.entities.iter_entities()
    }

    /// Copies of the live entities, in spawn order.
    pub fn iter_entities_mut(&mut self) -> (r: Vec<Entity>)
        ensures
            *final(self) == *old(self),
            r@.len() == old(self).entities.entities@.len(),
            forall|k: int|
                0 <= k < r@.len() ==> #[trigger] r@[k]@ == old(self).entities.entities@[k]@,
    {
        self.entities.iter_entities_mut()
    }

    /// The ids of the live entities that carry every tag of
    /// `component_types`, in spawn order.
    pub fn query_entities(&self, component_types: &[Symbol]) -> (r: Vec<EntityId>)
        ensures
            r@ == matching_ids(self.entities.entities@, component_types@, seq![]),
    {
        let none: Vec<Symbol> = Vec::new();
        assert(none@ =~= Seq::<Symbol>::empty());
        collect_matching(&self.entities.entities, component_types, none.as_slice())
    }

    /// Drops every entity and every stored component.
    pub fn clear_entities(&mut self)
        requires
            old(self).wf(),
        ensures
            final(self).wf(),
            final(self).entities.entities@.len() == 0,
            final(self).entities.next_id == 1,
            final(self).entities.free_list@.len() == 0,
            final(self).storage.rows().len() == 0,
            final(self).components == old(self).components,
            final(self).resources == old(self).resources,
            final(self).events == old(self).events,
    {
        self.entities = EntityManager::new();
        self.storage = Storage::new();
    }

    /// Drops every resource.
    pub fn clear_resources(&mut self)
        requires
            old(self).wf(),
        ensures
            final(self).wf(),
            final(self).resources@.len() == 0,
            final(self).entities == old(self).entities,
            final(self).components == old(self).components,
            final(self).storage == old(self).storage,
            final(self).events == old(self).events,
    {
        self.resources = Vec::new();
    }

    /// Drops every entity, stored component, resource and event; the
    /// registered types stay.
    pub fn clear(&mut self)
        requires
            old(self).wf(),
        ensures
            final(self).wf(),
            final(self).entities.entities@.len() == 0,
            final(self).entities.next_id == 1,
            final(self).entities.free_list@.len() == 0,
            final(self).storage.rows().len() == 0,
            final(self).resources@.len() == 0,
            final(self).events@.len() == 0,
            final(self).components == old(self).components,
    {
        self.clear_entities();
        self.clear_resources();
        self.clear_events();
    }
}

/// A first match found in a prefix is the first match of the whole.
proof fn lemma_first_resource_extend(rs: Seq<Resource>, t: Symbol, k: int)
    requires
        0 <= k <= rs.len(),
        first_resource(rs.subrange(0, k), t).is_some(),
    ensures
        first_resource(rs, t) == first_resource(rs.subrange(0, k), t),
    decreases rs.len() - k,
{
    if k < rs.len() {
        let d = rs.drop_last();
        assert(d.subrange(0, k) =~= rs.subrange(0, k));
        lemma_first_resource_extend(d, t, k);
    } else {
        assert(rs.subrange(0, k) =~= rs);
    }
}

/// The first match in a longer prefix is the one in the shorter prefix, or
/// else the new element when it matches.
proof fn lemma_first_resource_prefix(rs: Seq<Resource>, t: Symbol, i: int)
    requires
        0 < i <= rs.len(),
    ensures
        first_resource(rs.subrange(0, i), t) == match first_resource(rs.subrange(0, i - 1), t) {
            Some(r) => Some(r),
            None => if rs[i - 1].resource_type == t {
                Some(rs[i - 1])
            } else {
                None
            },
        },
{
    assert(rs.subrange(0, i).drop_last() =~= rs.subrange(0, i - 1));
}

/// Once nothing is stored for an entity, as after despawning it, its
/// component list is empty and no row of the table names it.
pub proof fn lemma_despawned_has_no_rows(w: World, x: u64)
    requires
        w.wf(),
        forall|u: Symbol| !#[trigger] w.has(x, u),
    ensures
        entity_rows(w.storage.rows(), x) == Seq::<RowView>::empty(),
        forall|k: int| 0 <= k < w.storage.rows().len() ==> (#[trigger] w.storage.rows()[k]).entity != x,
{
    let rows = w.storage.rows();
    assert forall|u: Symbol| !#[trigger] has_key(rows, x, u) by {
        assert(!w.has(x, u));
    }
    lemma_no_key_no_rows(rows, x);
    assert forall|k: int| 0 <= k < rows.len() implies (#[trigger] rows[k]).entity != x by {
        if rows[k].entity == x {
            assert(is_key_at(rows, x, rows[k].tag, k));
            assert(w.has(x, rows[k].tag));
        }
    }
}

/// A resource added when none of its type is present is the one that
/// lookup by type then finds, and the one that removal by type hands
/// back; after that removal, lookup finds none of that type.
pub proof fn lemma_resource_add_get_remove(rs: Seq<Resource>, r: Resource)
    requires
        first_resource(rs, r.resource_type).is_none(),
    ensures
        first_resource(rs.push(r), r.resource_type) == Some(r),
        last_resource(rs.push(r), r.resource_type) == Some(r),
        first_resource(resources_without(rs.push(r), r.resource_type), r.resource_type).is_none(),
{
    assert(rs.push(r).drop_last() =~= rs);
    lemma_removed_type_is_gone(rs.push(r), r.resource_type);
}

/// After removing every resource of a type, lookup finds none of it.
pub proof fn lemma_removed_type_is_gone(rs: Seq<Resource>, t: Symbol)
    ensures
        first_resource(resources_without(rs, t), t).is_none(),
    decreases rs.len(),
{
    if rs.len() > 0 {
        let d = rs.drop_last();
        lemma_removed_type_is_gone(d, t);
        if rs.last().resource_type != t {
            let w = resources_without(d, t);
            assert(w.push(rs.last()).drop_last() =~= w);
        }
    }
}

/// Once the events are cleared, no event of any type is left to get.
pub proof fn lemma_cleared_events(w: World, t: Symbol)
    requires
        w.events@.len() == 0,
    ensures
        events_of(w.events@, t) == Seq::<EventView>::empty(),
{
    assert(events_of(w.events@, t) =~= Seq::<EventView>::empty());
}

impl Default for World {
    fn default() -> (r: World)
        ensures
            r.wf(),
            r.entities.entities@.len() == 0,
            r.storage.rows().len() == 0,
            r.resources@.len() == 0,
            r.events@.len() == 0,
    {
        World::new()
    }
}

/// A tag other than the one added is present after adding exactly when it
/// was before.
proof fn lemma_with_tag_contains(types: Seq<Symbol>, t: Symbol, u: Symbol)
    requires
        u != t,
    ensures
        with_tag(types, t).contains(u) == types.contains(u),
{
    if !types.contains(t) {
        let p = types.push(t);
        if p.contains(u) {
            let k = choose|k: int| 0 <= k < p.len() && p[k] == u;
            assert(k < types.len());
            assert(types[k] == u);
        }
        if types.contains(u) {
            let k = choose|k: int| 0 <= k < types.len() && types[k] == u;
            assert(p[k] == u);
        }
    }
}

} // verus!
