//! Entity identity and lifecycle: ids are minted on spawn, freed on
//! despawn and reused most-recently-freed first.
use vstd::prelude::*;
use crate::symbol::Symbol;

verus! {

/// The identity of an entity. Numeric id zero is reserved as invalid; the
/// generation is carried but every minted id has generation zero.
#[derive(Clone, Copy, Debug, PartialEq, Eq, Structural, Hash, PartialOrd, Ord)]
pub struct EntityId {
    pub id: u64,
    pub generation: u32,
}

impl EntityId {
    /// An id with the given numeric id and generation.
    pub fn new(id: u64, generation: u32) -> (r: EntityId)
        ensures
            r.id == id,
            r.generation == generation,
    {
        EntityId { id, generation }
    }

    /// The numeric id.
    pub fn id(&self) -> (r: u64)
        ensures
            r == self.id,
    {
        self.id
    }

    /// The generation.
    pub fn generation(&self) -> (r: u32)
        ensures
            r == self.generation,
    {
        self.generation
    }

    /// Whether the numeric id is not the reserved zero.
    pub fn is_valid(&self) -> (r: bool)
        ensures
            r == (self.id != 0),
    {
        self.id != 0
    }
}

/// What an entity is: its id and the component-type tags attached to it,
/// in the order they were attached.
pub struct EntityView {
    pub id: EntityId,
    pub types: Seq<Symbol>,
}

/// An entity: an id and the tags of the component types attached to it.
/// The component data itself lives in the storage table.
#[derive(Clone, Debug)]
pub struct Entity {
    pub id: EntityId,
    pub component_types: Vec<Symbol>,
}

impl View for Entity {
    type V = EntityView;

    open spec fn view(&self) -> EntityView {
        EntityView { id: self.id, types: self.component_types@ }
    }
}

impl Entity {
    /// An entity with no components.
    pub fn new(id: EntityId) -> (r: Entity)
        ensures
            r@ == (EntityView { id, types: seq![] }),
    {
        Entity { id, component_types: Vec::new() }
    }

    /// The entity's id.
    pub fn id(&self) -> (r: EntityId)
        ensures
            r == self.id,
    {
        self.id
    }

    /// Appends `component_type` to the entity's tags.
    pub fn add_component_type(&mut self, component_type: Symbol)
        ensures
            final(self)@ == (EntityView {
                id: old(self).id,
                types: old(self)@.types.push(component_type),
            }),
    {
        self.component_types.push(component_type);
    }

    /// Removes every occurrence of `component_type` from the entity's tags;
    /// returns whether there was one.
    pub fn remove_component_type(&mut self, component_type: &Symbol) -> (r: bool)
        ensures
            r == old(self)@.types.contains(*component_type),
            final(self)@ == (EntityView {
                id: old(self).id,
                types: without_tag(old(self)@.types, *component_type),
            }),
    {
        let t = *component_type;
        let ghost s = self.component_types@;
        let mut found = false;
        let mut kept: Vec<Symbol> = Vec::new();
        let n = self.component_types.len();
        let mut i: usize = 0;
        while i < n
            invariant
                n == s.len(),
                self.component_types@ == s,
                0 <= i <= n,
                kept@ == without_tag(s.subrange(0, i as int), t),
                found == s.subrange(0, i as int).contains(t),
            decreases n - i,
        {
            let c = self.component_types[i];
            proof {
                lemma_without_prefix_step(s, t, i as int);
                assert(s.subrange(0, i + 1) =~= s.subrange(0, i as int).push(s[i as int]));
                lemma_contains_push(s.subrange(0, i as int), s[i as int], t);
            }
            if c == t {
                found = true;
            } else {
                kept.push(c);
            }
            i = i + 1;
        }
        proof {
            assert(s.subrange(0, n as int) =~= s);
        }
        if found {
            self.component_types = kept;
        } else {
            proof {
                lemma_without_absent(s, t);
            }
        }
        found
    }

    /// Whether `component_type` is among the entity's tags.
    pub fn has_component(&self, component_type: &Symbol) -> (r: bool)
        ensures
            r == self@.types.contains(*component_type),
    {
        let n = self.component_types.len();
        let mut i: usize = 0;
        while i < n
            invariant
                n == self.component_types@.len(),
                0 <= i <= n,
                forall|k: int| 0 <= k < i ==> self.component_types@[k] != *component_type,
            decreases n - i,
        {
            if self.component_types[i] == *component_type {
                return true;
            }
            i = i + 1;
        }
        false
    }

    /// The entity's tags.
    pub fn component_types(&self) -> (r: &Vec<Symbol>)
        ensures
            r@ == self@.types,
    {
        &self.component_types
    }

    /// The number of tags.
    pub fn component_count(&self) -> (r: usize)
        ensures
            r == self@.types.len(),
    {
        self.component_types.len()
    }

    /// Whether the entity has no tags.
    pub fn is_empty(&self) -> (r: bool)
        ensures
            r == (self@.types.len() == 0),
    {
        self.component_types.len() == 0
    }

    /// A copy of this entity.
    pub fn duplicate(&self) -> (r: Entity)
        ensures
            r@ == self@,
    {
        let types = self.component_types.clone();
        assert(types@ =~= self.component_types@);
        Entity { id: self.id, component_types: types }
    }
}

/// Owns entity lifecycle: the live entities in spawn order, the next fresh
/// numeric id, and the freed ids, most recently freed last.
#[derive(Clone, Debug)]
pub struct EntityManager {
    pub next_id: u64,
    pub entities: Vec<Entity>,
    pub free_list: Vec<u64>,
}

/// Whether the entity at index `i` of `ents` has numeric id `id`.
pub open spec fn is_entity_at(ents: Seq<Entity>, id: u64, i: int) -> bool {
    0 <= i < ents.len() && ents[i].id.id == id
}

/// Whether some entity of `ents` has numeric id `id`.
pub open spec fn has_entity(ents: Seq<Entity>, id: u64) -> bool {
    exists|i: int| is_entity_at(ents, id, i)
}

impl EntityManager {
    /// Live ids are valid, fresh ids lie below `next_id`, no id is live
    /// twice, freed twice, or both live and freed.
    pub open spec fn wf(&self) -> bool {
        let ents = self.entities@;
        let free = self.free_list@;
        &&& self.next_id >= 1
        &&& forall|i: int| 0 <= i < ents.len() ==> 1 <= #[trigger] ents[i].id.id < self.next_id
        &&& forall|i: int, j: int|
            #![trigger ents[i].id.id, ents[j].id.id]
            0 <= i < ents.len() && 0 <= j < ents.len() && i != j ==> ents[i].id.id != ents[j].id.id
        &&& forall|k: int| 0 <= k < free.len() ==> 1 <= #[trigger] free[k] < self.next_id
        &&& forall|k: int, l: int|
            #![trigger free[k], free[l]]
            0 <= k < free.len() && 0 <= l < free.len() && k != l ==> free[k] != free[l]
        &&& forall|i: int, k: int|
            #![trigger ents[i].id.id, free[k]]
            0 <= i < ents.len() && 0 <= k < free.len() ==> ents[i].id.id != free[k]
    }

    /// Whether a spawn has an id to hand out: a freed one, or a fresh one
    /// below the largest `u64`.
    pub open spec fn can_spawn(&self) -> bool {
        self.free_list@.len() > 0 || self.next_id < u64::MAX
    }

    /// The numeric id that the next spawn hands out: the most recently
    /// freed one, else the next fresh one.
    pub open spec fn next_spawn_id(&self) -> u64 {
        if self.free_list@.len() > 0 {
            self.free_list@.last()
        } else {
            self.next_id
        }
    }

    /// Whether an entity with numeric id `id` is alive.
    pub open spec fn alive(&self, id: u64) -> bool {
        has_entity(self.entities@, id)
    }

    /// A manager with no entities, whose first fresh id is 1.
    pub fn new() -> (r: EntityManager)
        ensures
            r.wf(),
            r.next_id == 1,
            r.entities@ == Seq::<Entity>::empty(),
            r.free_list@ == Seq::<u64>::empty(),
    {
        EntityManager { next_id: 1, entities: Vec::new(), free_list: Vec::new() }
    }

    /// Spawns an entity with no components under the most recently freed
    /// numeric id, or else the next fresh one, with generation zero.
    pub fn spawn(&mut self) -> (r: EntityId)
        requires
            old(self).wf(),
            old(self).can_spawn(),
        ensures
            final(self).wf(),
            r == (EntityId { id: old(self).next_spawn_id(), generation: 0 }),
            !old(self).alive(r.id),
            final(self).entities@.len() == old(self).entities@.len() + 1,
            final(self).entities@.drop_last() == old(self).entities@,
            final(self).entities@.last()@ == (EntityView { id: r, types: seq![] }),
            old(self).free_list@.len() > 0 ==> final(self).free_list@
                == old(self).free_list@.drop_last() && final(self).next_id == old(self).next_id,
            old(self).free_list@.len() == 0 ==> final(self).free_list@ == old(self).free_list@
                && final(self).next_id == old(self).next_id + 1,
    {
        let id = if self.free_list.len() > 0 {
            let freed = self.free_list.pop().unwrap();
            freed
        } else {
            let fresh = self.next_id;
            self.next_id = self.next_id + 1;
            fresh
        };
        let entity_id = EntityId::new(id, 0);
        let entity = Entity::new(entity_id);
        proof {
            let ents = old(self).entities@;
            let free = old(self).free_list@;
            if free.len() > 0 {
                assert(self.free_list@ =~= free.drop_last());
                assert forall|i: int| 0 <= i < ents.len() implies ents[i].id.id != id by {
                    assert(ents[i].id.id != free[free.len() - 1]);
                }
            }
            assert forall|i: int| 0 <= i < ents.len() implies ents[i].id.id != id by {
                if free.len() > 0 {
                    assert(ents[i].id.id != free[free.len() - 1]);
                }
            }
            assert forall|i: int| !is_entity_at(ents, id, i) by {}
        }
        self.entities.push(entity);
        proof {
            let ents = old(self).entities@;
            let free = old(self).free_list@;
            let e2 = self.entities@;
            let f2 = self.free_list@;
            assert(e2.drop_last() =~= ents);
            assert forall|i: int| 0 <= i < e2.len() implies 1 <= #[trigger] e2[i].id.id < self.next_id by {
                if i < ents.len() {
                    assert(e2[i] == ents[i]);
                } else if free.len() > 0 {
                    assert(1 <= free[free.len() - 1] < old(self).next_id);
                }
            }
            assert forall|k: int| 0 <= k < f2.len() implies 1 <= #[trigger] f2[k] < self.next_id by {
                assert(f2[k] == free[k]);
            }
            assert forall|k: int, l: int|
                #![trigger f2[k], f2[l]]
                0 <= k < f2.len() && 0 <= l < f2.len() && k != l implies f2[k] != f2[l] by {
                assert(f2[k] == free[k] && f2[l] == free[l]);
            }
            assert forall|i: int, j: int|
                #![trigger e2[i].id.id, e2[j].id.id]
                0 <= i < e2.len() && 0 <= j < e2.len() && i != j implies e2[i].id.id != e2[j].id.id by {
                if i < ents.len() && j < ents.len() {
                    assert(e2[i] == ents[i] && e2[j] == ents[j]);
                } else if i < ents.len() {
                    assert(e2[i] == ents[i]);
                    if free.len() > 0 {
                        assert(ents[i].id.id != free[free.len() - 1]);
                    }
                } else {
                    assert(e2[j] == ents[j]);
                    if free.len() > 0 {
                        assert(ents[j].id.id != free[free.len() - 1]);
                    }
                }
            }
            assert forall|i: int, k: int|
                #![trigger e2[i].id.id, f2[k]]
                0 <= i < e2.len() && 0 <= k < f2.len() implies e2[i].id.id != f2[k] by {
                assert(f2[k] == free[k]);
                if i < ents.len() {
                    assert(e2[i] == ents[i]);
                } else {
                    assert(free[k] != free[free.len() - 1]);
                }
            }
        }
        entity_id
    }

    /// Despawns the entity with `entity_id`'s numeric id, if it is alive,
    /// and frees that id; returns whether it was alive. Its component data
    /// is left to the caller.
    pub fn despawn(&mut self, entity_id: EntityId) -> (r: bool)
        requires
            old(self).wf(),
        ensures
            final(self).wf(),
            r == old(self).alive(entity_id.id),
            r ==> exists|i: int|
                is_entity_at(old(self).entities@, entity_id.id, i)
                && final(self).entities@ == old(self).entities@.remove(i),
            r ==> final(self).free_list@ == old(self).free_list@.push(entity_id.id),
            !r ==> final(self).entities@ == old(self).entities@,
            !r ==> final(self).free_list@ == old(self).free_list@,
            final(self).next_id == old(self).next_id,
    {
        let n = self.entities.len();
        let mut i: usize = 0;
        while i < n
            invariant
                n == self.entities@.len(),
                0 <= i <= n,
                self.wf(),
                self.entities@ == old(self).entities@,
                self.free_list@ == old(self).free_list@,
                self.next_id == old(self).next_id,
                forall|k: int| 0 <= k < i ==> !is_entity_at(self.entities@, entity_id.id, k),
            decreases n - i,
        {
            if self.entities[i].id.id == entity_id.id {
                let ghost ents = self.entities@;
                let ghost free = self.free_list@;
                self.entities.remove(i);
                self.free_list.push(entity_id.id);
                proof {
                    let e2 = self.entities@;
                    let f2 = self.free_list@;
                    assert(e2 == ents.remove(i as int));
                    assert forall|a: int| 0 <= a < e2.len() implies
                        e2[a] == ents[if a < i { a } else { a + 1 }] by {}
                    assert forall|a: int, b: int|
                        #![trigger e2[a].id.id, e2[b].id.id]
                        0 <= a < e2.len() && 0 <= b < e2.len() && a != b implies e2[a].id.id != e2[b].id.id by {
                        let a1 = if a < i { a } else { a + 1 };
                        let b1 = if b < i { b } else { b + 1 };
                        assert(e2[a] == ents[a1] && e2[b] == ents[b1]);
                        assert(ents[a1].id.id != ents[b1].id.id);
                    }
                    assert forall|a: int| 0 <= a < e2.len() implies 1 <= #[trigger] e2[a].id.id < self.next_id by {
                        let a1 = if a < i { a } else { a + 1 };
                        assert(e2[a] == ents[a1]);
                        assert(1 <= ents[a1].id.id < self.next_id);
                    }
                    assert forall|k: int| 0 <= k < f2.len() implies 1 <= #[trigger] f2[k] < self.next_id by {
                        if k < free.len() {
                            assert(f2[k] == free[k]);
                        } else {
                            assert(ents[i as int].id.id == entity_id.id);
                        }
                    }
                    assert forall|k: int, l: int|
                        #![trigger f2[k], f2[l]]
                        0 <= k < f2.len() && 0 <= l < f2.len() && k != l implies f2[k] != f2[l] by {
                        if k < free.len() && l < free.len() {
                            assert(f2[k] == free[k] && f2[l] == free[l]);
                        } else if k < free.len() {
                            assert(f2[k] == free[k]);
                            assert(ents[i as int].id.id != free[k]);
                        } else {
                            assert(f2[l] == free[l]);
                            assert(ents[i as int].id.id != free[l]);
                        }
                    }
                    assert forall|a: int, k: int|
                        #![trigger e2[a].id.id, f2[k]]
                        0 <= a < e2.len() && 0 <= k < f2.len() implies e2[a].id.id != f2[k] by {
                        let a1 = if a < i { a } else { a + 1 };
                        assert(e2[a] == ents[a1]);
                        if k < free.len() {
                            assert(f2[k] == free[k]);
                        } else {
                            assert(ents[a1].id.id != ents[i as int].id.id);
                        }
                    }
                    assert(is_entity_at(ents, entity_id.id, i as int));
                }
                return true;
            }
            i = i + 1;
        }
        false
    }

    /// A copy of the entity with `entity_id`'s numeric id, if it is alive.
    pub fn get_entity(&self, entity_id: EntityId) -> (r: Option<Entity>)
        ensures
            r.is_some() == self.alive(entity_id.id),
            r matches Some(e) ==> exists|i: int|
                is_entity_at(self.entities@, entity_id.id, i) && e@ == self.entities@[i]@,
    {
        match self.find(entity_id.id) {
            Some(i) => Some(self.entities[i].duplicate()),
            None => None,
        }
    }

    /// The index of the entity with numeric id `id`, if it is alive.
    pub fn find(&self, id: u64) -> (r: Option<usize>)
        ensures
            r.is_some() == self.alive(id),
            r matches Some(i) ==> is_entity_at(self.entities@, id, i as int),
    {
        let n = self.entities.len();
        let mut i: usize = 0;
        while i < n
            invariant
                n == self.entities@.len(),
                0 <= i <= n,
                forall|k: int| 0 <= k < i ==> !is_entity_at(self.entities@, id, k),
            decreases n - i,
        {
            if self.entities[i].id.id == id {
                assert(is_entity_at(self.entities@, id, i as int));
                return Some(i);
            }
            i = i + 1;
        }
        None
    }

    /// A copy of the entity with `entity_id`'s numeric id, as `get_entity`
    /// gives it.
    pub fn get_entity_mut(&mut self, entity_id: EntityId) -> (r: Option<Entity>)
        ensures
            *final(self) == *old(self),
            r.is_some() == old(self).alive(entity_id.id),
            r matches Some(e) ==> exists|i: int|
                is_entity_at(old(self).entities@, entity_id.id, i) && e@ == old(self).entities@[i]@,
    {
        self.get_entity(entity_id)
    }

    /// The number of live entities.
    pub fn entity_count(&self) -> (r: usize)
        ensures
            r == self.entities@.len(),
    {
        self.entities.len()
    }

    /// Whether an entity with `entity_id`'s numeric id is alive.
    pub fn is_alive(&self, entity_id: EntityId) -> (r: bool)
        ensures
            r == self.alive(entity_id.id),
    {
        self.find(entity_id.id).is_some()
    }

    /// The live entities, in spawn order.
    pub fn iter_entities(&self) -> (r: &Vec<Entity>)
        ensures
            r@ == self.entities@,
    {
        &self.entities
    }

    /// Copies of the live entities, in spawn order.
    pub fn iter_entities_mut(&mut self) -> (r: Vec<Entity>)
        ensures
            *final(self) == *old(self),
            r@.len() == old(self).entities@.len(),
            forall|k: int| 0 <= k < r@.len() ==> #[trigger] r@[k]@ == old(self).entities@[k]@,
    {
        let mut out: Vec<Entity> = Vec::new();
        let n = self.entities.len();
        let mut i: usize = 0;
        while i < n
            invariant
                n == self.entities@.len(),
                0 <= i <= n,
                out@.len() == i,
                forall|k: int| 0 <= k < i ==> #[trigger] out@[k]@ == self.entities@[k]@,
            decreases n - i,
        {
            out.push(self.entities[i].duplicate());
            i = i + 1;
        }
        out
    }
}

impl Default for EntityManager {
    fn default() -> (r: EntityManager)
        ensures
            r.wf(),
            r.next_id == 1,
            r.entities@ == Seq::<Entity>::empty(),
            r.free_list@ == Seq::<u64>::empty(),
    {
        EntityManager::new()
    }
}

/// `new` is `old` with the entity at index `i` given the tags `types`.
pub open spec fn retagged(old: Seq<Entity>, new: Seq<Entity>, i: int, types: Seq<Symbol>) -> bool {
    &&& new.len() == old.len()
    &&& forall|k: int| 0 <= k < old.len() && k != i ==> #[trigger] new[k] == old[k]
    &&& new[i]@ == (EntityView { id: old[i].id, types })
}

/// Changing one entity's tags keeps the manager well formed and every id
/// alive or dead as before.
pub proof fn lemma_retagged(m1: EntityManager, m2: EntityManager, i: int, types: Seq<Symbol>)
    requires
        m1.wf(),
        0 <= i < m1.entities@.len(),
        retagged(m1.entities@, m2.entities@, i, types),
        m2.next_id == m1.next_id,
        m2.free_list@ == m1.free_list@,
    ensures
        m2.wf(),
        forall|x: u64| #[trigger] m2.alive(x) == m1.alive(x),
        forall|k: int, x: u64| #[trigger] is_entity_at(m2.entities@, x, k) == is_entity_at(m1.entities@, x, k),
{
    let e1 = m1.entities@;
    let e2 = m2.entities@;
    assert forall|k: int| 0 <= k < e2.len() implies (#[trigger] e2[k]).id == e1[k].id by {
        if k != i {
            assert(e2[k] == e1[k]);
        }
    }
    assert forall|k: int, x: u64| #[trigger] is_entity_at(e2, x, k) == is_entity_at(e1, x, k) by {
        if 0 <= k < e2.len() {
            assert(e2[k].id == e1[k].id);
        }
    }
    assert forall|x: u64| #[trigger] m2.alive(x) == m1.alive(x) by {
        if m1.alive(x) {
            let k = choose|k: int| is_entity_at(e1, x, k);
            assert(is_entity_at(e2, x, k));
        }
        if m2.alive(x) {
            let k = choose|k: int| is_entity_at(e2, x, k);
            assert(is_entity_at(e1, x, k));
        }
    }
    assert forall|a: int, b: int|
        #![trigger e2[a].id.id, e2[b].id.id]
        0 <= a < e2.len() && 0 <= b < e2.len() && a != b implies e2[a].id.id != e2[b].id.id by {
        assert(e2[a].id == e1[a].id && e2[b].id == e1[b].id);
        assert(e1[a].id.id != e1[b].id.id);
    }
    assert forall|a: int| 0 <= a < e2.len() implies 1 <= #[trigger] e2[a].id.id < m2.next_id by {
        assert(e2[a].id == e1[a].id);
        assert(1 <= e1[a].id.id < m1.next_id);
    }
    assert forall|a: int, k: int|
        #![trigger e2[a].id.id, m2.free_list@[k]]
        0 <= a < e2.len() && 0 <= k < m2.free_list@.len() implies e2[a].id.id != m2.free_list@[k] by {
        assert(e2[a].id == e1[a].id);
        assert(e1[a].id.id != m1.free_list@[k]);
    }
}

/// With unique ids, the entity at an index that holds `x` is the only one.
pub proof fn lemma_entity_index_unique(m: EntityManager, x: u64, i: int, j: int)
    requires
        m.wf(),
        is_entity_at(m.entities@, x, i),
        is_entity_at(m.entities@, x, j),
    ensures
        i == j,
{
    if i != j {
        assert(m.entities@[i].id.id != m.entities@[j].id.id);
    }
}

/// Despawning a live entity and then spawning hands back the numeric id
/// just freed: ids are reused most recently freed first.
pub proof fn lemma_despawn_then_spawn_reuses(before: EntityManager, after: EntityManager, id: u64)
    requires
        before.wf(),
        before.alive(id),
        after.free_list@ == before.free_list@.push(id),
    ensures
        after.can_spawn(),
        after.next_spawn_id() == id,
{
    assert(after.free_list@.last() == id);
}

/// With no id freed, spawns hand out fresh ids counting up from
/// `next_id`.
pub proof fn lemma_fresh_ids_count_up(m: EntityManager)
    requires
        m.wf(),
        m.free_list@.len() == 0,
    ensures
        m.next_spawn_id() == m.next_id,
        !m.alive(m.next_id),
{
    if m.alive(m.next_id) {
        let k = choose|k: int| is_entity_at(m.entities@, m.next_id, k);
        assert(m.entities@[k].id.id < m.next_id);
    }
}

/// `s` without any occurrence of `t`, the rest in order.
pub open spec fn without_tag(s: Seq<Symbol>, t: Symbol) -> Seq<Symbol>
    decreases s.len(),
{
    if s.len() == 0 {
        s
    } else if s.last() == t {
        without_tag(s.drop_last(), t)
    } else {
        without_tag(s.drop_last(), t).push(s.last())
    }
}

proof fn lemma_without_prefix_step(s: Seq<Symbol>, t: Symbol, i: int)
    requires
        0 <= i < s.len(),
    ensures
        without_tag(s.subrange(0, i + 1), t) == if s[i] == t {
            without_tag(s.subrange(0, i), t)
        } else {
            without_tag(s.subrange(0, i), t).push(s[i])
        },
{
    assert(s.subrange(0, i + 1).drop_last() =~= s.subrange(0, i));
}

/// Whether `s` with `x` appended contains `t`.
pub proof fn lemma_contains_push(s: Seq<Symbol>, x: Symbol, t: Symbol)
    ensures
        s.push(x).contains(t) == (s.contains(t) || x == t),
{
    if s.push(x).contains(t) {
        let k = choose|k: int| 0 <= k < s.push(x).len() && s.push(x)[k] == t;
        if k < s.len() {
            assert(s[k] == t);
        }
    }
    if s.contains(t) {
        let k = choose|k: int| 0 <= k < s.len() && s[k] == t;
        assert(s.push(x)[k] == t);
    }
    if x == t {
        assert(s.push(x)[s.len() as int] == t);
    }
}

/// After removing a tag, exactly the other tags remain.
pub proof fn lemma_without_contains(s: Seq<Symbol>, t: Symbol, u: Symbol)
    ensures
        without_tag(s, t).contains(u) == (s.contains(u) && u != t),
    decreases s.len(),
{
    if s.len() > 0 {
        let d = s.drop_last();
        lemma_without_contains(d, t, u);
        assert(d.push(s.last()) =~= s);
        lemma_contains_push(d, s.last(), u);
        if s.last() != t {
            lemma_contains_push(without_tag(d, t), s.last(), u);
        }
    }
}

/// Removing a tag that is absent changes nothing.
pub proof fn lemma_without_absent(s: Seq<Symbol>, t: Symbol)
    requires
        !s.contains(t),
    ensures
        without_tag(s, t) == s,
    decreases s.len(),
{
    if s.len() > 0 {
        let d = s.drop_last();
        assert(d.push(s.last()) =~= s);
        lemma_contains_push(d, s.last(), t);
        lemma_without_absent(d, t);
    }
}

} // verus!
