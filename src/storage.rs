//! The component table: three parallel columns (entity id, type tag,
//! payload) forming rows, at most one per (entity, type) key, found by
//! linear scan.
use vstd::prelude::*;
use crate::component::{Component, ComponentStorage, ComponentView};
use crate::entity::EntityId;
use crate::symbol::Symbol;

verus! {

/// One row of the table.
pub struct RowView {
    pub entity: u64,
    pub tag: Symbol,
    pub data: Seq<u8>,
}

/// Whether row `i` of `rows` holds the key (`entity`, `tag`).
pub open spec fn is_key_at(rows: Seq<RowView>, entity: u64, tag: Symbol, i: int) -> bool {
    0 <= i < rows.len() && rows[i].entity == entity && rows[i].tag == tag
}

/// Whether some row holds the key (`entity`, `tag`).
pub open spec fn has_key(rows: Seq<RowView>, entity: u64, tag: Symbol) -> bool {
    exists|i: int| is_key_at(rows, entity, tag, i)
}

/// Whether no two rows hold the same key.
pub open spec fn keys_unique(rows: Seq<RowView>) -> bool {
    forall|i: int, j: int|
        #![trigger rows[i], rows[j]]
        0 <= i < rows.len() && 0 <= j < rows.len() && i != j ==> !(rows[i].entity == rows[j].entity
            && rows[i].tag == rows[j].tag)
}

/// The payload stored under the key (`entity`, `tag`), if any.
pub open spec fn row_data(rows: Seq<RowView>, entity: u64, tag: Symbol) -> Option<Seq<u8>> {
    if has_key(rows, entity, tag) {
        Some(rows[choose|i: int| is_key_at(rows, entity, tag, i)].data)
    } else {
        None
    }
}

/// The index of the row that holds the key (`entity`, `tag`).
pub open spec fn key_index(rows: Seq<RowView>, entity: u64, tag: Symbol) -> int {
    choose|i: int| is_key_at(rows, entity, tag, i)
}

/// `rows` without the row that holds the key (`entity`, `tag`).
pub open spec fn without_key(rows: Seq<RowView>, entity: u64, tag: Symbol) -> Seq<RowView> {
    if has_key(rows, entity, tag) {
        rows.remove(key_index(rows, entity, tag))
    } else {
        rows
    }
}

/// `rows` with `row` stored last, in place of any row with its key.
pub open spec fn upserted(rows: Seq<RowView>, row: RowView) -> Seq<RowView> {
    without_key(rows, row.entity, row.tag).push(row)
}

/// The rows of `entity`, in table order.
pub open spec fn entity_rows(rows: Seq<RowView>, entity: u64) -> Seq<RowView>
    decreases rows.len(),
{
    if rows.len() == 0 {
        rows
    } else if rows.last().entity == entity {
        entity_rows(rows.drop_last(), entity).push(rows.last())
    } else {
        entity_rows(rows.drop_last(), entity)
    }
}

/// The component that a row reads back as: table storage.
pub open spec fn row_component(row: RowView) -> ComponentView {
    ComponentView { component_type: row.tag, data: row.data, storage: ComponentStorage::Table }
}

/// The table, under the name for components that ask for dense storage.
pub type TableStorage = Storage;

/// The table, under the name for components that ask for sparse storage.
pub type SparseStorage = Storage;

/// The component table, one row per index across three columns.
#[derive(Clone, Debug)]
pub struct Storage {
    pub entity_ids: Vec<u64>,
    pub component_types: Vec<Symbol>,
    pub component_data: Vec<Vec<u8>>,
}

impl Storage {
    /// The rows, index by index across the columns.
    pub open spec fn rows(&self) -> Seq<RowView> {
        Seq::new(
            self.entity_ids@.len(),
            |i: int|
                RowView {
                    entity: self.entity_ids@[i],
                    tag: self.component_types@[i],
                    data: self.component_data@[i]@,
                },
        )
    }

    /// The columns have one length and no key occurs twice.
    pub open spec fn wf(&self) -> bool {
        &&& self.component_types@.len() == self.entity_ids@.len()
        &&& self.component_data@.len() == self.entity_ids@.len()
        &&& keys_unique(self.rows())
    }

    /// An empty table.
    pub fn new() -> (r: Storage)
        ensures
            r.wf(),
            r.rows() == Seq::<RowView>::empty(),
    {
        let r = Storage {
            entity_ids: Vec::new(),
            component_types: Vec::new(),
            component_data: Vec::new(),
        };
        assert(r.rows() =~= Seq::<RowView>::empty());
        r
    }

    /// The index of the row with key (`entity`, `tag`), if there is one.
    fn find(&self, entity: u64, tag: Symbol) -> (r: Option<usize>)
        requires
            self.wf(),
        ensures
            r.is_some() == has_key(self.rows(), entity, tag),
            r matches Some(i) ==> is_key_at(self.rows(), entity, tag, i as int),
    {
        let n = self.entity_ids.len();
        let mut i: usize = 0;
        while i < n
            invariant
                self.wf(),
                n == self.rows().len(),
                0 <= i <= n,
                forall|k: int| 0 <= k < i ==> !is_key_at(self.rows(), entity, tag, k),
            decreases n - i,
        {
            if self.entity_ids[i] == entity && self.component_types[i] == tag {
                assert(is_key_at(self.rows(), entity, tag, i as int));
                return Some(i);
            }
            i = i + 1;
        }
        None
    }

    /// Stores `component` for `entity_id`, replacing the row of the same
    /// key if there is one; the new row goes last.
    pub fn add_component(&mut self, entity_id: EntityId, component: Component)
        requires
            old(self).wf(),
        ensures
            final(self).wf(),
            final(self).rows() == upserted(
                old(self).rows(),
                RowView { entity: entity_id.id, tag: component.component_type, data: component.data@ },
            ),
    {
        let tag = component.component_type;
        proof {
            lemma_upsert_single_row(
                self.rows(),
                RowView { entity: entity_id.id, tag, data: component.data@ },
            );
        }
        self.remove_component(entity_id, tag);
        let ghost mid = self.rows();
        self.entity_ids.push(entity_id.id);
        self.component_types.push(tag);
        self.component_data.push(component.data);
        proof {
            let key_row = RowView { entity: entity_id.id, tag, data: component.data@ };
            assert(self.rows() =~= mid.push(key_row));
            assert(!has_key(mid, entity_id.id, tag));
            let rows = self.rows();
            assert forall|i: int, j: int|
                #![trigger rows[i], rows[j]]
                0 <= i < rows.len() && 0 <= j < rows.len() && i != j implies !(rows[i].entity
                    == rows[j].entity && rows[i].tag == rows[j].tag) by {
                if i < mid.len() && j < mid.len() {
                    assert(rows[i] == mid[i] && rows[j] == mid[j]);
                } else if i < mid.len() {
                    assert(rows[i] == mid[i]);
                    assert(!is_key_at(mid, entity_id.id, tag, i));
                } else {
                    assert(rows[j] == mid[j]);
                    assert(!is_key_at(mid, entity_id.id, tag, j));
                }
            }
        }
    }

    /// Removes the row with key (`entity_id`'s numeric id,
    /// `component_type`); returns whether there was one.
    pub fn remove_component(&mut self, entity_id: EntityId, component_type: Symbol) -> (r: bool)
        requires
            old(self).wf(),
        ensures
            final(self).wf(),
            r == has_key(old(self).rows(), entity_id.id, component_type),
            final(self).rows() == without_key(old(self).rows(), entity_id.id, component_type),
            !r ==> final(self).rows() == old(self).rows(),
            !has_key(final(self).rows(), entity_id.id, component_type),
    {
        match self.find(entity_id.id, component_type) {
            Some(i) => {
                let ghost rows = self.rows();
                proof {
                    lemma_unique_key_index(rows, entity_id.id, component_type, i as int);
                }
                self.entity_ids.remove(i);
                self.component_types.remove(i);
                self.component_data.remove(i);
                proof {
                    assert(self.rows() =~= rows.remove(i as int));
                    let r2 = self.rows();
                    assert forall|a: int| 0 <= a < r2.len() implies #[trigger] r2[a] == rows[if a
                        < i { a } else { a + 1 }] by {}
                    assert forall|a: int, b: int|
                        #![trigger r2[a], r2[b]]
                        0 <= a < r2.len() && 0 <= b < r2.len() && a != b implies !(r2[a].entity
                            == r2[b].entity && r2[a].tag == r2[b].tag) by {
                        let a1 = if a < i { a } else { a + 1 };
                        let b1 = if b < i { b } else { b + 1 };
                        assert(r2[a] == rows[a1] && r2[b] == rows[b1]);
                        assert(rows[a1] == rows[a1] && rows[b1] == rows[b1]);
                    }
                    assert forall|k: int| !is_key_at(r2, entity_id.id, component_type, k) by {
                        if 0 <= k < r2.len() {
                            let k1 = if k < i { k } else { k + 1 };
                            assert(r2[k] == rows[k1]);
                            assert(rows[k1] == rows[k1] && rows[i as int] == rows[i as int]);
                        }
                    }
                }
                true
            },
            None => false,
        }
    }

    /// The component stored under (`entity_id`'s numeric id,
    /// `component_type`), read back with table storage.
    pub fn get_component(&self, entity_id: EntityId, component_type: Symbol) -> (r: Option<
        Component,
    >)
        requires
            self.wf(),
        ensures
            r.is_some() == has_key(self.rows(), entity_id.id, component_type),
            r matches Some(c) ==> row_data(self.rows(), entity_id.id, component_type) == Some(
                c.data@,
            ) && c.component_type == component_type && c.storage == ComponentStorage::Table,
    {
        match self.find(entity_id.id, component_type) {
            Some(i) => {
                proof {
                    lemma_unique_key_index(self.rows(), entity_id.id, component_type, i as int);
                }
                let data = self.component_data[i].clone();
                assert(data@ =~= self.component_data@[i as int]@);
                Some(Component::new(component_type, data))
            },
            None => None,
        }
    }

    /// Whether a row has key (`entity_id`'s numeric id, `component_type`).
    pub fn has_component(&self, entity_id: EntityId, component_type: Symbol) -> (r: bool)
        requires
            self.wf(),
        ensures
            r == has_key(self.rows(), entity_id.id, component_type),
    {
        self.find(entity_id.id, component_type).is_some()
    }

    /// The components of `entity_id`'s numeric id, in table order.
    pub fn get_entity_components(&self, entity_id: EntityId) -> (r: Vec<Component>)
        requires
            self.wf(),
        ensures
            r@.len() == entity_rows(self.rows(), entity_id.id).len(),
            forall|k: int|
                0 <= k < r@.len() ==> #[trigger] r@[k]@ == row_component(
                    entity_rows(self.rows(), entity_id.id)[k],
                ),
    {
        let ghost rows = self.rows();
        let e = entity_id.id;
        let mut out: Vec<Component> = Vec::new();
        let n = self.entity_ids.len();
        let mut i: usize = 0;
        while i < n
            invariant
                self.wf(),
                rows == self.rows(),
                n == rows.len(),
                0 <= i <= n,
                out@.len() == entity_rows(rows.subrange(0, i as int), e).len(),
                forall|k: int|
                    0 <= k < out@.len() ==> #[trigger] out@[k]@ == row_component(
                        entity_rows(rows.subrange(0, i as int), e)[k],
                    ),
            decreases n - i,
        {
            proof {
                assert(rows.subrange(0, i + 1).drop_last() =~= rows.subrange(0, i as int));
            }
            if self.entity_ids[i] == e {
                let data = self.component_data[i].clone();
                assert(data@ =~= self.component_data@[i as int]@);
                out.push(Component::new(self.component_types[i], data));
            }
            i = i + 1;
        }
        assert(rows.subrange(0, n as int) =~= rows);
        out
    }

    /// Empties the table.
    pub fn clear(&mut self)
        ensures
            final(self).wf(),
            final(self).rows() == Seq::<RowView>::empty(),
    {
        self.entity_ids = Vec::new();
        self.component_types = Vec::new();
        self.component_data = Vec::new();
        assert(self.rows() =~= Seq::<RowView>::empty());
    }

    /// The number of rows.
    pub fn len(&self) -> (r: usize)
        ensures
            r == self.rows().len(),
    {
        self.entity_ids.len()
    }

    /// Whether the table has no rows.
    pub fn is_empty(&self) -> (r: bool)
        ensures
            r == (self.rows().len() == 0),
    {
        self.entity_ids.len() == 0
    }
}

impl Default for Storage {
    fn default() -> (r: Storage)
        ensures
            r.wf(),
            r.rows() == Seq::<RowView>::empty(),
    {
        Storage::new()
    }
}

/// With unique keys, the row that holds a key is the one the payload
/// lookup names.
pub proof fn lemma_unique_key_index(rows: Seq<RowView>, entity: u64, tag: Symbol, i: int)
    requires
        keys_unique(rows),
        is_key_at(rows, entity, tag, i),
    ensures
        row_data(rows, entity, tag) == Some(rows[i].data),
        forall|j: int| is_key_at(rows, entity, tag, j) ==> j == i,
{
    assert forall|j: int| is_key_at(rows, entity, tag, j) implies j == i by {
        if j != i {
            assert(rows[i] == rows[i] && rows[j] == rows[j]);
        }
    }
    assert(is_key_at(rows, entity, tag, key_index(rows, entity, tag)));
}

/// Storing under a key leaves exactly one row with that key, holding the
/// payload just stored, and keeps every key unique; so after any run of
/// stores under one key, the last payload is the one found.
pub proof fn lemma_upsert_single_row(rows: Seq<RowView>, row: RowView)
    requires
        keys_unique(rows),
    ensures
        keys_unique(upserted(rows, row)),
        has_key(upserted(rows, row), row.entity, row.tag),
        forall|j: int| #[trigger]
            is_key_at(upserted(rows, row), row.entity, row.tag, j) ==> j == rows.len()
                - if has_key(rows, row.entity, row.tag) { 1int } else { 0int },
        row_data(upserted(rows, row), row.entity, row.tag) == Some(row.data),
{
    let mid = without_key(rows, row.entity, row.tag);
    let r2 = upserted(rows, row);
    if has_key(rows, row.entity, row.tag) {
        let i = key_index(rows, row.entity, row.tag);
        assert(is_key_at(rows, row.entity, row.tag, i));
        assert forall|a: int| 0 <= a < mid.len() implies #[trigger] mid[a] == rows[if a < i {
            a
        } else {
            a + 1
        }] by {}
        assert forall|a: int, b: int|
            #![trigger mid[a], mid[b]]
            0 <= a < mid.len() && 0 <= b < mid.len() && a != b implies !(mid[a].entity
                == mid[b].entity && mid[a].tag == mid[b].tag) by {
            let a1 = if a < i { a } else { a + 1 };
            let b1 = if b < i { b } else { b + 1 };
            assert(rows[a1] == rows[a1] && rows[b1] == rows[b1]);
        }
        assert forall|k: int| !is_key_at(mid, row.entity, row.tag, k) by {
            if 0 <= k < mid.len() {
                let k1 = if k < i { k } else { k + 1 };
                assert(rows[k1] == rows[k1] && rows[i] == rows[i]);
            }
        }
    }
    assert(keys_unique(mid));
    assert(!has_key(mid, row.entity, row.tag));
    assert forall|a: int, b: int|
        #![trigger r2[a], r2[b]]
        0 <= a < r2.len() && 0 <= b < r2.len() && a != b implies !(r2[a].entity == r2[b].entity
            && r2[a].tag == r2[b].tag) by {
        if a < mid.len() && b < mid.len() {
            assert(r2[a] == mid[a] && r2[b] == mid[b]);
        } else if a < mid.len() {
            assert(r2[a] == mid[a]);
            assert(!is_key_at(mid, row.entity, row.tag, a));
        } else {
            assert(r2[b] == mid[b]);
            assert(!is_key_at(mid, row.entity, row.tag, b));
        }
    }
    assert(is_key_at(r2, row.entity, row.tag, mid.len() as int));
    lemma_unique_key_index(r2, row.entity, row.tag, mid.len() as int);
}

/// Removing a key keeps the other keys unique, present exactly as before,
/// and holding the same payloads.
pub proof fn lemma_without_key_facts(rows: Seq<RowView>, entity: u64, tag: Symbol)
    requires
        keys_unique(rows),
    ensures
        keys_unique(without_key(rows, entity, tag)),
        !has_key(without_key(rows, entity, tag), entity, tag),
        forall|x: u64, u: Symbol|
            !(x == entity && u == tag) ==> (#[trigger] has_key(without_key(rows, entity, tag), x, u)
                == has_key(rows, x, u)),
        forall|x: u64, u: Symbol|
            !(x == entity && u == tag) ==> (#[trigger] row_data(without_key(rows, entity, tag), x, u)
                == row_data(rows, x, u)),
{
    let mid = without_key(rows, entity, tag);
    lemma_upsert_single_row(rows, RowView { entity, tag, data: Seq::empty() });
    if has_key(rows, entity, tag) {
        let i = key_index(rows, entity, tag);
        assert(is_key_at(rows, entity, tag, i));
        assert forall|a: int| 0 <= a < mid.len() implies #[trigger] mid[a] == rows[if a < i {
            a
        } else {
            a + 1
        }] by {}
        assert forall|a: int, b: int|
            #![trigger mid[a], mid[b]]
            0 <= a < mid.len() && 0 <= b < mid.len() && a != b implies !(mid[a].entity
                == mid[b].entity && mid[a].tag == mid[b].tag) by {
            let a1 = if a < i { a } else { a + 1 };
            let b1 = if b < i { b } else { b + 1 };
            assert(rows[a1] == rows[a1] && rows[b1] == rows[b1]);
        }
        assert forall|k: int| !is_key_at(mid, entity, tag, k) by {
            if 0 <= k < mid.len() {
                let k1 = if k < i { k } else { k + 1 };
                assert(rows[k1] == rows[k1] && rows[i] == rows[i]);
            }
        }
        assert forall|x: u64, u: Symbol| !(x == entity && u == tag) implies (#[trigger] has_key(
            mid,
            x,
            u,
        ) == has_key(rows, x, u)) && row_data(mid, x, u) == row_data(rows, x, u) by {
            if has_key(rows, x, u) {
                let k = key_index(rows, x, u);
                assert(is_key_at(rows, x, u, k));
                assert(k != i);
                let k2 = if k < i { k } else { k - 1 };
                assert(mid[k2] == rows[k]);
                assert(is_key_at(mid, x, u, k2));
                lemma_unique_key_index(rows, x, u, k);
                lemma_unique_key_index(mid, x, u, k2);
            }
            if has_key(mid, x, u) {
                let k2 = key_index(mid, x, u);
                assert(is_key_at(mid, x, u, k2));
                let k = if k2 < i { k2 } else { k2 + 1 };
                assert(is_key_at(rows, x, u, k));
            }
        }
    }
}

/// Storing a row keeps every other key present exactly as before, holding
/// the same payload.
pub proof fn lemma_upserted_facts(rows: Seq<RowView>, row: RowView)
    requires
        keys_unique(rows),
    ensures
        keys_unique(upserted(rows, row)),
        row_data(upserted(rows, row), row.entity, row.tag) == Some(row.data),
        has_key(upserted(rows, row), row.entity, row.tag),
        forall|x: u64, u: Symbol|
            !(x == row.entity && u == row.tag) ==> (#[trigger] has_key(upserted(rows, row), x, u)
                == has_key(rows, x, u)),
        forall|x: u64, u: Symbol|
            !(x == row.entity && u == row.tag) ==> (#[trigger] row_data(upserted(rows, row), x, u)
                == row_data(rows, x, u)),
{
    lemma_upsert_single_row(rows, row);
    lemma_without_key_facts(rows, row.entity, row.tag);
    let mid = without_key(rows, row.entity, row.tag);
    let up = upserted(rows, row);
    assert forall|x: u64, u: Symbol| !(x == row.entity && u == row.tag) implies (#[trigger] has_key(
        up,
        x,
        u,
    ) == has_key(mid, x, u)) && row_data(up, x, u) == row_data(mid, x, u) by {
        if has_key(mid, x, u) {
            let k = key_index(mid, x, u);
            assert(is_key_at(mid, x, u, k));
            assert(up[k] == mid[k]);
            assert(is_key_at(up, x, u, k));
            lemma_unique_key_index(mid, x, u, k);
            lemma_unique_key_index(up, x, u, k);
        }
        if has_key(up, x, u) {
            let k = key_index(up, x, u);
            assert(is_key_at(up, x, u, k));
            assert(k < mid.len());
            assert(is_key_at(mid, x, u, k));
        }
    }
}

/// With no row for `entity`, the entity has no components.
pub proof fn lemma_no_key_no_rows(rows: Seq<RowView>, entity: u64)
    requires
        forall|u: Symbol| !#[trigger] has_key(rows, entity, u),
    ensures
        entity_rows(rows, entity) == Seq::<RowView>::empty(),
    decreases rows.len(),
{
    if rows.len() > 0 {
        let d = rows.drop_last();
        assert forall|u: Symbol| !#[trigger] has_key(d, entity, u) by {
            if has_key(d, entity, u) {
                let k = choose|k: int| is_key_at(d, entity, u, k);
                assert(is_key_at(rows, entity, u, k));
                assert(has_key(rows, entity, u));
            }
        }
        lemma_no_key_no_rows(d, entity);
        if rows.last().entity == entity {
            assert(is_key_at(rows, entity, rows.last().tag, rows.len() - 1));
            assert(has_key(rows, entity, rows.last().tag));
        }
    } else {
        assert(rows =~= Seq::<RowView>::empty());
    }
}

} // verus!
