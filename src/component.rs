//! Component types: identifiers, the byte-serialized component value, the
//! registry of component types, and the built-in component payloads.
use vstd::prelude::*;
use crate::codec::{i32_be, i32_from_be, lemma_i32_round_trip, push_i32_be, read_i32_be};
use crate::symbol::{Symbol, lemma_short_name, symbol_chars_ok};

verus! {

/// The small integer that the registry assigns to a component type.
#[derive(Clone, Copy, Debug, PartialEq, Eq, Structural, Hash, PartialOrd, Ord)]
pub struct ComponentId {
    pub id: u32,
}

impl ComponentId {
    /// The component id `id`.
    pub fn new(id: u32) -> (r: ComponentId)
        ensures
            r.id == id,
    {
        ComponentId { id }
    }

    /// The integer.
    pub fn id(&self) -> (r: u32)
        ensures
            r == self.id,
    {
        self.id
    }
}

/// The storage strategy a component asks for. The storage table treats
/// both alike.
#[derive(Clone, Copy, Debug, PartialEq, Eq, Structural)]
pub enum ComponentStorage {
    Table,
    Sparse,
}

impl Default for ComponentStorage {
    fn default() -> (r: ComponentStorage)
        ensures
            r == ComponentStorage::Table,
    {
        ComponentStorage::Table
    }
}

/// What a component is: its type tag, its payload bytes and its storage
/// hint.
pub struct ComponentView {
    pub component_type: Symbol,
    pub data: Seq<u8>,
    pub storage: ComponentStorage,
}

/// A component value: a type tag, the serialized payload, and a storage
/// hint.
#[derive(Clone, Debug)]
pub struct Component {
    pub component_type: Symbol,
    pub data: Vec<u8>,
    pub storage: ComponentStorage,
}

impl View for Component {
    type V = ComponentView;

    open spec fn view(&self) -> ComponentView {
        ComponentView {
            component_type: self.component_type,
            data: self.data@,
            storage: self.storage,
        }
    }
}

impl Component {
    /// A component of type `component_type` with payload `data`, stored in
    /// a table.
    pub fn new(component_type: Symbol, data: Vec<u8>) -> (r: Component)
        ensures
            r@ == (ComponentView {
                component_type,
                data: data@,
                storage: ComponentStorage::Table,
            }),
    {
        Component { component_type, data, storage: ComponentStorage::Table }
    }

    /// A component with an explicit storage hint.
    pub fn with_storage(component_type: Symbol, data: Vec<u8>, storage: ComponentStorage) -> (r:
        Component)
        ensures
            r@ == (ComponentView { component_type, data: data@, storage }),
    {
        Component { component_type, data, storage }
    }

    /// The type tag.
    pub fn component_type(&self) -> (r: &Symbol)
        ensures
            *r == self.component_type,
    {
        &self.component_type
    }

    /// The payload bytes.
    pub fn data(&self) -> (r: &Vec<u8>)
        ensures
            r@ == self.data@,
    {
        &self.data
    }

    /// The payload bytes, for change in place.
    pub fn data_mut(&mut self) -> (r: &mut Vec<u8>)
        ensures
            *r == old(self).data,
            final(self).component_type == old(self).component_type,
            final(self).storage == old(self).storage,
            final(self).data == *final(r),
    {
        &mut self.data
    }

    /// The storage hint.
    pub fn storage(&self) -> (r: ComponentStorage)
        ensures
            r == self.storage,
    {
        self.storage
    }

    /// A copy of this component.
    pub fn duplicate(&self) -> (r: Component)
        ensures
            r@ == self@,
    {
        let data = self.data.clone();
        assert(data@ =~= self.data@);
        Component { component_type: self.component_type, data, storage: self.storage }
    }

    /// Replaces the storage hint.
    pub fn set_storage(&mut self, storage: ComponentStorage)
        ensures
            final(self)@ == (ComponentView { storage, ..old(self)@ }),
    {
        self.storage = storage;
    }
}

/// Assigns ids to component types on first sight: the type registered
/// `k`-th (from zero) has id `k + 1`.
#[derive(Clone, Debug)]
pub struct ComponentRegistry {
    pub next_id: u32,
    pub components: Vec<(Symbol, ComponentId)>,
}

impl ComponentRegistry {
    /// The registered types, in registration order.
    pub open spec fn tags(&self) -> Seq<Symbol> {
        self.components@.map_values(|p: (Symbol, ComponentId)| p.0)
    }

    /// Ids run from 1 in registration order, `next_id` is the next one, and
    /// no type is registered twice.
    pub open spec fn wf(&self) -> bool {
        let c = self.components@;
        &&& self.next_id as int == c.len() + 1
        &&& forall|k: int| 0 <= k < c.len() ==> (#[trigger] c[k]).1.id == k + 1
        &&& forall|k: int, l: int|
            #![trigger c[k], c[l]]
            0 <= k < c.len() && 0 <= l < c.len() && k != l ==> c[k].0 != c[l].0
    }

    /// Whether registering `t` needs no id beyond the largest `u32`.
    pub open spec fn can_register(&self, t: Symbol) -> bool {
        self.tags().contains(t) || self.next_id < u32::MAX
    }

    /// An empty registry.
    pub fn new() -> (r: ComponentRegistry)
        ensures
            r.wf(),
            r.tags() == Seq::<Symbol>::empty(),
    {
        let r = ComponentRegistry { next_id: 1, components: Vec::new() };
        assert(r.tags() =~= Seq::<Symbol>::empty());
        r
    }

    /// The id of `component_type`, registering it first if it is new.
    pub fn register_component(&mut self, component_type: Symbol) -> (r: ComponentId)
        requires
            old(self).wf(),
            old(self).can_register(component_type),
        ensures
            final(self).wf(),
            final(self).tags() == registered(old(self).tags(), component_type),
            final(self).tags()[r.id - 1] == component_type,
            1 <= r.id <= final(self).tags().len(),
    {
        match self.get_component_id(&component_type) {
            Some(id) => id,
            None => {
                let id = ComponentId::new(self.next_id);
                self.next_id = self.next_id + 1;
                self.components.push((component_type, id));
                proof {
                    assert(self.tags() =~= old(self).tags().push(component_type));
                    let c = self.components@;
                    let c0 = old(self).components@;
                    assert forall|k: int, l: int|
                        #![trigger c[k], c[l]]
                        0 <= k < c.len() && 0 <= l < c.len() && k != l implies c[k].0 != c[l].0 by {
                        if k < c0.len() && l < c0.len() {
                            assert(c[k] == c0[k] && c[l] == c0[l]);
                        } else if k < c0.len() {
                            assert(c[k].0 == old(self).tags()[k]);
                        } else {
                            assert(c[l].0 == old(self).tags()[l]);
                        }
                    }
                    assert forall|k: int| 0 <= k < c.len() implies (#[trigger] c[k]).1.id == k + 1 by {
                        if k < c0.len() {
                            assert(c[k] == c0[k]);
                        }
                    }
                }
                id
            },
        }
    }

    /// The id of `component_type`, if it is registered.
    pub fn get_component_id(&self, component_type: &Symbol) -> (r: Option<ComponentId>)
        requires
            self.wf(),
        ensures
            r.is_some() == self.tags().contains(*component_type),
            r matches Some(id) ==> 1 <= id.id <= self.tags().len() && self.tags()[id.id - 1]
                == *component_type,
    {
        let n = self.components.len();
        let mut i: usize = 0;
        while i < n
            invariant
                self.wf(),
                n == self.components@.len(),
                0 <= i <= n,
                forall|k: int| 0 <= k < i ==> self.tags()[k] != *component_type,
            decreases n - i,
        {
            let entry = &self.components[i];
            if entry.0 == *component_type {
                assert(self.components@[i as int].1.id == i + 1);
                assert(self.tags()[i as int] == *component_type);
                return Some(entry.1);
            }
            i = i + 1;
        }
        proof {
            if self.tags().contains(*component_type) {
                let k = choose|k: int| 0 <= k < self.tags().len() && self.tags()[k] == *component_type;
                assert(self.tags()[k] != *component_type);
            }
        }
        None
    }

    /// The type registered under `component_id`, if any.
    pub fn get_component_type(&self, component_id: ComponentId) -> (r: Option<Symbol>)
        requires
            self.wf(),
        ensures
            r.is_some() == (1 <= component_id.id <= self.tags().len()),
            r matches Some(t) ==> t == self.tags()[component_id.id - 1],
    {
        let n = self.components.len();
        let mut i: usize = 0;
        while i < n
            invariant
                self.wf(),
                n == self.components@.len(),
                0 <= i <= n,
                forall|k: int| 0 <= k < i ==> self.components@[k].1.id != component_id.id,
            decreases n - i,
        {
            let entry = &self.components[i];
            if entry.1 == component_id {
                return Some(entry.0);
            }
            i = i + 1;
        }
        proof {
            if 1 <= component_id.id <= n {
                let k = component_id.id - 1;
                assert(self.components@[k].1.id == k + 1);
            }
        }
        None
    }

    /// The number of registered types.
    pub fn component_count(&self) -> (r: usize)
        ensures
            r == self.tags().len(),
    {
        self.components.len()
    }

    /// Whether `component_type` is registered.
    pub fn is_registered(&self, component_type: &Symbol) -> (r: bool)
        requires
            self.wf(),
        ensures
            r == self.tags().contains(*component_type),
    {
        self.get_component_id(component_type).is_some()
    }
}

impl Default for ComponentRegistry {
    fn default() -> (r: ComponentRegistry)
        ensures
            r.wf(),
            r.tags() == Seq::<Symbol>::empty(),
    {
        ComponentRegistry::new()
    }
}

/// The registered types after registering `t`: unchanged if it was
/// there, else with `t` appended.
pub open spec fn registered(tags: Seq<Symbol>, t: Symbol) -> Seq<Symbol> {
    if tags.contains(t) {
        tags
    } else {
        tags.push(t)
    }
}

/// A built-in component payload: a type tag and a fixed-size byte layout.
pub trait ComponentTrait: Sized {
    /// The bytes that `serialize` writes.
    spec fn spec_bytes(&self) -> Seq<u8>;

    /// What `deserialize` reads from `data`.
    spec fn spec_decode(data: Seq<u8>) -> Option<Self>;

    /// The type tag of components carrying this payload.
    fn component_type() -> (r: Symbol)
        ensures
            r.wf(),
    ;

    /// The payload's bytes.
    fn serialize(&self) -> (r: Vec<u8>)
        ensures
            r@ == self.spec_bytes(),
    ;

    /// The payload that `data` holds, if `data` has the exact size.
    fn deserialize(data: &Vec<u8>) -> (r: Option<Self>)
        ensures
            r == Self::spec_decode(data@),
    ;

    /// The storage these components ask for.
    spec fn spec_default_storage() -> ComponentStorage;

    /// The storage these components ask for.
    fn default_storage() -> (r: ComponentStorage)
        ensures
            r == Self::spec_default_storage(),
    ;
}

/// The bytes of a pair of `i32`, each four bytes big-endian.
pub open spec fn pair_bytes(x: i32, y: i32) -> Seq<u8> {
    i32_be(x) + i32_be(y)
}

/// The pair that eight bytes hold.
pub open spec fn pair_from_bytes(data: Seq<u8>) -> Option<(i32, i32)> {
    if data.len() == 8 {
        Some((i32_from_be(data.subrange(0, 4)), i32_from_be(data.subrange(4, 8))))
    } else {
        None
    }
}

fn write_pair(x: i32, y: i32) -> (r: Vec<u8>)
    ensures
        r@ == pair_bytes(x, y),
{
    let mut bytes: Vec<u8> = Vec::new();
    push_i32_be(&mut bytes, x);
    push_i32_be(&mut bytes, y);
    assert(bytes@ =~= pair_bytes(x, y));
    bytes
}

fn read_pair(data: &Vec<u8>) -> (r: Option<(i32, i32)>)
    ensures
        r == pair_from_bytes(data@),
{
    if data.len() != 8 {
        return None;
    }
    let x = read_i32_be(data, 0);
    let y = read_i32_be(data, 4);
    Some((x, y))
}

/// A pair of `i32` reads back from its bytes as itself.
pub proof fn lemma_pair_round_trip(x: i32, y: i32)
    ensures
        pair_from_bytes(pair_bytes(x, y)) == Some((x, y)),
{
    lemma_i32_round_trip(x);
    lemma_i32_round_trip(y);
    let b = pair_bytes(x, y);
    assert(b.subrange(0, 4) =~= i32_be(x));
    assert(b.subrange(4, 8) =~= i32_be(y));
}

/// A position on a signed grid.
#[derive(Clone, Copy, Debug, PartialEq, Eq, Structural)]
pub struct Position {
    pub x: i32,
    pub y: i32,
}

impl Position {
    /// The position (`x`, `y`).
    pub fn new(x: i32, y: i32) -> (r: Position)
        ensures
            r == (Position { x, y }),
    {
        Position { x, y }
    }
}

impl ComponentTrait for Position {
    /// `x` then `y`, four bytes each, big-endian: eight bytes.
    open spec fn spec_bytes(&self) -> Seq<u8> {
        pair_bytes(self.x, self.y)
    }

    /// Exactly eight bytes.
    open spec fn spec_decode(data: Seq<u8>) -> Option<Position> {
        match pair_from_bytes(data) {
            Some(p) => Some(Position { x: p.0, y: p.1 }),
            None => None,
        }
    }

    fn component_type() -> (r: Symbol) {
        proof {
            reveal_strlit("position");
            reveal_with_fuel(symbol_chars_ok, 10);
            lemma_short_name("position"@);
        }
        Symbol::short("position")
    }

    fn serialize(&self) -> (r: Vec<u8>) {
        write_pair(self.x, self.y)
    }

    fn deserialize(data: &Vec<u8>) -> (r: Option<Position>) {
        match read_pair(data) {
            Some(p) => Some(Position { x: p.0, y: p.1 }),
            None => None,
        }
    }

    /// A table.
    open spec fn spec_default_storage() -> ComponentStorage {
        ComponentStorage::Table
    }

    fn default_storage() -> (r: ComponentStorage) {
        ComponentStorage::Table
    }
}

/// A velocity on a signed grid.
#[derive(Clone, Copy, Debug, PartialEq, Eq, Structural)]
pub struct Velocity {
    pub x: i32,
    pub y: i32,
}

impl Velocity {
    /// The velocity (`x`, `y`).
    pub fn new(x: i32, y: i32) -> (r: Velocity)
        ensures
            r == (Velocity { x, y }),
    {
        Velocity { x, y }
    }
}

impl ComponentTrait for Velocity {
    /// `x` then `y`, four bytes each, big-endian: eight bytes.
    open spec fn spec_bytes(&self) -> Seq<u8> {
        pair_bytes(self.x, self.y)
    }

    /// Exactly eight bytes.
    open spec fn spec_decode(data: Seq<u8>) -> Option<Velocity> {
        match pair_from_bytes(data) {
            Some(p) => Some(Velocity { x: p.0, y: p.1 }),
            None => None,
        }
    }

    fn component_type() -> (r: Symbol) {
        proof {
            reveal_strlit("velocity");
            reveal_with_fuel(symbol_chars_ok, 10);
            lemma_short_name("velocity"@);
        }
        Symbol::short("velocity")
    }

    fn serialize(&self) -> (r: Vec<u8>) {
        write_pair(self.x, self.y)
    }

    fn deserialize(data: &Vec<u8>) -> (r: Option<Velocity>) {
        match read_pair(data) {
            Some(p) => Some(Velocity { x: p.0, y: p.1 }),
            None => None,
        }
    }

    /// A table.
    open spec fn spec_default_storage() -> ComponentStorage {
        ComponentStorage::Table
    }

    fn default_storage() -> (r: ComponentStorage) {
        ComponentStorage::Table
    }
}

/// Positions and velocities read back from their bytes as themselves, and
/// bytes of any length other than eight are neither.
pub proof fn lemma_position_velocity_round_trip(p: Position, v: Velocity, data: Seq<u8>)
    ensures
        Position::spec_decode(p.spec_bytes()) == Some(p),
        Velocity::spec_decode(v.spec_bytes()) == Some(v),
        data.len() != 8 ==> Position::spec_decode(data).is_none() && Velocity::spec_decode(
            data,
        ).is_none(),
{
    lemma_pair_round_trip(p.x, p.y);
    lemma_pair_round_trip(v.x, v.y);
}

} // verus!
