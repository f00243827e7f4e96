//! Component payloads of a creature-collecting game: creatures, the player
//! marker and the facing direction.
use vstd::prelude::*;
use crate::codec::{lemma_u32_round_trip, push_u32_be, read_u32_be, u32_be, u32_from_be};
use crate::component::{ComponentStorage, ComponentTrait};
use crate::symbol::{Symbol, lemma_short_name, symbol_chars_ok};

verus! {

/// A creature's species and stats.
#[derive(Clone, Copy, Debug, PartialEq, Eq, Structural)]
pub struct Creature {
    pub species_id: u32,
    pub level: u32,
    pub hp: u32,
    pub max_hp: u32,
    pub atk: u32,
    pub def: u32,
}

impl Creature {
    /// A creature at full health.
    pub fn new(species_id: u32, level: u32, max_hp: u32, atk: u32, def: u32) -> (r: Creature)
        ensures
            r == (Creature { species_id, level, hp: max_hp, max_hp, atk, def }),
    {
        Creature { species_id, level, hp: max_hp, max_hp, atk, def }
    }
}

/// The creature read from twenty-four bytes.
pub open spec fn creature_from_bytes(data: Seq<u8>) -> Creature {
    Creature {
        species_id: u32_from_be(data.subrange(0, 4)),
        level: u32_from_be(data.subrange(4, 8)),
        hp: u32_from_be(data.subrange(8, 12)),
        max_hp: u32_from_be(data.subrange(12, 16)),
        atk: u32_from_be(data.subrange(16, 20)),
        def: u32_from_be(data.subrange(20, 24)),
    }
}

impl ComponentTrait for Creature {
    /// Species, level, hp, max hp, attack and defence, four bytes each,
    /// big-endian: twenty-four bytes.
    open spec fn spec_bytes(&self) -> Seq<u8> {
        u32_be(self.species_id) + u32_be(self.level) + u32_be(self.hp) + u32_be(self.max_hp)
            + u32_be(self.atk) + u32_be(self.def)
    }

    /// Exactly twenty-four bytes.
    open spec fn spec_decode(data: Seq<u8>) -> Option<Creature> {
        if data.len() == 24 {
            Some(creature_from_bytes(data))
        } else {
            None
        }
    }

    fn component_type() -> (r: Symbol) {
        proof {
            reveal_strlit("creature");
            reveal_with_fuel(symbol_chars_ok, 10);
            lemma_short_name("creature"@);
        }
        Symbol::short("creature")
    }

    fn serialize(&self) -> (r: Vec<u8>) {
        let mut bytes: Vec<u8> = Vec::new();
        push_u32_be(&mut bytes, self.species_id);
        push_u32_be(&mut bytes, self.level);
        push_u32_be(&mut bytes, self.hp);
        push_u32_be(&mut bytes, self.max_hp);
        push_u32_be(&mut bytes, self.atk);
        push_u32_be(&mut bytes, self.def);
        assert(bytes@ =~= self.spec_bytes());
        bytes
    }

    fn deserialize(data: &Vec<u8>) -> (r: Option<Creature>) {
        if data.len() != 24 {
            return None;
        }
        Some(
            Creature {
                species_id: read_u32_be(data, 0),
                level: read_u32_be(data, 4),
                hp: read_u32_be(data, 8),
                max_hp: read_u32_be(data, 12),
                atk: read_u32_be(data, 16),
                def: read_u32_be(data, 20),
            },
        )
    }

    /// A table.
    open spec fn spec_default_storage() -> ComponentStorage {
        ComponentStorage::Table
    }

    fn default_storage() -> (r: ComponentStorage) {
        ComponentStorage::Table
    }
}

/// Marks the player's entity.
#[derive(Clone, Copy, Debug, PartialEq, Eq, Structural)]
pub struct PlayerMarker;

impl ComponentTrait for PlayerMarker {
    /// The single byte 1.
    open spec fn spec_bytes(&self) -> Seq<u8> {
        seq![1u8]
    }

    /// Exactly one byte, whatever its value.
    open spec fn spec_decode(data: Seq<u8>) -> Option<PlayerMarker> {
        if data.len() == 1 {
            Some(PlayerMarker)
        } else {
            None
        }
    }

    fn component_type() -> (r: Symbol) {
        proof {
            reveal_strlit("player");
            reveal_with_fuel(symbol_chars_ok, 10);
            lemma_short_name("player"@);
        }
        Symbol::short("player")
    }

    fn serialize(&self) -> (r: Vec<u8>) {
        let mut bytes: Vec<u8> = Vec::new();
        bytes.push(1u8);
        assert(bytes@ =~= seq![1u8]);
        bytes
    }

    fn deserialize(data: &Vec<u8>) -> (r: Option<PlayerMarker>) {
        if data.len() != 1 {
            return None;
        }
        Some(PlayerMarker)
    }

    /// Sparse: one entity carries it.
    open spec fn spec_default_storage() -> ComponentStorage {
        ComponentStorage::Sparse
    }

    fn default_storage() -> (r: ComponentStorage) {
        ComponentStorage::Sparse
    }
}

/// A direction on the grid.
#[derive(Clone, Copy, Debug, PartialEq, Eq, Structural)]
pub enum Direction {
    Up,
    Down,
    Left,
    Right,
}

/// The byte of a direction: up 0, down 1, left 2, right 3.
pub open spec fn direction_code(d: Direction) -> u8 {
    match d {
        Direction::Up => 0,
        Direction::Down => 1,
        Direction::Left => 2,
        Direction::Right => 3,
    }
}

/// The direction of a byte, if it is one.
pub open spec fn direction_of_code(b: u8) -> Option<Direction> {
    if b == 0 {
        Some(Direction::Up)
    } else if b == 1 {
        Some(Direction::Down)
    } else if b == 2 {
        Some(Direction::Left)
    } else if b == 3 {
        Some(Direction::Right)
    } else {
        None
    }
}

impl Direction {
    /// The direction's byte.
    pub fn to_u8(self) -> (r: u8)
        ensures
            r == direction_code(self),
    {
        match self {
            Direction::Up => 0,
            Direction::Down => 1,
            Direction::Left => 2,
            Direction::Right => 3,
        }
    }

    /// The direction whose byte is `value`, if any.
    pub fn from_u8(value: u8) -> (r: Option<Direction>)
        ensures
            r == direction_of_code(value),
    {
        match value {
            0 => Some(Direction::Up),
            1 => Some(Direction::Down),
            2 => Some(Direction::Left),
            3 => Some(Direction::Right),
            _ => None,
        }
    }
}

/// The direction an entity faces.
#[derive(Clone, Copy, Debug, PartialEq, Eq, Structural)]
pub struct DirectionComponent {
    pub direction: Direction,
}

impl DirectionComponent {
    /// Facing `direction`.
    pub fn new(direction: Direction) -> (r: DirectionComponent)
        ensures
            r == (DirectionComponent { direction }),
    {
        DirectionComponent { direction }
    }
}

impl ComponentTrait for DirectionComponent {
    /// The direction's byte.
    open spec fn spec_bytes(&self) -> Seq<u8> {
        seq![direction_code(self.direction)]
    }

    /// Exactly one byte that is a direction's.
    open spec fn spec_decode(data: Seq<u8>) -> Option<DirectionComponent> {
        if data.len() == 1 {
            match direction_of_code(data[0]) {
                Some(d) => Some(DirectionComponent { direction: d }),
                None => None,
            }
        } else {
            None
        }
    }

    fn component_type() -> (r: Symbol) {
        proof {
            reveal_strlit("facing");
            reveal_with_fuel(symbol_chars_ok, 10);
            lemma_short_name("facing"@);
        }
        Symbol::short("facing")
    }

    fn serialize(&self) -> (r: Vec<u8>) {
        let mut bytes: Vec<u8> = Vec::new();
        bytes.push(self.direction.to_u8());
        assert(bytes@ =~= self.spec_bytes());
        bytes
    }

    fn deserialize(data: &Vec<u8>) -> (r: Option<DirectionComponent>) {
        if data.len() != 1 {
            return None;
        }
        match Direction::from_u8(data[0]) {
            Some(direction) => Some(DirectionComponent { direction }),
            None => None,
        }
    }

    /// A table.
    open spec fn spec_default_storage() -> ComponentStorage {
        ComponentStorage::Table
    }

    fn default_storage() -> (r: ComponentStorage) {
        ComponentStorage::Table
    }
}

/// Creatures, player markers and directions read back from their bytes as
/// themselves; bytes of the wrong length are none of them.
pub proof fn lemma_game_components_round_trip(
    c: Creature,
    m: PlayerMarker,
    d: DirectionComponent,
    data: Seq<u8>,
)
    ensures
        Creature::spec_decode(c.spec_bytes()) == Some(c),
        PlayerMarker::spec_decode(m.spec_bytes()) == Some(m),
        DirectionComponent::spec_decode(d.spec_bytes()) == Some(d),
        data.len() != 24 ==> Creature::spec_decode(data).is_none(),
        data.len() != 1 ==> PlayerMarker::spec_decode(data).is_none()
            && DirectionComponent::spec_decode(data).is_none(),
{
    let b = c.spec_bytes();
    lemma_u32_round_trip(c.species_id);
    lemma_u32_round_trip(c.level);
    lemma_u32_round_trip(c.hp);
    lemma_u32_round_trip(c.max_hp);
    lemma_u32_round_trip(c.atk);
    lemma_u32_round_trip(c.def);
    assert(b.subrange(0, 4) =~= u32_be(c.species_id));
    assert(b.subrange(4, 8) =~= u32_be(c.level));
    assert(b.subrange(8, 12) =~= u32_be(c.hp));
    assert(b.subrange(12, 16) =~= u32_be(c.max_hp));
    assert(b.subrange(16, 20) =~= u32_be(c.atk));
    assert(b.subrange(20, 24) =~= u32_be(c.def));
}

} // verus!
