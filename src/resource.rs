//! Resources: singleton byte-serialized values keyed by type tag, and the
//! built-in game-state resource.
use vstd::prelude::*;
use crate::codec::{i32_be, i32_from_be, lemma_i32_round_trip, push_i32_be, read_i32_be};
use crate::symbol::{Symbol, lemma_short_name, symbol_chars_ok};

verus! {

/// What a resource is: its type tag and payload bytes.
pub struct ResourceView {
    pub resource_type: Symbol,
    pub data: Seq<u8>,
}

/// A resource value: a type tag and its serialized payload.
#[derive(Clone, Debug)]
pub struct Resource {
    pub resource_type: Symbol,
    pub data: Vec<u8>,
}

impl View for Resource {
    type V = ResourceView;

    open spec fn view(&self) -> ResourceView {
        ResourceView { resource_type: self.resource_type, data: self.data@ }
    }
}

impl Resource {
    /// A resource of type `resource_type` with payload `data`.
    pub fn new(resource_type: Symbol, data: Vec<u8>) -> (r: Resource)
        ensures
            r@ == (ResourceView { resource_type, data: data@ }),
    {
        Resource { resource_type, data }
    }

    /// The type tag.
    pub fn resource_type(&self) -> (r: &Symbol)
        ensures
            *r == self.resource_type,
    {
        &self.resource_type
    }

    /// The payload bytes.
    pub fn data(&self) -> (r: &Vec<u8>)
        ensures
            r@ == self.data@,
    {
        &self.data
    }

    /// The payload bytes, for change in place.
    pub fn data_mut(&mut self) -> (r: &mut Vec<u8>)
        ensures
            *r == old(self).data,
            final(self).resource_type == old(self).resource_type,
            final(self).data == *final(r),
    {
        &mut self.data
    }

    /// A copy of this resource.
    pub fn duplicate(&self) -> (r: Resource)
        ensures
            r@ == self@,
    {
        let data = self.data.clone();
        assert(data@ =~= self.data@);
        Resource { resource_type: self.resource_type, data }
    }
}

/// A built-in resource payload: a type tag and a fixed-size byte layout.
pub trait ResourceTrait: Sized {
    /// The bytes that `serialize` writes.
    spec fn spec_bytes(&self) -> Seq<u8>;

    /// What `deserialize` reads from `data`.
    spec fn spec_decode(data: Seq<u8>) -> Option<Self>;

    /// The type tag of resources carrying this payload.
    fn resource_type() -> (r: Symbol)
        ensures
            r.wf(),
    ;

    /// The payload's bytes.
    fn serialize(&self) -> (r: Vec<u8>)
        ensures
            r@ == self.spec_bytes(),
    ;

    /// The payload that `data` holds, if `data` has the exact size.
    fn deserialize(data: &Vec<u8>) -> (r: Option<Self>)
        ensures
            r == Self::spec_decode(data@),
    ;
}

/// Score, level and whether the game is over.
#[derive(Clone, Copy, Debug, PartialEq, Eq, Structural)]
pub struct GameState {
    pub score: i32,
    pub level: i32,
    pub is_game_over: bool,
}

impl GameState {
    /// Score zero, level one, not over.
    pub fn new() -> (r: GameState)
        ensures
            r == (GameState { score: 0, level: 1, is_game_over: false }),
    {
        GameState { score: 0, level: 1, is_game_over: false }
    }

    /// Adds `points` to the score.
    pub fn increment_score(&mut self, points: i32)
        requires
            i32::MIN <= old(self).score + points <= i32::MAX,
        ensures
            *final(self) == (GameState { score: (old(self).score + points) as i32, ..*old(self) }),
    {
        self.score = self.score + points;
    }

    /// Moves to the next level.
    pub fn next_level(&mut self)
        requires
            old(self).level < i32::MAX,
        ensures
            *final(self) == (GameState { level: (old(self).level + 1) as i32, ..*old(self) }),
    {
        self.level = self.level + 1;
    }

    /// Ends the game.
    pub fn game_over(&mut self)
        ensures
            *final(self) == (GameState { is_game_over: true, ..*old(self) }),
    {
        self.is_game_over = true;
    }
}

impl Default for GameState {
    fn default() -> (r: GameState)
        ensures
            r == (GameState { score: 0, level: 1, is_game_over: false }),
    {
        GameState::new()
    }
}

impl ResourceTrait for GameState {
    /// The score and the level, four bytes each, big-endian, then one byte
    /// that is 1 when the game is over and 0 otherwise: nine bytes.
    open spec fn spec_bytes(&self) -> Seq<u8> {
        i32_be(self.score) + i32_be(self.level) + seq![if self.is_game_over { 1u8 } else { 0u8 }]
    }

    /// Exactly nine bytes; any nonzero last byte means the game is over.
    open spec fn spec_decode(data: Seq<u8>) -> Option<GameState> {
        if data.len() == 9 {
            Some(
                GameState {
                    score: i32_from_be(data.subrange(0, 4)),
                    level: i32_from_be(data.subrange(4, 8)),
                    is_game_over: data[8] != 0,
                },
            )
        } else {
            None
        }
    }

    fn resource_type() -> (r: Symbol) {
        proof {
            reveal_strlit("gamestate");
            reveal_with_fuel(symbol_chars_ok, 10);
            lemma_short_name("gamestate"@);
        }
        Symbol::short("gamestate")
    }

    fn serialize(&self) -> (r: Vec<u8>) {
        let mut bytes: Vec<u8> = Vec::new();
        push_i32_be(&mut bytes, self.score);
        push_i32_be(&mut bytes, self.level);
        bytes.push(if self.is_game_over { 1u8 } else { 0u8 });
        assert(bytes@ =~= self.spec_bytes());
        bytes
    }

    fn deserialize(data: &Vec<u8>) -> (r: Option<GameState>) {
        if data.len() != 9 {
            return None;
        }
        let score = read_i32_be(data, 0);
        let level = read_i32_be(data, 4);
        let is_game_over = data[8] != 0;
        Some(GameState { score, level, is_game_over })
    }
}

/// A game state reads back from its bytes as itself, and bytes of any
/// length other than nine are no game state.
pub proof fn lemma_game_state_round_trip(g: GameState, data: Seq<u8>)
    ensures
        GameState::spec_decode(g.spec_bytes()) == Some(g),
        data.len() != 9 ==> GameState::spec_decode(data).is_none(),
{
    lemma_i32_round_trip(g.score);
    lemma_i32_round_trip(g.level);
    let b = g.spec_bytes();
    assert(b.subrange(0, 4) =~= i32_be(g.score));
    assert(b.subrange(4, 8) =~= i32_be(g.level));
}

} // verus!
