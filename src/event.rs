//! Events: an append-only list of tag-typed, byte-serialized messages,
//! readers that drain it one tag at a time, and the built-in event
//! payloads.
use vstd::prelude::*;
use crate::codec::{
    push_i32_be, push_u64_be, read_i32_be, read_u64_be, i32_be, i32_from_be, u64_be, u64_from_be,
    lemma_i32_round_trip, lemma_u64_round_trip,
};
use crate::symbol::{Symbol, is_small_symbol_bits, lemma_bits_round_trip, lemma_short_name, symbol_chars_ok};

verus! {

/// What an event is: its type tag, payload bytes and timestamp.
pub struct EventView {
    pub event_type: Symbol,
    pub data: Seq<u8>,
    pub timestamp: u64,
}

/// An event: a type tag, a serialized payload and a caller-supplied
/// timestamp.
#[derive(Clone, Debug)]
pub struct Event {
    pub event_type: Symbol,
    pub data: Vec<u8>,
    pub timestamp: u64,
}

impl View for Event {
    type V = EventView;

    open spec fn view(&self) -> EventView {
        EventView { event_type: self.event_type, data: self.data@, timestamp: self.timestamp }
    }
}

impl Event {
    /// An event at timestamp zero.
    pub fn new(event_type: Symbol, data: Vec<u8>) -> (r: Event)
        ensures
            r@ == (EventView { event_type, data: data@, timestamp: 0 }),
    {
        Event { event_type, data, timestamp: 0 }
    }

    /// An event at the given timestamp.
    pub fn with_timestamp(event_type: Symbol, data: Vec<u8>, timestamp: u64) -> (r: Event)
        ensures
            r@ == (EventView { event_type, data: data@, timestamp }),
    {
        Event { event_type, data, timestamp }
    }

    /// The type tag.
    pub fn event_type(&self) -> (r: &Symbol)
        ensures
            *r == self.event_type,
    {
        &self.event_type
    }

    /// The payload bytes.
    pub fn data(&self) -> (r: &Vec<u8>)
        ensures
            r@ == self.data@,
    {
        &self.data
    }

    /// The timestamp.
    pub fn timestamp(&self) -> (r: u64)
        ensures
            r == self.timestamp,
    {
        self.timestamp
    }

    /// A copy of this event.
    pub fn duplicate(&self) -> (r: Event)
        ensures
            r@ == self@,
    {
        let data = self.data.clone();
        assert(data@ =~= self.data@);
        Event { event_type: self.event_type, data, timestamp: self.timestamp }
    }
}

/// The views of the events of `events` from index `i` on whose type is
/// `t`, in order.
pub open spec fn tagged_from(events: Seq<Event>, t: Symbol, i: int) -> Seq<EventView>
    decreases events.len() - i,
{
    if i < 0 || i >= events.len() {
        Seq::empty()
    } else if events[i].event_type == t {
        seq![events[i]@].add(tagged_from(events, t, i + 1))
    } else {
        tagged_from(events, t, i + 1)
    }
}

/// The views of the events of `events` whose type is `t`, in order.
pub open spec fn events_of(events: Seq<Event>, t: Symbol) -> Seq<EventView> {
    tagged_from(events, t, 0)
}

/// The views of a list of events.
pub open spec fn event_views(events: Seq<Event>) -> Seq<EventView> {
    events.map_values(|e: Event| e@)
}

/// A cursor over a list of events that yields, in order, those of one
/// type.
pub struct EventReader<'a> {
    pub events: &'a [Event],
    pub event_type: Symbol,
    pub read_index: usize,
}

impl<'a> EventReader<'a> {
    /// The views of the events of the reader's type not yet read.
    pub open spec fn pending(&self) -> Seq<EventView> {
        tagged_from(self.events@, self.event_type, self.read_index as int)
    }

    /// The read position lies within the list.
    pub open spec fn wf(&self) -> bool {
        self.read_index <= self.events@.len()
    }

    /// A reader of the events of type `event_type`, at the start.
    pub fn new(events: &'a [Event], event_type: Symbol) -> (r: EventReader<'a>)
        ensures
            r.wf(),
            r.events == events,
            r.event_type == event_type,
            r.read_index == 0,
            r.pending() == events_of(events@, event_type),
    {
        EventReader { events, event_type, read_index: 0 }
    }

    /// The next unread event of the reader's type, or `None` when there is
    /// none left.
    pub fn read(&mut self) -> (r: Option<&'a Event>)
        requires
            old(self).wf(),
        ensures
            final(self).wf(),
            final(self).events == old(self).events,
            final(self).event_type == old(self).event_type,
            r.is_none() == (old(self).pending().len() == 0),
            r matches Some(e) ==> e@ == old(self).pending()[0] && final(self).pending()
                == old(self).pending().drop_first(),
            r.is_none() ==> final(self).read_index == old(self).events@.len(),
    {
        let n = self.events.len();
        while self.read_index < n
            invariant
                n == self.events@.len(),
                self.read_index <= n,
                self.events == old(self).events,
                self.event_type == old(self).event_type,
                self.pending() == old(self).pending(),
            decreases n - self.read_index,
        {
            let i = self.read_index;
            self.read_index = self.read_index + 1;
            let event = &self.events[i];
            if event.event_type == self.event_type {
                proof {
                    assert(old(self).pending() == seq![event@].add(self.pending()));
                    assert(seq![event@].add(self.pending()).drop_first() =~= self.pending());
                }
                return Some(event);
            }
        }
        None
    }

    /// Whether any event, of any type, lies beyond the read position: a
    /// cheap bound that may report unread events of other types.
    pub fn has_more(&self) -> (r: bool)
        ensures
            r == (self.read_index < self.events@.len()),
    {
        self.read_index < self.events.len()
    }

    /// Moves the read position back to the start.
    pub fn reset(&mut self)
        ensures
            final(self).wf(),
            final(self).events == old(self).events,
            final(self).event_type == old(self).event_type,
            final(self).read_index == 0,
            final(self).pending() == events_of(old(self).events@, old(self).event_type),
    {
        self.read_index = 0;
    }
}

/// Writing an event after the others puts it, if it has type `t`, after
/// every earlier event of type `t` in what a reader of `t` yields, and
/// leaves what such a reader yields otherwise as it was.
pub proof fn lemma_written_events_read_in_order(events: Seq<Event>, e: Event, t: Symbol)
    ensures
        events_of(events.push(e), t) == events_of(events, t) + if e.event_type == t {
            seq![e@]
        } else {
            Seq::<EventView>::empty()
        },
{
    lemma_tagged_push(events, e, t, 0);
}

proof fn lemma_tagged_push(events: Seq<Event>, e: Event, t: Symbol, i: int)
    requires
        0 <= i <= events.len(),
    ensures
        tagged_from(events.push(e), t, i) == tagged_from(events, t, i) + if e.event_type == t {
            seq![e@]
        } else {
            Seq::<EventView>::empty()
        },
    decreases events.len() - i,
{
    let p = events.push(e);
    let tail = if e.event_type == t {
        seq![e@]
    } else {
        Seq::<EventView>::empty()
    };
    if i == events.len() {
        assert(tagged_from(p, t, i + 1) =~= Seq::<EventView>::empty());
        assert(tagged_from(events, t, i) =~= Seq::<EventView>::empty());
        assert(tagged_from(p, t, i) =~= tail);
    } else {
        lemma_tagged_push(events, e, t, i + 1);
        assert(p[i] == events[i]);
        if events[i].event_type == t {
            assert(seq![events[i]@] + (tagged_from(events, t, i + 1) + tail) =~= (seq![events[i]@]
                + tagged_from(events, t, i + 1)) + tail);
        }
    }
}

/// Appends events to a list of events.
pub struct EventWriter<'a> {
    pub events: &'a mut Vec<Event>,
}

impl<'a> EventWriter<'a> {
    /// A writer that appends to `events`.
    pub fn new(events: &'a mut Vec<Event>) -> (r: EventWriter<'a>)
        ensures
            *r.events == *old(events),
            *final(events) == *final(r.events),
    {
        EventWriter { events }
    }

    /// Appends `event`.
    pub fn send(&mut self, event: Event)
        ensures
            final(self).events@ == old(self).events@.push(event),
    {
        self.events.push(event);
    }

    /// Appends an event of type `event_type` with payload `data` at
    /// timestamp zero.
    pub fn send_with_data(&mut self, event_type: Symbol, data: Vec<u8>)
        ensures
            final(self).events@.len() == old(self).events@.len() + 1,
            final(self).events@.drop_last() == old(self).events@,
            final(self).events@.last()@ == (EventView { event_type, data: data@, timestamp: 0 }),
    {
        let event = Event::new(event_type, data);
        self.send(event);
    }

    /// Appends each of `events`, in order.
    pub fn send_batch(&mut self, events: Vec<Event>)
        ensures
            final(self).events@ == old(self).events@ + events@,
    {
        let mut batch = events;
        let ghost all = batch@;
        let mut rest: Vec<Event> = Vec::new();
        while batch.len() > 0
            invariant
                batch@ + rest@.reverse() == all,
            decreases batch@.len(),
        {
            let e = batch.pop().unwrap();
            proof {
                assert(rest@.push(e).reverse() =~= seq![e] + rest@.reverse());
            }
            rest.push(e);
        }
        assert(rest@.reverse() =~= all);
        let ghost start = self.events@;
        while rest.len() > 0
            invariant
                self.events@ + rest@.reverse() == start + all,
            decreases rest@.len(),
        {
            let e = rest.pop().unwrap();
            proof {
                assert(rest@.push(e).reverse() =~= seq![e] + rest@.reverse());
            }
            self.send(e);
            proof {
                assert(self.events@ + rest@.reverse() =~= start + all);
            }
        }
        assert(self.events@ + rest@.reverse() =~= self.events@);
    }
}

/// A built-in event payload: a type tag and a fixed-size byte layout.
pub trait EventTrait: Sized {
    /// The bytes that `serialize` writes.
    spec fn spec_bytes(&self) -> Seq<u8>;

    /// What `deserialize` reads from `data`.
    spec fn spec_decode(data: Seq<u8>) -> Option<Self>;

    /// The type tag of events carrying this payload.
    fn event_type() -> (r: Symbol)
        ensures
            r.wf(),
    ;

    /// The payload's bytes.
    fn serialize(&self) -> (r: Vec<u8>)
        ensures
            r@ == self.spec_bytes(),
    ;

    /// The payload that `data` holds, if `data` has the exact size and
    /// well-formed fields.
    fn deserialize(data: &Vec<u8>) -> (r: Option<Self>)
        ensures
            r == Self::spec_decode(data@),
    ;
}

/// Two entities met.
#[derive(Clone, Copy, Debug, PartialEq, Eq, Structural)]
pub struct CollisionEvent {
    pub entity_a: u64,
    pub entity_b: u64,
    pub collision_type: Symbol,
}

impl CollisionEvent {
    /// A collision of `entity_a` and `entity_b` of kind `collision_type`.
    pub fn new(entity_a: u64, entity_b: u64, collision_type: Symbol) -> (r: CollisionEvent)
        ensures
            r == (CollisionEvent { entity_a, entity_b, collision_type }),
    {
        CollisionEvent { entity_a, entity_b, collision_type }
    }
}

impl EventTrait for CollisionEvent {
    /// Both entity ids and the kind's value word, eight bytes each,
    /// big-endian: twenty-four bytes.
    open spec fn spec_bytes(&self) -> Seq<u8> {
        u64_be(self.entity_a) + u64_be(self.entity_b) + u64_be(self.collision_type.spec_bits())
    }

    /// Exactly twenty-four bytes whose last eight are a small symbol's
    /// value word.
    open spec fn spec_decode(data: Seq<u8>) -> Option<CollisionEvent> {
        let bits = u64_from_be(data.subrange(16, 24));
        if data.len() == 24 && is_small_symbol_bits(bits) {
            Some(
                CollisionEvent {
                    entity_a: u64_from_be(data.subrange(0, 8)),
                    entity_b: u64_from_be(data.subrange(8, 16)),
                    collision_type: Symbol::spec_from_bits(bits),
                },
            )
        } else {
            None
        }
    }

    fn event_type() -> (r: Symbol) {
        proof {
            reveal_strlit("collision");
            reveal_with_fuel(symbol_chars_ok, 10);
            lemma_short_name("collision"@);
        }
        Symbol::short("collision")
    }

    fn serialize(&self) -> (r: Vec<u8>) {
        let mut bytes: Vec<u8> = Vec::new();
        push_u64_be(&mut bytes, self.entity_a);
        push_u64_be(&mut bytes, self.entity_b);
        push_u64_be(&mut bytes, self.collision_type.bits());
        assert(bytes@ =~= self.spec_bytes());
        bytes
    }

    fn deserialize(data: &Vec<u8>) -> (r: Option<CollisionEvent>) {
        if data.len() != 24 {
            return None;
        }
        let entity_a = read_u64_be(data, 0);
        let entity_b = read_u64_be(data, 8);
        let bits = read_u64_be(data, 16);
        match Symbol::from_bits(bits) {
            Some(collision_type) => Some(CollisionEvent { entity_a, entity_b, collision_type }),
            None => None,
        }
    }
}

/// An entity takes damage.
#[derive(Clone, Copy, Debug, PartialEq, Eq, Structural)]
pub struct DamageEvent {
    pub target_entity: u64,
    pub damage_amount: i32,
    pub damage_type: Symbol,
}

impl DamageEvent {
    /// `damage_amount` damage of kind `damage_type` to `target_entity`.
    pub fn new(target_entity: u64, damage_amount: i32, damage_type: Symbol) -> (r: DamageEvent)
        ensures
            r == (DamageEvent { target_entity, damage_amount, damage_type }),
    {
        DamageEvent { target_entity, damage_amount, damage_type }
    }
}

impl EventTrait for DamageEvent {
    /// The target id (eight bytes), the amount (four bytes, two's
    /// complement) and the kind's value word (eight bytes), big-endian:
    /// twenty bytes.
    open spec fn spec_bytes(&self) -> Seq<u8> {
        u64_be(self.target_entity) + i32_be(self.damage_amount) + u64_be(self.damage_type.spec_bits())
    }

    /// Exactly twenty bytes whose last eight are a small symbol's value
    /// word.
    open spec fn spec_decode(data: Seq<u8>) -> Option<DamageEvent> {
        let bits = u64_from_be(data.subrange(12, 20));
        if data.len() == 20 && is_small_symbol_bits(bits) {
            Some(
                DamageEvent {
                    target_entity: u64_from_be(data.subrange(0, 8)),
                    damage_amount: i32_from_be(data.subrange(8, 12)),
                    damage_type: Symbol::spec_from_bits(bits),
                },
            )
        } else {
            None
        }
    }

    fn event_type() -> (r: Symbol) {
        proof {
            reveal_strlit("damage");
            reveal_with_fuel(symbol_chars_ok, 10);
            lemma_short_name("damage"@);
        }
        Symbol::short("damage")
    }

    fn serialize(&self) -> (r: Vec<u8>) {
        let mut bytes: Vec<u8> = Vec::new();
        push_u64_be(&mut bytes, self.target_entity);
        push_i32_be(&mut bytes, self.damage_amount);
        push_u64_be(&mut bytes, self.damage_type.bits());
        assert(bytes@ =~= self.spec_bytes());
        bytes
    }

    fn deserialize(data: &Vec<u8>) -> (r: Option<DamageEvent>) {
        if data.len() != 20 {
            return None;
        }
        let target_entity = read_u64_be(data, 0);
        let damage_amount = read_i32_be(data, 8);
        let bits = read_u64_be(data, 12);
        match Symbol::from_bits(bits) {
            Some(damage_type) => Some(DamageEvent { target_entity, damage_amount, damage_type }),
            None => None,
        }
    }
}

/// A collision event reads back from its bytes as itself.
pub proof fn lemma_collision_round_trip(e: CollisionEvent)
    requires
        e.collision_type.wf(),
    ensures
        CollisionEvent::spec_decode(e.spec_bytes()) == Some(e),
{
    let b = e.spec_bytes();
    lemma_u64_round_trip(e.entity_a);
    lemma_u64_round_trip(e.entity_b);
    lemma_u64_round_trip(e.collision_type.spec_bits());
    assert(b.subrange(0, 8) =~= u64_be(e.entity_a));
    assert(b.subrange(8, 16) =~= u64_be(e.entity_b));
    assert(b.subrange(16, 24) =~= u64_be(e.collision_type.spec_bits()));
    lemma_bits_round_trip(e.collision_type, 0);
}

/// A damage event reads back from its bytes as itself.
pub proof fn lemma_damage_round_trip(e: DamageEvent)
    requires
        e.damage_type.wf(),
    ensures
        DamageEvent::spec_decode(e.spec_bytes()) == Some(e),
{
    let b = e.spec_bytes();
    lemma_u64_round_trip(e.target_entity);
    lemma_i32_round_trip(e.damage_amount);
    lemma_u64_round_trip(e.damage_type.spec_bits());
    assert(b.subrange(0, 8) =~= u64_be(e.target_entity));
    assert(b.subrange(8, 12) =~= i32_be(e.damage_amount));
    assert(b.subrange(12, 20) =~= u64_be(e.damage_type.spec_bits()));
    lemma_bits_round_trip(e.damage_type, 0);
}

/// Bytes of any length other than twenty-four are no collision event, and
/// bytes of any length other than twenty are no damage event.
pub proof fn lemma_event_payloads_reject_wrong_length(data: Seq<u8>)
    ensures
        data.len() != 24 ==> CollisionEvent::spec_decode(data).is_none(),
        data.len() != 20 ==> DamageEvent::spec_decode(data).is_none(),
{
}

} // verus!
