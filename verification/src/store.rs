//! The typed publish/subscribe bus and the value store: the current value
//! of every device feature, change announcements on the `incoming` topic,
//! and push requests on the `outgoing` topic.

use vstd::prelude::*;

use crate::amap::{lookup, AssocMap};
use crate::json::{dup_value, eq_value, JsonV, Value};
use crate::mqtt::MqttTopic;
use crate::ValueId;

verus! {

broadcast use vstd::std_specs::vec::group_vec_axioms, vstd::seq::group_seq_axioms;

/// A feature's stored value: a reading, or the error the adapter recorded.
#[derive(Debug)]
pub enum FeatureValue {
    Reading(Value),
    Failure(String),
}

impl View for FeatureValue {
    type V = Result<JsonV, Seq<char>>;

    open spec fn view(&self) -> Result<JsonV, Seq<char>> {
        match self {
            FeatureValue::Reading(v) => Ok(v@),
            FeatureValue::Failure(e) => Err(e@),
        }
    }
}

impl FeatureValue {
    pub fn dup(&self) -> (r: FeatureValue)
        ensures
            r@ == self@,
    {
        match self {
            FeatureValue::Reading(v) => FeatureValue::Reading(dup_value(v)),
            FeatureValue::Failure(e) => FeatureValue::Failure(e.clone()),
        }
    }

    /// Equality of stored values, decided exactly.
    pub fn same(&self, other: &FeatureValue) -> (r: bool)
        ensures
            r == (self@ == other@),
    {
        match self {
            FeatureValue::Reading(v) => match other {
                FeatureValue::Reading(w) => eq_value(v, w),
                _ => false,
            },
            FeatureValue::Failure(e) => match other {
                FeatureValue::Failure(f) => *e == *f,
                _ => false,
            },
        }
    }
}

/// An event carried on the bus.
#[derive(Debug)]
pub enum Event {
    /// A feature's current value changed.
    Update(ValueId, FeatureValue),
    /// Someone asked to drive a feature to a value.
    Push(ValueId, Value),
    /// A device definition changed.
    DeviceChanged(String),
    /// Ask the broker worker to subscribe to a topic.
    MqttSubscribe(MqttTopic),
    /// Publish a payload on a broker topic.
    MqttPublish(MqttTopic, Vec<u8>),
    /// A payload arrived from a broker topic.
    MqttIncoming(String, Vec<u8>),
}

/// Mathematical view of an [`Event`].
pub enum EventV {
    Update((Seq<char>, Seq<char>), Result<JsonV, Seq<char>>),
    Push((Seq<char>, Seq<char>), JsonV),
    DeviceChanged(Seq<char>),
    MqttSubscribe((Seq<char>, (Seq<char>, u16))),
    MqttPublish((Seq<char>, (Seq<char>, u16)), Seq<u8>),
    MqttIncoming(Seq<char>, Seq<u8>),
}

impl View for Event {
    type V = EventV;

    open spec fn view(&self) -> EventV {
        match self {
            Event::Update(id, v) => EventV::Update(id@, v@),
            Event::Push(id, v) => EventV::Push(id@, v@),
            Event::DeviceChanged(d) => EventV::DeviceChanged(d@),
            Event::MqttSubscribe(t) => EventV::MqttSubscribe(t@),
            Event::MqttPublish(t, p) => EventV::MqttPublish(t@, p@),
            Event::MqttIncoming(t, p) => EventV::MqttIncoming(t@, p@),
        }
    }
}

/// Deep copy of an event.
pub fn dup_event(e: &Event) -> (r: Event)
    ensures
        r@ == e@,
{
    match e {
        Event::Update(id, v) => Event::Update(id.dup(), v.dup()),
        Event::Push(id, v) => Event::Push(id.dup(), dup_value(v)),
        Event::DeviceChanged(d) => Event::DeviceChanged(d.clone()),
        Event::MqttSubscribe(t) => Event::MqttSubscribe(t.dup()),
        Event::MqttPublish(t, p) => Event::MqttPublish(t.dup(), p.clone()),
        Event::MqttIncoming(t, p) => Event::MqttIncoming(t.clone(), p.clone()),
    }
}

/// The buffered events of one subscriber slot.
pub open spec fn events_view(s: Seq<Event>) -> Seq<EventV> {
    s.map_values(|e: Event| e@)
}

/// View of one subscriber slot.
pub open spec fn slot_view(o: Option<Vec<Event>>) -> Option<Seq<EventV>> {
    match o {
        Some(b) => Some(events_view(b@)),
        None => None,
    }
}

/// A multi-subscriber topic: each subscription owns a buffer slot; a
/// dropped subscription's slot is freed at once.
#[derive(Debug)]
pub struct Topic {
    subs: Vec<Option<Vec<Event>>>,
}

impl View for Topic {
    type V = Seq<Option<Seq<EventV>>>;

    closed spec fn view(&self) -> Seq<Option<Seq<EventV>>> {
        self.subs@.map_values(|o: Option<Vec<Event>>| slot_view(o))
    }
}

impl Topic {
    pub fn new() -> (r: Topic)
        ensures
            r@ == Seq::<Option<Seq<EventV>>>::empty(),
    {
        let r = Topic { subs: Vec::new() };
        proof {
            assert(r@ =~= Seq::<Option<Seq<EventV>>>::empty());
        }
        r
    }

    /// Open a new subscription: a fresh empty buffer slot, named by the
    /// returned key.
    pub fn subscribe(&mut self) -> (key: usize)
        ensures
            key == old(self)@.len(),
            final(self)@ == old(self)@.push(Some(Seq::<EventV>::empty())),
    {
        let key = self.subs.len();
        let ghost prev = self@;
        self.subs.push(Some(Vec::new()));
        proof {
            assert(self@ =~~= prev.push(Some(Seq::<EventV>::empty())));
        }
        key
    }

    /// Drop a subscription: its buffer slot is removed immediately, so no
    /// later publication is buffered for it.
    pub fn unsubscribe(&mut self, key: usize)
        requires
            key < old(self)@.len(),
        ensures
            final(self)@ == old(self)@.update(key as int, None),
    {
        let ghost prev = self@;
        let slot = &mut self.subs[key];
        *slot = None;
        proof {
            assert(self@ =~= prev.update(key as int, None));
        }
    }

    /// Publish an event: every live subscriber's buffer receives a copy, in
    /// publication order; freed slots receive nothing.
    pub fn publish(&mut self, e: Event)
        ensures
            final(self)@.len() == old(self)@.len(),
            forall|i: int|
                0 <= i < old(self)@.len() ==> final(self)@[i] == (match old(self)@[i] {
                    Some(b) => Some(b.push(e@)),
                    None => None::<Seq<EventV>>,
                }),
    {
        let ghost ev = e@;
        let ghost orig = self@;
        let n = self.subs.len();
        let mut i: usize = 0;
        while i < n
            invariant
                0 <= i <= n,
                n == self.subs@.len(),
                self@.len() == orig.len(),
                ev == e@,
                forall|j: int|
                    i <= j < orig.len() ==> self@[j] == orig[j],
                forall|j: int|
                    0 <= j < i ==> self@[j] == (match orig[j] {
                        Some(b) => Some(b.push(ev)),
                        None => None::<Seq<EventV>>,
                    }),
            decreases n - i,
        {
            let ghost pre = self@;
            let copy = dup_event(&e);
            let slot = &mut self.subs[i];
            match slot {
                Some(buf) => {
                    let ghost bufv = events_view(buf@);
                    buf.push(copy);
                    proof {
                        assert(events_view(buf@) =~= bufv.push(ev));
                    }
                },
                None => {},
            }
            proof {
                assert(self@[i as int] == (match orig[i as int] {
                    Some(b) => Some(b.push(ev)),
                    None => None::<Seq<EventV>>,
                }));
                assert forall|j: int|
                    0 <= j < i + 1 implies self@[j] == (match orig[j] {
                    Some(b) => Some(b.push(ev)),
                    None => None::<Seq<EventV>>,
                }) by {
                    if j < i {
                        assert(self@[j] == pre[j]);
                    }
                }
                assert forall|j: int| i + 1 <= j < orig.len() implies self@[j] == orig[j] by {
                    assert(self@[j] == pre[j]);
                }
            }
            i += 1;
        }
    }

    /// Take the oldest buffered event of a subscription, if any.
    pub fn recv(&mut self, key: usize) -> (r: Option<Event>)
        requires
            key < old(self)@.len(),
        ensures
            match old(self)@[key as int] {
                Some(b) => if b.len() > 0 {
                    r matches Some(e) && e@ == b[0] && final(self)@ == old(self)@.update(
                        key as int,
                        Some(b.drop_first()),
                    )
                } else {
                    r is None && final(self)@ == old(self)@
                },
                None => r is None && final(self)@ == old(self)@,
            },
    {
        let ghost orig = self@;
        let slot = &mut self.subs[key];
        match slot {
            Some(buf) => {
                if buf.len() > 0 {
                    let ghost bufv = events_view(buf@);
                    let e = buf.remove(0);
                    proof {
                        assert(e@ == bufv[0]);
                        assert(events_view(buf@) =~= bufv.drop_first());
                        assert(self@ =~= orig.update(key as int, Some(bufv.drop_first())));
                    }
                    Some(e)
                } else {
                    proof {
                        assert(self@ =~= orig);
                    }
                    None
                }
            },
            None => {
                proof {
                    assert(self@ =~= orig);
                }
                None
            },
        }
    }
}

/// Entries of the value store.
pub type EntriesT = Seq<((Seq<char>, Seq<char>), Result<JsonV, Seq<char>>)>;

/// Whether the store already holds exactly this value for the key.
pub open spec fn stored_same(entries: EntriesT, k: (Seq<char>, Seq<char>), v: Result<
    JsonV,
    Seq<char>,
>) -> bool {
    match lookup(entries, k) {
        Some(cur) => cur == v,
        None => false,
    }
}

/// What a write leaves in the store: unchanged if the value is already
/// there, else the new binding.
pub open spec fn apply_set(entries: EntriesT, k: (Seq<char>, Seq<char>), v: Result<
    JsonV,
    Seq<char>,
>) -> EntriesT {
    if stored_same(entries, k, v) {
        entries
    } else {
        entries.push((k, v))
    }
}

/// Writing the same value twice is idempotent: the second write finds the
/// value already stored, so it stores nothing and announces nothing.
pub proof fn lemma_set_current_idempotent(
    entries: EntriesT,
    k: (Seq<char>, Seq<char>),
    v: Result<JsonV, Seq<char>>,
)
    ensures
        stored_same(apply_set(entries, k, v), k, v),
        apply_set(apply_set(entries, k, v), k, v) == apply_set(entries, k, v),
{
    if !stored_same(entries, k, v) {
        crate::amap::lemma_lookup_push(entries, k, v, k);
    }
}

/// The in-memory map from value ids to their last known value, with the
/// `incoming` change topic and the `outgoing` push topic.
pub struct ValueStore {
    pub entries: AssocMap<ValueId, FeatureValue>,
    pub incoming: Topic,
    pub outgoing: Topic,
}

impl ValueStore {
    pub fn new() -> (r: ValueStore)
        ensures
            r.entries@ == Seq::<((Seq<char>, Seq<char>), Result<JsonV, Seq<char>>)>::empty(),
            r.incoming@ == Seq::<Option<Seq<EventV>>>::empty(),
            r.outgoing@ == Seq::<Option<Seq<EventV>>>::empty(),
    {
        ValueStore { entries: AssocMap::new(), incoming: Topic::new(), outgoing: Topic::new() }
    }

    /// The current value of a feature; an unseen feature reads as `Null`
    /// and is materialized in the store, as a read handle would.
    pub fn current(&mut self, key: &ValueId) -> (r: FeatureValue)
        ensures
            final(self).entries@ == (match lookup(old(self).entries@, key@) {
                Some(_) => old(self).entries@,
                None => old(self).entries@.push((key@, Ok(JsonV::Null))),
            }),
            r@ == (match lookup(old(self).entries@, key@) {
                Some(cur) => cur,
                None => Ok(JsonV::Null),
            }),
            final(self).incoming@ == old(self).incoming@,
            final(self).outgoing@ == old(self).outgoing@,
    {
        let found = self.entries.get(key);
        match found {
            Some(v) => v.dup(),
            None => {
                let v = FeatureValue::Reading(Value::Null);
                self.entries.insert(key.dup(), v);
                FeatureValue::Reading(Value::Null)
            },
        }
    }

    /// Store a feature's value. An identical write is suppressed: nothing
    /// is stored and no change event is announced; otherwise the value is
    /// stored and every `incoming` subscriber is told.
    pub fn set_current(&mut self, key: &ValueId, value: FeatureValue) -> (changed: bool)
        ensures
            changed == !stored_same(old(self).entries@, key@, value@),
            final(self).entries@ == apply_set(old(self).entries@, key@, value@),
            final(self).outgoing@ == old(self).outgoing@,
            !changed ==> final(self).incoming@ == old(self).incoming@,
            changed ==> final(self).incoming@.len() == old(self).incoming@.len() && forall|i: int|
                0 <= i < old(self).incoming@.len() ==> final(self).incoming@[i] == (
                match old(self).incoming@[i] {
                    Some(b) => Some(b.push(EventV::Update(key@, value@))),
                    None => None::<Seq<EventV>>,
                }),
    {
        let same = match self.entries.get(key) {
            Some(cur) => cur.same(&value),
            None => false,
        };
        if same {
            return false;
        }
        let copy = value.dup();
        self.entries.insert(key.dup(), value);
        self.incoming.publish(Event::Update(key.dup(), copy));
        true
    }

    /// Ask to drive a feature to a value: announced to every `outgoing`
    /// subscriber; the store itself does not change.
    pub fn push(&mut self, key: &ValueId, value: Value)
        ensures
            final(self).entries@ == old(self).entries@,
            final(self).incoming@ == old(self).incoming@,
            final(self).outgoing@.len() == old(self).outgoing@.len(),
            forall|i: int|
                0 <= i < old(self).outgoing@.len() ==> final(self).outgoing@[i] == (
                match old(self).outgoing@[i] {
                    Some(b) => Some(b.push(EventV::Push(key@, value@))),
                    None => None::<Seq<EventV>>,
                }),
    {
        self.outgoing.publish(Event::Push(key.dup(), value));
    }

    /// Subscribe to change announcements.
    pub fn subscribe(&mut self) -> (key: usize)
        ensures
            key == old(self).incoming@.len(),
            final(self).incoming@ == old(self).incoming@.push(Some(Seq::<EventV>::empty())),
            final(self).entries@ == old(self).entries@,
            final(self).outgoing@ == old(self).outgoing@,
    {
        self.incoming.subscribe()
    }

    /// Subscribe to push requests.
    pub fn push_subscribe(&mut self) -> (key: usize)
        ensures
            key == old(self).outgoing@.len(),
            final(self).outgoing@ == old(self).outgoing@.push(Some(Seq::<EventV>::empty())),
            final(self).entries@ == old(self).entries@,
            final(self).incoming@ == old(self).incoming@,
    {
        self.outgoing.subscribe()
    }
}

/// A feature is virtual when its id starts with `virtual`: pushes to it
/// loop back into the value store instead of going to a broker.
pub open spec fn spec_is_virtual(feature: Seq<char>) -> bool {
    feature.len() >= 7 && feature.take(7) == "virtual"@
}

/// Decide whether a pushed value loops back: the virtual-feature catcher
/// re-injects pushes to `virtual`-prefixed features via `set_current`.
pub fn handle_push(store: &mut ValueStore, key: &ValueId, value: Value) -> (looped: bool)
    ensures
        looped == spec_is_virtual(key@.1),
        !looped ==> final(store).entries@ == old(store).entries@ && final(store).incoming@ == old(
            store,
        ).incoming@,
        looped ==> final(store).entries@ == apply_set(
            old(store).entries@,
            key@,
            Ok(value@),
        ) && (if stored_same(old(store).entries@, key@, Ok(value@)) {
            final(store).incoming@ == old(store).incoming@
        } else {
            final(store).incoming@.len() == old(store).incoming@.len() && forall|i: int|
                0 <= i < old(store).incoming@.len() ==> final(store).incoming@[i] == (
                match old(store).incoming@[i] {
                    Some(b) => Some(b.push(EventV::Update(key@, Ok(value@)))),
                    None => None::<Seq<EventV>>,
                })
        }),
        final(store).outgoing@ == old(store).outgoing@,
{
    if is_virtual_feature(key.feature.as_str()) {
        let _ = store.set_current(key, FeatureValue::Reading(value));
        true
    } else {
        false
    }
}

/// Relies on `str::starts_with`: true exactly when the given pattern is a
/// prefix of the string slice.
#[verifier::external_body]
fn str_starts_with(s: &str, prefix: &str) -> (r: bool)
    ensures
        r == (s@.len() >= prefix@.len() && s@.take(prefix@.len() as int) == prefix@),
{
    s.starts_with(prefix)
}

/// True exactly when the feature id carries the `virtual` prefix.
pub fn is_virtual_feature(feature: &str) -> (r: bool)
    ensures
        r == spec_is_virtual(feature@),
{
    proof {
        reveal_strlit("virtual");
        assert("virtual"@.len() == 7);
    }
    str_starts_with(feature, "virtual")
}

} // verus!
