//! The device and feature catalog as the core consumes it: directions,
//! kinds, task specifications, and validation of a value against a
//! feature's kind.

use vstd::prelude::*;

use crate::amap::lookup;
use crate::graph::Automation;
use crate::json::{JsonV, Value};
use crate::mqtt::{MqttServerInfo, MqttTopic};

verus! {

broadcast use vstd::std_specs::vec::group_vec_axioms, vstd::seq::group_seq_axioms;

/// Which way values flow through a feature.
#[derive(Debug, Clone, Copy, PartialEq, Eq, Structural)]
pub enum ValueDirection {
    Source,
    Sink,
    SourceSink,
}

impl ValueDirection {
    /// Whether the feature's value can be read: it is a source.
    pub fn can_read(&self) -> (r: bool)
        ensures
            r == (*self == ValueDirection::Source || *self == ValueDirection::SourceSink),
    {
        match self {
            ValueDirection::Source => true,
            ValueDirection::Sink => false,
            ValueDirection::SourceSink => true,
        }
    }

    /// The persisted code of a direction.
    pub fn code(&self) -> (r: u8)
        ensures
            r == match *self {
                ValueDirection::Source => 1u8,
                ValueDirection::Sink => 2u8,
                ValueDirection::SourceSink => 3u8,
            },
    {
        match self {
            ValueDirection::Source => 1,
            ValueDirection::Sink => 2,
            ValueDirection::SourceSink => 3,
        }
    }

    /// Decode a persisted direction: succeeds exactly on the three codes.
    pub fn try_from(value: u8) -> (r: Result<ValueDirection, ()>)
        ensures
            match r {
                Ok(d) => 1 <= value <= 3 && value == match d {
                    ValueDirection::Source => 1u8,
                    ValueDirection::Sink => 2u8,
                    ValueDirection::SourceSink => 3u8,
                },
                Err(_) => value == 0 || value > 3,
            },
    {
        match value {
            1 => Ok(ValueDirection::Source),
            2 => Ok(ValueDirection::Sink),
            3 => Ok(ValueDirection::SourceSink),
            _ => Err(()),
        }
    }
}

/// What kind of values a feature carries.
#[derive(Debug, Clone, Copy, PartialEq, Eq, Structural)]
pub enum ValueKind {
    Bool,
    Number,
    State,
    String,
}

impl ValueKind {
    /// Decode a persisted kind: succeeds exactly on the four codes.
    pub fn try_from(value: u8) -> (r: Result<ValueKind, ()>)
        ensures
            match r {
                Ok(k) => value <= 3 && k == match value {
                    0 => ValueKind::Bool,
                    1 => ValueKind::Number,
                    2 => ValueKind::State,
                    _ => ValueKind::String,
                },
                Err(_) => value > 3,
            },
    {
        match value {
            0 => Ok(ValueKind::Bool),
            1 => Ok(ValueKind::Number),
            2 => Ok(ValueKind::State),
            3 => Ok(ValueKind::String),
            _ => Err(()),
        }
    }
}

/// What kind of device this is.
#[derive(Debug)]
pub enum DeviceType {
    Integration { name: String },
    Hardware,
    Virtual { vty: VirtualType },
}

/// The flavor of a virtual device.
#[derive(Debug, Clone, Copy, PartialEq, Eq, Structural)]
pub enum VirtualType {
    Generic,
    Button,
    Slider,
    Toggle,
}

/// What has to run for data to flow through a device.
#[derive(Debug)]
pub enum TaskSpec {
    Zigbee2Mqtt(MqttServerInfo),
    Zigbee2MqttDevice(MqttTopic),
    NoOp,
}

/// A device as the core consumes it.
#[derive(Debug)]
pub struct Device {
    pub id: String,
    pub name: String,
    pub device_type: DeviceType,
    pub parent: Option<String>,
    pub task_spec: TaskSpec,
}

/// A feature of a device as the core consumes it.
#[derive(Debug)]
pub struct Feature {
    pub id: String,
    pub name: String,
    pub direction: ValueDirection,
    pub kind: ValueKind,
    pub meta: Vec<(String, Value)>,
    pub automate: Option<Automation>,
    pub virt: bool,
}

/// The feature's metadata as a lookup structure.
pub open spec fn meta_view(meta: Seq<(String, Value)>) -> Seq<(Seq<char>, JsonV)> {
    meta.map_values(|e: (String, Value)| (e.0@, e.1@))
}

/// Every member of the array is a string.
pub open spec fn all_strings(items: Seq<JsonV>) -> bool {
    forall|i: int| 0 <= i < items.len() ==> (#[trigger] items[i]) is Str
}

/// The set of possible states of a `State` feature: the strings under the
/// `possible` metadata key -- but only when the whole array parses as
/// strings; one stray member empties the set.
pub open spec fn possible_states(meta: Seq<(Seq<char>, JsonV)>) -> Seq<JsonV> {
    match lookup(meta, "possible"@) {
        Some(v) => if v is Arr && all_strings(v->Arr_0) {
            v->Arr_0
        } else {
            Seq::empty()
        },
        None => Seq::empty(),
    }
}

/// The display name of a value kind.
pub open spec fn kind_name(k: ValueKind) -> Seq<char> {
    match k {
        ValueKind::Bool => "Bool"@,
        ValueKind::Number => "Number"@,
        ValueKind::State => "State"@,
        ValueKind::String => "String"@,
    }
}

/// The description of a kind mismatch.
pub open spec fn kind_mismatch_message(value_kind: Seq<char>, expected: ValueKind) -> Seq<char> {
    "Got value of kind "@ + value_kind + " expected value of kind "@ + kind_name(expected)
}

/// The first `i` state names, joined with commas.
pub open spec fn joined_states(names: Seq<JsonV>, i: int) -> Seq<char>
    decreases i,
{
    if i <= 0 {
        Seq::empty()
    } else if i == 1 {
        names[0]->Str_0
    } else {
        joined_states(names, i - 1) + ", "@ + names[i - 1]->Str_0
    }
}

/// The description of a state outside the possible set.
pub open spec fn state_set_message(s: Seq<char>, possible: Seq<JsonV>) -> Seq<char> {
    s + " is not part of state set ["@ + joined_states(possible, possible.len() as int) + "]"@
}

/// What validating `value` against a feature of kind `kind` yields: the
/// passed-through value, or the message describing the rejection.
pub open spec fn validate_spec(kind: ValueKind, meta: Seq<(Seq<char>, JsonV)>, value: JsonV) -> Result<
    JsonV,
    Seq<char>,
> {
    match value {
        JsonV::Null => Ok(JsonV::Null),
        JsonV::Bool(b) => if kind == ValueKind::Bool {
            Ok(JsonV::Bool(b))
        } else {
            Err(kind_mismatch_message("Bool"@, kind))
        },
        JsonV::Int(n) => if kind == ValueKind::Number {
            Ok(JsonV::Int(n))
        } else {
            Err(kind_mismatch_message("Number"@, kind))
        },
        JsonV::Str(s) => if kind == ValueKind::String {
            Ok(JsonV::Str(s))
        } else if kind == ValueKind::State {
            if s.len() == 0 {
                Ok(JsonV::Null)
            } else if possible_states(meta).contains(JsonV::Str(s)) {
                Ok(JsonV::Str(s))
            } else {
                Err(state_set_message(s, possible_states(meta)))
            }
        } else {
            Err(kind_mismatch_message("String"@, kind))
        },
        JsonV::Arr(_) => Err("Only descrete json values allowed, got array"@),
        JsonV::Obj(_) => Err("Only descrete json values allowed, got array"@),
    }
}

/// The display name of a kind.
fn kind_label(k: &ValueKind) -> (r: &'static str)
    ensures
        r@ == kind_name(*k),
{
    match k {
        ValueKind::Bool => "Bool",
        ValueKind::Number => "Number",
        ValueKind::State => "State",
        ValueKind::String => "String",
    }
}

/// Compose the kind-mismatch description.
fn mismatch_message(value_kind: &str, expected: &ValueKind) -> (r: String)
    ensures
        r@ == kind_mismatch_message(value_kind@, *expected),
{
    let mut m = String::new();
    m.append("Got value of kind ");
    m.append(value_kind);
    m.append(" expected value of kind ");
    m.append(kind_label(expected));
    proof {
        assert(m@ =~= kind_mismatch_message(value_kind@, *expected));
    }
    m
}

/// Join state names with commas.
fn joined_names(items: &Vec<Value>) -> (r: String)
    requires
        all_strings(crate::json::value_view(Value::Arr(*items))->Arr_0),
    ensures
        r@ == joined_states(
            crate::json::value_view(Value::Arr(*items))->Arr_0,
            items@.len() as int,
        ),
{
    let ghost av = crate::json::value_view(Value::Arr(*items))->Arr_0;
    let mut m = String::new();
    let mut k: usize = 0;
    proof {
        assert(m@ =~= joined_states(av, 0));
    }
    while k < items.len()
        invariant
            0 <= k <= items@.len(),
            av == crate::json::value_view(Value::Arr(*items))->Arr_0,
            av.len() == items@.len(),
            all_strings(av),
            m@ == joined_states(av, k as int),
        decreases items@.len() - k,
    {
        proof {
            assert(av[k as int] == crate::json::value_view(items@[k as int]));
            assert(av[k as int] is Str);
        }
        match &items[k] {
            Value::Str(t) => {
                if k > 0 {
                    m.append(", ");
                }
                m.append(t.as_str());
                proof {
                    assert(t@ == av[k as int]->Str_0);
                    assert(m@ =~= joined_states(av, k as int + 1));
                }
            },
            _ => {
                proof {
                    assert(false);
                }
            },
        }
        k += 1;
    }
    m
}

/// Compose the state-set description.
fn state_message(s: &String, names: Option<&Vec<Value>>) -> (r: String)
    requires
        match names {
            Some(items) => all_strings(crate::json::value_view(Value::Arr(*items))->Arr_0),
            None => true,
        },
    ensures
        r@ == state_set_message(
            s@,
            match names {
                Some(items) => crate::json::value_view(Value::Arr(*items))->Arr_0,
                None => Seq::<JsonV>::empty(),
            },
        ),
{
    let mut m = String::new();
    m.append(s.as_str());
    m.append(" is not part of state set [");
    match names {
        Some(items) => {
            let joined = joined_names(items);
            m.append(joined.as_str());
            m.append("]");
            proof {
                let ghost av = crate::json::value_view(Value::Arr(*items))->Arr_0;
                assert(av.len() == items@.len());
                assert(m@ =~= state_set_message(s@, av));
            }
        },
        None => {
            m.append("]");
            proof {
                assert(m@ =~= state_set_message(s@, Seq::<JsonV>::empty()));
            }
        },
    }
    m
}

impl Feature {
    /// Validate a value against this feature: nulls pass through; booleans,
    /// numbers and strings must match the feature's kind; a `State` feature
    /// accepts only its possible states, with the empty string reading as
    /// `Null`; arrays and objects are rejected. A rejection's message
    /// describes the expected kind, or the state set the value missed.
    pub fn validate(&self, value: &Value) -> (r: Result<Value, String>)
        ensures
            match r {
                Ok(v) => validate_spec(self.kind, meta_view(self.meta@), value@) == Ok::<
                    JsonV,
                    Seq<char>,
                >(v@),
                Err(m) => validate_spec(self.kind, meta_view(self.meta@), value@) == Err::<
                    JsonV,
                    Seq<char>,
                >(m@),
            },
    {
        let ghost mv = meta_view(self.meta@);
        match value {
            Value::Null => Ok(Value::Null),
            Value::Bool(b) => {
                if matches!(self.kind, ValueKind::Bool) {
                    Ok(Value::Bool(*b))
                } else {
                    Err(mismatch_message("Bool", &self.kind))
                }
            },
            Value::Int(n) => {
                if matches!(self.kind, ValueKind::Number) {
                    Ok(Value::Int(*n))
                } else {
                    Err(mismatch_message("Number", &self.kind))
                }
            },
            Value::Str(s) => {
                if matches!(self.kind, ValueKind::String) {
                    Ok(Value::Str(s.clone()))
                } else if matches!(self.kind, ValueKind::State) {
                    if s.as_str().is_empty() {
                        Ok(Value::Null)
                    } else {
                        match self.possible_array() {
                            Some(items) => {
                                if all_string_items(items) {
                                    proof {
                                        assert(possible_states(mv) == crate::json::value_view(
                                            Value::Arr(*items),
                                        )->Arr_0);
                                    }
                                    if member_of(items, s) {
                                        Ok(Value::Str(s.clone()))
                                    } else {
                                        Err(state_message(s, Some(items)))
                                    }
                                } else {
                                    proof {
                                        assert(possible_states(mv) == Seq::<JsonV>::empty());
                                        assert(!possible_states(mv).contains(JsonV::Str(s@)));
                                    }
                                    Err(state_message(s, None))
                                }
                            },
                            None => {
                                proof {
                                    assert(!possible_states(mv).contains(JsonV::Str(s@)));
                                }
                                Err(state_message(s, None))
                            },
                        }
                    }
                } else {
                    Err(mismatch_message("String", &self.kind))
                }
            },
            Value::Arr(_) => Err("Only descrete json values allowed, got array".to_owned()),
            Value::Obj(_) => Err("Only descrete json values allowed, got array".to_owned()),
        }
    }

    /// The `possible` metadata entry, when it is an array.
    fn possible_array(&self) -> (r: Option<&Vec<Value>>)
        ensures
            match r {
                Some(items) => lookup(meta_view(self.meta@), "possible"@) == Some(
                    crate::json::value_view(Value::Arr(*items)),
                ),
                None => possible_states(meta_view(self.meta@)) == Seq::<JsonV>::empty(),
            },
    {
        let ghost mv = meta_view(self.meta@);
        let mut i: usize = self.meta.len();
        proof {
            assert(mv.take(i as int) =~= mv);
        }
        let mut found: Option<&Value> = None;
        while i > 0 && found.is_none()
            invariant
                0 <= i <= self.meta@.len(),
                mv == meta_view(self.meta@),
                match found {
                    Some(v) => lookup(mv, "possible"@) == Some(v@),
                    None => lookup(mv, "possible"@) == lookup(mv.take(i as int), "possible"@),
                },
            decreases i,
        {
            i = i - 1;
            let e = &self.meta[i];
            proof {
                assert(mv[i as int] == (e.0@, e.1@));
                let t = mv.take(i as int + 1);
                assert(t.last() == mv[i as int]);
                assert(t.drop_last() =~= mv.take(i as int));
            }
            let is_possible = {
                let key = "possible".to_owned();
                e.0 == key
            };
            if is_possible {
                found = Some(&e.1);
            }
        }
        proof {
            assert(mv.take(0) =~= Seq::<(Seq<char>, JsonV)>::empty());
        }
        match found {
            None => {
                proof {
                    assert(possible_states(mv) =~= Seq::<JsonV>::empty());
                }
                None
            },
            Some(v) => match v {
                Value::Arr(items) => Some(items),
                _ => {
                    proof {
                        assert(possible_states(mv) =~= Seq::<JsonV>::empty());
                    }
                    None
                },
            },
        }
    }
}

/// Whether every member of the array is a string.
fn all_string_items(items: &Vec<Value>) -> (r: bool)
    ensures
        r == all_strings(crate::json::value_view(Value::Arr(*items))->Arr_0),
{
    let ghost av = crate::json::value_view(Value::Arr(*items))->Arr_0;
    let mut k: usize = 0;
    while k < items.len()
        invariant
            0 <= k <= items@.len(),
            av == crate::json::value_view(Value::Arr(*items))->Arr_0,
            av.len() == items@.len(),
            forall|j: int| 0 <= j < k ==> (#[trigger] av[j]) is Str,
        decreases items@.len() - k,
    {
        proof {
            assert(av[k as int] == crate::json::value_view(items@[k as int]));
        }
        match &items[k] {
            Value::Str(_) => {},
            _ => {
                proof {
                    assert(!(av[k as int] is Str));
                }
                return false;
            },
        }
        k += 1;
    }
    true
}

/// Whether a state name is among the array's strings.
fn member_of(items: &Vec<Value>, s: &String) -> (r: bool)
    ensures
        r == crate::json::value_view(Value::Arr(*items))->Arr_0.contains(JsonV::Str(s@)),
{
    let ghost av = crate::json::value_view(Value::Arr(*items))->Arr_0;
    let mut k: usize = 0;
    while k < items.len()
        invariant
            0 <= k <= items@.len(),
            av == crate::json::value_view(Value::Arr(*items))->Arr_0,
            av.len() == items@.len(),
            forall|j: int| 0 <= j < k ==> (#[trigger] av[j]) != JsonV::Str(s@),
        decreases items@.len() - k,
    {
        proof {
            assert(av[k as int] == crate::json::value_view(items@[k as int]));
        }
        match &items[k] {
            Value::Str(t) => {
                if *t == *s {
                    proof {
                        assert(av[k as int] == JsonV::Str(s@));
                        assert(av.contains(JsonV::Str(s@)));
                    }
                    return true;
                }
                proof {
                    assert(av[k as int] != JsonV::Str(s@));
                }
            },
            _ => {
                proof {
                    assert(av[k as int] != JsonV::Str(s@));
                }
            },
        }
        k += 1;
    }
    proof {
        assert(!av.contains(JsonV::Str(s@))) by {
            if av.contains(JsonV::Str(s@)) {
                let j = choose|j: int| 0 <= j < av.len() && av[j] == JsonV::Str(s@);
            }
        }
    }
    false
}

/// The sun phases the solar scheduler distinguishes.
#[derive(Debug, Clone, Copy, PartialEq, Eq, Structural)]
pub enum SunPhase {
    Sunrise,
    Sunset,
    SunriseEnd,
    SunsetStart,
}

impl SunPhase {
    /// Whether the phase belongs to the rising half of the day.
    pub fn is_rise(&self) -> (r: bool)
        ensures
            r == (*self == SunPhase::Sunrise || *self == SunPhase::SunriseEnd),
    {
        match self {
            SunPhase::Sunrise | SunPhase::SunriseEnd => true,
            SunPhase::Sunset | SunPhase::SunsetStart => false,
        }
    }
}

} // verus!
