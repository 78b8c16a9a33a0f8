//! The universal value carried through the dataflow engine and the value
//! store: a structured value with null, booleans, integers, strings, arrays
//! and objects, together with structural equality and deep copying.

use vstd::prelude::*;

verus! {

broadcast use vstd::std_specs::vec::group_vec_axioms, vstd::seq::group_seq_axioms;

/// Mathematical model of a [`Value`]: the same tree over `int`, `Seq<char>`
/// and `Seq`.
pub enum JsonV {
    Null,
    Bool(bool),
    Int(int),
    Str(Seq<char>),
    Arr(Seq<JsonV>),
    Obj(Seq<(Seq<char>, JsonV)>),
}

/// A structured value: device telemetry, node inputs and outputs, and
/// feature metadata are all carried as `Value`s. Numbers are whole numbers.
#[derive(Debug)]
pub enum Value {
    Null,
    Bool(bool),
    Int(i64),
    Str(String),
    Arr(Vec<Value>),
    Obj(Vec<(String, Value)>),
}

pub open spec fn value_view(v: Value) -> JsonV
    decreases v,
{
    match v {
        Value::Null => JsonV::Null,
        Value::Bool(b) => JsonV::Bool(b),
        Value::Int(i) => JsonV::Int(i as int),
        Value::Str(s) => JsonV::Str(s@),
        Value::Arr(xs) => JsonV::Arr(
            Seq::new(
                xs@.len(),
                |i: int|
                    if 0 <= i < xs@.len() {
                        value_view(xs@[i])
                    } else {
                        JsonV::Null
                    },
            ),
        ),
        Value::Obj(xs) => JsonV::Obj(
            Seq::new(
                xs@.len(),
                |i: int|
                    if 0 <= i < xs@.len() {
                        (xs@[i].0@, value_view(xs@[i].1))
                    } else {
                        (Seq::empty(), JsonV::Null)
                    },
            ),
        ),
    }
}

impl View for Value {
    type V = JsonV;

    open spec fn view(&self) -> JsonV {
        value_view(*self)
    }
}

/// Structural equality of two values, decided exactly: the result says
/// whether the two mathematical values coincide.
pub fn eq_value(a: &Value, b: &Value) -> (r: bool)
    ensures
        r == (a@ == b@),
    decreases *a,
{
    match a {
        Value::Null => match b {
            Value::Null => true,
            _ => false,
        },
        Value::Bool(x) => match b {
            Value::Bool(y) => *x == *y,
            _ => false,
        },
        Value::Int(x) => match b {
            Value::Int(y) => *x == *y,
            _ => false,
        },
        Value::Str(x) => match b {
            Value::Str(y) => *x == *y,
            _ => false,
        },
        Value::Arr(xs) => match b {
            Value::Arr(ys) => eq_arr(xs, ys),
            _ => false,
        },
        Value::Obj(xs) => match b {
            Value::Obj(ys) => eq_obj(xs, ys),
            _ => false,
        },
    }
}

fn eq_arr(xs: &Vec<Value>, ys: &Vec<Value>) -> (r: bool)
    ensures
        r == (value_view(Value::Arr(*xs)) == value_view(Value::Arr(*ys))),
    decreases *xs,
{
    let ghost sx = value_view(Value::Arr(*xs))->Arr_0;
    let ghost sy = value_view(Value::Arr(*ys))->Arr_0;
    if xs.len() != ys.len() {
        assert(sx.len() != sy.len());
        return false;
    }
    let mut i: usize = 0;
    while i < xs.len()
        invariant
            0 <= i <= xs.len(),
            xs@.len() == ys@.len(),
            sx == value_view(Value::Arr(*xs))->Arr_0,
            sy == value_view(Value::Arr(*ys))->Arr_0,
            forall|j: int| 0 <= j < i ==> sx[j] == sy[j],
        decreases xs@.len() - i,
    {
        if !eq_value(&xs[i], &ys[i]) {
            assert(sx[i as int] != sy[i as int]);
            return false;
        }
        i += 1;
    }
    proof {
        assert(sx =~= sy);
    }
    true
}

fn eq_obj(xs: &Vec<(String, Value)>, ys: &Vec<(String, Value)>) -> (r: bool)
    ensures
        r == (value_view(Value::Obj(*xs)) == value_view(Value::Obj(*ys))),
    decreases *xs,
{
    let ghost sx = value_view(Value::Obj(*xs))->Obj_0;
    let ghost sy = value_view(Value::Obj(*ys))->Obj_0;
    if xs.len() != ys.len() {
        assert(sx.len() != sy.len());
        return false;
    }
    let mut i: usize = 0;
    while i < xs.len()
        invariant
            0 <= i <= xs.len(),
            xs@.len() == ys@.len(),
            sx == value_view(Value::Obj(*xs))->Obj_0,
            sy == value_view(Value::Obj(*ys))->Obj_0,
            forall|j: int| 0 <= j < i ==> sx[j] == sy[j],
        decreases xs@.len() - i,
    {
        let name_eq = xs[i].0 == ys[i].0;
        if !name_eq || !eq_value(&xs[i].1, &ys[i].1) {
            assert(sx[i as int] != sy[i as int]);
            return false;
        }
        i += 1;
    }
    proof {
        assert(sx =~= sy);
    }
    true
}

/// Deep copy of a value; the copy has the same mathematical value.
pub fn dup_value(v: &Value) -> (r: Value)
    ensures
        r@ == v@,
    decreases *v,
{
    match v {
        Value::Null => Value::Null,
        Value::Bool(b) => Value::Bool(*b),
        Value::Int(i) => Value::Int(*i),
        Value::Str(s) => Value::Str(s.clone()),
        Value::Arr(xs) => {
            let out = dup_arr(xs);
            Value::Arr(out)
        },
        Value::Obj(xs) => {
            let out = dup_obj(xs);
            Value::Obj(out)
        },
    }
}

fn dup_arr(xs: &Vec<Value>) -> (out: Vec<Value>)
    ensures
        value_view(Value::Arr(out)) == value_view(Value::Arr(*xs)),
    decreases *xs,
{
    let ghost sx = value_view(Value::Arr(*xs))->Arr_0;
    let mut out: Vec<Value> = Vec::new();
    let mut i: usize = 0;
    while i < xs.len()
        invariant
            0 <= i <= xs.len(),
            sx == value_view(Value::Arr(*xs))->Arr_0,
            out@.len() == i,
            forall|j: int| 0 <= j < i ==> value_view(out@[j]) == sx[j],
        decreases xs@.len() - i,
    {
        let d = dup_value(&xs[i]);
        out.push(d);
        i += 1;
    }
    proof {
        assert(value_view(Value::Arr(out))->Arr_0 =~= sx);
    }
    out
}

fn dup_obj(xs: &Vec<(String, Value)>) -> (out: Vec<(String, Value)>)
    ensures
        value_view(Value::Obj(out)) == value_view(Value::Obj(*xs)),
    decreases *xs,
{
    let ghost sx = value_view(Value::Obj(*xs))->Obj_0;
    let mut out: Vec<(String, Value)> = Vec::new();
    let mut i: usize = 0;
    while i < xs.len()
        invariant
            0 <= i <= xs.len(),
            sx == value_view(Value::Obj(*xs))->Obj_0,
            out@.len() == i,
            forall|j: int| 0 <= j < i ==> (out@[j].0@, value_view(out@[j].1)) == sx[j],
        decreases xs@.len() - i,
    {
        let name = xs[i].0.clone();
        let d = dup_value(&xs[i].1);
        out.push((name, d));
        i += 1;
    }
    proof {
        assert(value_view(Value::Obj(out))->Obj_0 =~= sx);
    }
    out
}

/// True exactly when the value is the boolean `true`.
pub fn is_true(v: &Value) -> (r: bool)
    ensures
        r == (v@ == JsonV::Bool(true)),
{
    match v {
        Value::Bool(b) => *b,
        _ => false,
    }
}

/// True exactly when the value is `Null`.
pub fn is_null(v: &Value) -> (r: bool)
    ensures
        r == (v@ == JsonV::Null),
{
    match v {
        Value::Null => true,
        _ => false,
    }
}

} // verus!
