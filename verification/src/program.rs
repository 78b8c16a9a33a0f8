//! The compiled program: a topologically ordered list of steps, each a
//! runtime node with its wired inputs and outputs, and the interpreter that
//! evaluates the steps over a snapshot of program inputs.

use vstd::prelude::*;

use crate::amap::{lookup, AssocKey, AssocMap};
use crate::graph::{CompareOp, SlotRef};
use crate::json::{dup_value, eq_value, JsonV, Value};
use crate::ValueId;

verus! {

broadcast use vstd::std_specs::vec::group_vec_axioms, vstd::seq::group_seq_axioms;

impl AssocKey for SlotRef {
    fn key_eq(&self, other: &Self) -> (r: bool) {
        self.slot_eq(other)
    }
}

/// A materialized program node, carrying its internal state.
#[derive(Debug)]
pub enum RuntimeNode {
    Target(ValueId),
    Device(String),
    Value(Value),
    IsNull,
    Equals,
    If,
    And,
    Or,
    Not,
    Xor,
    Latch(bool),
    Toggle(bool),
    Compare(CompareOp),
}

/// Mathematical view of a [`RuntimeNode`].
pub enum NodeRV {
    Target((Seq<char>, Seq<char>)),
    Device(Seq<char>),
    Value(JsonV),
    IsNull,
    Equals,
    If,
    And,
    Or,
    Not,
    Xor,
    Latch(bool),
    Toggle(bool),
    Compare(CompareOp),
}

impl View for RuntimeNode {
    type V = NodeRV;

    open spec fn view(&self) -> NodeRV {
        match self {
            RuntimeNode::Target(vid) => NodeRV::Target(vid@),
            RuntimeNode::Device(d) => NodeRV::Device(d@),
            RuntimeNode::Value(v) => NodeRV::Value(v@),
            RuntimeNode::IsNull => NodeRV::IsNull,
            RuntimeNode::Equals => NodeRV::Equals,
            RuntimeNode::If => NodeRV::If,
            RuntimeNode::And => NodeRV::And,
            RuntimeNode::Or => NodeRV::Or,
            RuntimeNode::Not => NodeRV::Not,
            RuntimeNode::Xor => NodeRV::Xor,
            RuntimeNode::Latch(h) => NodeRV::Latch(*h),
            RuntimeNode::Toggle(h) => NodeRV::Toggle(*h),
            RuntimeNode::Compare(op) => NodeRV::Compare(*op),
        }
    }
}

/// One step of a compiled program: the node, the connections that feed it
/// (source slot and input name), and the names of its wired output slots.
#[derive(Debug)]
pub struct Step {
    pub id: u32,
    pub incoming: Vec<(SlotRef, String)>,
    pub outputs: Vec<String>,
    pub node: RuntimeNode,
}

/// Mathematical view of a [`Step`].
pub struct StepV {
    pub id: u32,
    pub incoming: Seq<((u32, Seq<char>), Seq<char>)>,
    pub outputs: Seq<Seq<char>>,
    pub node: NodeRV,
}

impl View for Step {
    type V = StepV;

    open spec fn view(&self) -> StepV {
        StepV {
            id: self.id,
            incoming: self.incoming@.map_values(|e: (SlotRef, String)| (e.0@, e.1@)),
            outputs: self.outputs@.map_values(|s: String| s@),
            node: self.node@,
        }
    }
}

/// Why an execution failed.
#[derive(Debug)]
pub enum ExecError {
    /// A node asked for an input slot that no connection feeds.
    NoInput { node: u32, name: String },
    /// A device node's value was missing from the program input.
    MissingInput { id: ValueId },
}

/// Mathematical view of an [`ExecError`].
pub enum ErrV {
    NoInput(u32, Seq<char>),
    MissingInput((Seq<char>, Seq<char>)),
}

impl View for ExecError {
    type V = ErrV;

    open spec fn view(&self) -> ErrV {
        match self {
            ExecError::NoInput { node, name } => ErrV::NoInput(*node, name@),
            ExecError::MissingInput { id } => ErrV::MissingInput(id@),
        }
    }
}

/// Entries of the transient slot-value arena.
pub type EnvT = Seq<((u32, Seq<char>), JsonV)>;

/// Entries of a program input or output map.
pub type PinT = Seq<((Seq<char>, Seq<char>), JsonV)>;

/// The source slots wired to input `name` among the first `i` incoming
/// connections, in wire order.
pub open spec fn slot_sources(
    inc: Seq<((u32, Seq<char>), Seq<char>)>,
    name: Seq<char>,
    i: int,
) -> Seq<(u32, Seq<char>)>
    decreases i,
{
    if i <= 0 {
        Seq::empty()
    } else {
        let prev = slot_sources(inc, name, i - 1);
        if inc[i - 1].1 == name {
            prev.push(inc[i - 1].0)
        } else {
            prev
        }
    }
}

/// The value a source slot holds: what was written there, or `Null`.
pub open spec fn source_val(env: EnvT, s: (u32, Seq<char>)) -> JsonV {
    match lookup(env, s) {
        Some(v) => v,
        None => JsonV::Null,
    }
}

/// The values a list of source slots holds.
pub open spec fn source_vals(env: EnvT, srcs: Seq<(u32, Seq<char>)>) -> Seq<JsonV> {
    srcs.map_values(|s: (u32, Seq<char>)| source_val(env, s))
}

pub proof fn lemma_source_vals_push(env: EnvT, srcs: Seq<(u32, Seq<char>)>, s: (u32, Seq<char>))
    ensures
        source_vals(env, srcs.push(s)) == source_vals(env, srcs).push(source_val(env, s)),
{
    assert(source_vals(env, srcs.push(s)) =~= source_vals(env, srcs).push(source_val(env, s)));
}

/// The mathematical values of a list of values.
pub open spec fn vals_view(vs: Seq<Value>) -> Seq<JsonV> {
    vs.map_values(|v: Value| v@)
}

pub proof fn lemma_vals_view_push(vs: Seq<Value>, v: Value)
    ensures
        vals_view(vs.push(v)) == vals_view(vs).push(v@),
{
    assert(vals_view(vs.push(v)) =~= vals_view(vs).push(v@));
}

/// The entries a list of slot writes stands for.
pub open spec fn writes_view(ws: Seq<(SlotRef, Value)>) -> EnvT {
    ws.map_values(|e: (SlotRef, Value)| (e.0@, e.1@))
}

pub proof fn lemma_writes_view_push(ws: Seq<(SlotRef, Value)>, e: (SlotRef, Value))
    ensures
        writes_view(ws.push(e)) == writes_view(ws).push((e.0@, e.1@)),
{
    assert(writes_view(ws.push(e)) =~= writes_view(ws).push((e.0@, e.1@)));
}

/// The values arriving on input `name` of a step, in wire order.
pub open spec fn input_vals(st: StepV, env: EnvT, name: Seq<char>) -> Seq<JsonV> {
    source_vals(env, slot_sources(st.incoming, name, st.incoming.len() as int))
}

/// Whether any connection feeds input `name` of the step.
pub open spec fn has_input(st: StepV, name: Seq<char>) -> bool {
    slot_sources(st.incoming, name, st.incoming.len() as int).len() > 0
}

/// The first value on input `name`, or `dflt` if the input is unwired.
pub open spec fn val_or(st: StepV, env: EnvT, name: Seq<char>, dflt: JsonV) -> JsonV {
    if has_input(st, name) {
        input_vals(st, env, name)[0]
    } else {
        dflt
    }
}

pub open spec fn any_true(vals: Seq<JsonV>) -> bool {
    exists|i: int| 0 <= i < vals.len() && vals[i] == JsonV::Bool(true)
}

pub open spec fn all_true(vals: Seq<JsonV>) -> bool {
    forall|i: int| 0 <= i < vals.len() ==> vals[i] == JsonV::Bool(true)
}

/// How many of the first `i` values are the boolean `true`.
pub open spec fn count_true(vals: Seq<JsonV>, i: int) -> int
    decreases i,
{
    if i <= 0 {
        0
    } else {
        count_true(vals, i - 1) + if vals[i - 1] == JsonV::Bool(true) {
            1int
        } else {
            0int
        }
    }
}

/// Boolean inversion: `true` and `false` flip, anything else becomes `Null`.
pub open spec fn not_val(v: JsonV) -> JsonV {
    if v == JsonV::Bool(true) {
        JsonV::Bool(false)
    } else if v == JsonV::Bool(false) {
        JsonV::Bool(true)
    } else {
        JsonV::Null
    }
}

/// Numeric comparison: a boolean for two whole numbers, `Null` otherwise.
pub open spec fn compare_val(op: CompareOp, a: JsonV, b: JsonV) -> JsonV {
    if a is Int && b is Int {
        let x = a->Int_0;
        let y = b->Int_0;
        JsonV::Bool(
            match op {
                CompareOp::Eq => x == y,
                CompareOp::Gt => x > y,
                CompareOp::Lt => x < y,
                CompareOp::Ge => x >= y,
                CompareOp::Le => x <= y,
            },
        )
    } else {
        JsonV::Null
    }
}

/// What one step does: the slot writes it performs, the program output it
/// emits, and its node's next state -- or the error it fails with.
pub enum StepResV {
    Done { writes: EnvT, pout: Option<((Seq<char>, Seq<char>), JsonV)>, node: NodeRV },
    Fail(ErrV),
}

/// A device node's writes: one per wired output slot, read from the program
/// input; fails on the first missing value.
pub open spec fn device_run(
    id: u32,
    d: Seq<char>,
    outs: Seq<Seq<char>>,
    pin: PinT,
    i: int,
) -> Result<EnvT, ErrV>
    decreases outs.len() - i,
{
    if i < 0 || i >= outs.len() {
        Ok(Seq::empty())
    } else {
        match lookup(pin, (d, outs[i])) {
            None => Err(ErrV::MissingInput((d, outs[i]))),
            Some(v) => match device_run(id, d, outs, pin, i + 1) {
                Err(e) => Err(e),
                Ok(rest) => Ok(seq![((id, outs[i]), v)] + rest),
            },
        }
    }
}

/// The meaning of one step, by node kind.
pub open spec fn run_node_spec(st: StepV, env: EnvT, pin: PinT) -> StepResV {
    match st.node {
        NodeRV::Target(vid) => StepResV::Done {
            writes: Seq::empty(),
            pout: Some((vid, val_or(st, env, vid.1, JsonV::Null))),
            node: st.node,
        },
        NodeRV::Device(d) => match device_run(st.id, d, st.outputs, pin, 0) {
            Err(e) => StepResV::Fail(e),
            Ok(ws) => StepResV::Done { writes: ws, pout: None, node: st.node },
        },
        NodeRV::Value(v) => StepResV::Done {
            writes: seq![((st.id, "value"@), v)],
            pout: None,
            node: st.node,
        },
        NodeRV::IsNull => if !has_input(st, "input"@) {
            StepResV::Fail(ErrV::NoInput(st.id, "input"@))
        } else {
            StepResV::Done {
                writes: seq![
                    (
                        (st.id, "result"@),
                        JsonV::Bool(input_vals(st, env, "input"@)[0] == JsonV::Null),
                    ),
                ],
                pout: None,
                node: st.node,
            }
        },
        NodeRV::Equals => StepResV::Done {
            writes: seq![
                (
                    (st.id, "result"@),
                    JsonV::Bool(
                        val_or(st, env, "input"@, JsonV::Null) == val_or(
                            st,
                            env,
                            "other"@,
                            JsonV::Null,
                        ),
                    ),
                ),
            ],
            pout: None,
            node: st.node,
        },
        NodeRV::If => StepResV::Done {
            writes: seq![
                (
                    (st.id, "result"@),
                    if val_or(st, env, "input"@, JsonV::Null) == JsonV::Bool(true) {
                        val_or(st, env, "then"@, JsonV::Null)
                    } else {
                        val_or(st, env, "else"@, JsonV::Null)
                    },
                ),
            ],
            pout: None,
            node: st.node,
        },
        NodeRV::And => if !has_input(st, "input"@) {
            StepResV::Fail(ErrV::NoInput(st.id, "input"@))
        } else {
            StepResV::Done {
                writes: seq![
                    ((st.id, "result"@), JsonV::Bool(all_true(input_vals(st, env, "input"@)))),
                ],
                pout: None,
                node: st.node,
            }
        },
        NodeRV::Or => if !has_input(st, "input"@) {
            StepResV::Fail(ErrV::NoInput(st.id, "input"@))
        } else {
            StepResV::Done {
                writes: seq![
                    ((st.id, "result"@), JsonV::Bool(any_true(input_vals(st, env, "input"@)))),
                ],
                pout: None,
                node: st.node,
            }
        },
        NodeRV::Not => if !has_input(st, "input"@) {
            StepResV::Fail(ErrV::NoInput(st.id, "input"@))
        } else {
            StepResV::Done {
                writes: seq![
                    ((st.id, "result"@), not_val(input_vals(st, env, "input"@)[0])),
                ],
                pout: None,
                node: st.node,
            }
        },
        NodeRV::Xor => if !has_input(st, "input"@) {
            StepResV::Fail(ErrV::NoInput(st.id, "input"@))
        } else {
            let vals = input_vals(st, env, "input"@);
            StepResV::Done {
                writes: seq![
                    ((st.id, "result"@), JsonV::Bool(count_true(vals, vals.len() as int) == 1)),
                ],
                pout: None,
                node: st.node,
            }
        },
        NodeRV::Latch(high) => {
            let reset = val_or(st, env, "reset"@, JsonV::Bool(false));
            let signal = val_or(st, env, "input"@, JsonV::Bool(false));
            let cleared = if reset == JsonV::Bool(true) {
                false
            } else {
                high
            };
            let is_high = signal == JsonV::Bool(true);
            StepResV::Done {
                writes: seq![((st.id, "result"@), JsonV::Bool(is_high || cleared))],
                pout: None,
                node: NodeRV::Latch(is_high),
            }
        },
        NodeRV::Toggle(high) => if !has_input(st, "input"@) {
            StepResV::Fail(ErrV::NoInput(st.id, "input"@))
        } else {
            let sig = input_vals(st, env, "input"@)[0];
            let flipped = if sig == JsonV::Bool(true) {
                !high
            } else {
                high
            };
            StepResV::Done {
                writes: seq![((st.id, "result"@), JsonV::Bool(flipped))],
                pout: None,
                node: NodeRV::Toggle(flipped),
            }
        },
        NodeRV::Compare(op) => StepResV::Done {
            writes: seq![
                (
                    (st.id, "result"@),
                    compare_val(
                        op,
                        val_or(st, env, "input"@, JsonV::Null),
                        val_or(st, env, "other"@, JsonV::Null),
                    ),
                ),
            ],
            pout: None,
            node: st.node,
        },
    }
}

/// The outcome of running a program: the program outputs, the steps with
/// their final node states, and the error if one stopped the run.
pub struct ProgResV {
    pub out: PinT,
    pub steps: Seq<StepV>,
    pub err: Option<ErrV>,
}

/// Run the steps from `i` on, with the arena `env` and outputs `out`
/// accumulated so far.
pub open spec fn run_steps(steps: Seq<StepV>, pin: PinT, i: int, env: EnvT, out: PinT) -> ProgResV
    decreases steps.len() - i,
{
    if i < 0 || i >= steps.len() {
        ProgResV { out, steps, err: None }
    } else {
        match run_node_spec(steps[i], env, pin) {
            StepResV::Fail(e) => ProgResV { out, steps, err: Some(e) },
            StepResV::Done { writes, pout, node } => {
                let st = steps[i];
                let steps2 = steps.update(
                    i,
                    StepV { id: st.id, incoming: st.incoming, outputs: st.outputs, node },
                );
                let out2 = match pout {
                    Some(p) => out.push(p),
                    None => out,
                };
                run_steps(steps2, pin, i + 1, env + writes, out2)
            },
        }
    }
}

/// The meaning of executing a program on an input snapshot.
pub open spec fn run_program(steps: Seq<StepV>, pin: PinT) -> ProgResV {
    run_steps(steps, pin, 0, Seq::empty(), Seq::empty())
}

/// Prefix `acc` onto a pending device result.
pub open spec fn prepend_writes(acc: EnvT, r: Result<EnvT, ErrV>) -> Result<EnvT, ErrV> {
    match r {
        Ok(rest) => Ok(acc + rest),
        Err(e) => Err(e),
    }
}

/// Collect the values arriving on input `name`, or report that the input is
/// unwired.
fn gather_inputs(step: &Step, env: &AssocMap<SlotRef, Value>, name: &str) -> (r: Option<
    Vec<Value>,
>)
    ensures
        match r {
            Some(vs) => has_input(step@, name@) && vals_view(vs@) == input_vals(
                step@,
                env@,
                name@,
            ) && vs@.len() > 0,
            None => !has_input(step@, name@),
        },
{
    let name_s = name.to_owned();
    let ghost inc = step@.incoming;
    let mut vs: Vec<Value> = Vec::new();
    let mut i: usize = 0;
    proof {
        assert(vals_view(vs@) =~= source_vals(env@, slot_sources(inc, name@, 0)));
    }
    while i < step.incoming.len()
        invariant
            0 <= i <= step.incoming@.len(),
            inc == step@.incoming,
            name_s@ == name@,
            vals_view(vs@) == source_vals(env@, slot_sources(inc, name@, i as int)),
            vs@.len() == slot_sources(inc, name@, i as int).len(),
        decreases step.incoming@.len() - i,
    {
        let e = &step.incoming[i];
        proof {
            assert(inc[i as int] == (e.0@, e.1@));
        }
        if e.1 == name_s {
            let ghost srcs = slot_sources(inc, name@, i as int);
            let v = match env.get(&e.0) {
                Some(v) => dup_value(v),
                None => Value::Null,
            };
            let ghost vv = v@;
            proof {
                assert(vv == source_val(env@, e.0@));
            }
            let ghost pvs = vs@;
            vs.push(v);
            proof {
                assert(slot_sources(inc, name@, i as int + 1) == srcs.push(e.0@));
                lemma_vals_view_push(pvs, vs@[pvs.len() as int]);
                lemma_source_vals_push(env@, srcs, e.0@);
            }
        } else {
            proof {
                assert(slot_sources(inc, name@, i as int + 1) == slot_sources(
                    inc,
                    name@,
                    i as int,
                ));
            }
        }
        i += 1;
    }
    if vs.len() == 0 {
        None
    } else {
        Some(vs)
    }
}

/// The first value on input `name`, or the given default if unwired.
fn input_first_or(step: &Step, env: &AssocMap<SlotRef, Value>, name: &str, dflt: Value) -> (r:
    Value)
    ensures
        r@ == val_or(step@, env@, name@, dflt@),
{
    match gather_inputs(step, env, name) {
        Some(mut vs) => {
            let ghost vv = vals_view(vs@);
            let first = vs.remove(0);
            proof {
                assert(first@ == vv[0]);
            }
            first
        },
        None => dflt,
    }
}

/// Write one slot value into the arena.
fn write_result(step_id: u32, name: &str, v: Value, env: &mut AssocMap<SlotRef, Value>)
    ensures
        final(env)@ == old(env)@ + seq![((step_id, name@), v@)],
{
    let ghost vv = v@;
    env.insert(SlotRef::new(step_id, name), v);
    proof {
        assert(final(env)@ =~= old(env)@ + seq![((step_id, name@), vv)]);
    }
}

/// Run one step: perform its writes into the arena, emit its program
/// output, and update its node state, exactly as [`run_node_spec`] says.
#[verifier::rlimit(100)]
fn run_step(
    step: &mut Step,
    env: &mut AssocMap<SlotRef, Value>,
    pin: &AssocMap<ValueId, Value>,
    out: &mut AssocMap<ValueId, Value>,
) -> (r: Result<(), ExecError>)
    ensures
        match run_node_spec(old(step)@, old(env)@, pin@) {
            StepResV::Fail(e) => r matches Err(e2) && e2@ == e && final(step)@ == old(step)@
                && final(env)@ == old(env)@ && final(out)@ == old(out)@,
            StepResV::Done { writes, pout, node } => r is Ok && final(step)@ == (StepV {
                node,
                ..old(step)@
            }) && final(env)@ == old(env)@ + writes && final(out)@ == (match pout {
                Some(p) => old(out)@.push(p),
                None => old(out)@,
            }),
        },
{
    let ghost st0 = step@;
    let ghost env0 = env@;
    let node_kind = dup_runtime_node(&step.node);
    match node_kind {
        RuntimeNode::Target(vid) => {
            let feature = vid.feature.clone();
            let v = input_first_or(step, env, feature.as_str(), Value::Null);
            out.insert(vid, v);
            proof {
                assert(env@ =~= env0 + Seq::empty());
            }
            Ok(())
        },
        RuntimeNode::Device(d) => {
            let ghost dv = d@;
            let mut ws: Vec<(SlotRef, Value)> = Vec::new();
            let mut i: usize = 0;
            let n = step.outputs.len();
            proof {
                assert(writes_view(ws@) =~= Seq::<((u32, Seq<char>), JsonV)>::empty());
            }
            while i < n
                invariant
                    0 <= i <= n,
                    step@ == st0,
                    env@ == env0,
                    n == step.outputs@.len(),
                    st0.node == NodeRV::Device(dv),
                    d@ == dv,
                    device_run(st0.id, dv, st0.outputs, pin@, 0) == prepend_writes(
                        writes_view(ws@),
                        device_run(st0.id, dv, st0.outputs, pin@, i as int),
                    ),
                decreases n - i,
            {
                let name = &step.outputs[i];
                proof {
                    assert(st0.outputs[i as int] == name@);
                }
                let key = ValueId::new(d.as_str(), name.as_str());
                let ghost acc = writes_view(ws@);
                match pin.get(&key) {
                    None => {
                        proof {
                            assert(device_run(st0.id, dv, st0.outputs, pin@, i as int)
                                == Err::<EnvT, ErrV>(ErrV::MissingInput((dv, st0.outputs[i as int]))));
                        }
                        return Err(ExecError::MissingInput { id: key });
                    },
                    Some(v) => {
                        let v = dup_value(v);
                        let ghost entry = ((st0.id, st0.outputs[i as int]), v@);
                        let ghost pws = ws@;
                        ws.push((SlotRef::new(step.id, name.as_str()), v));
                        proof {
                            lemma_writes_view_push(pws, ws@[pws.len() as int]);
                            assert(writes_view(ws@) =~= acc.push(entry));
                            let r1 = device_run(st0.id, dv, st0.outputs, pin@, i as int + 1);
                            match r1 {
                                Ok(rest) => {
                                    assert(acc + (seq![entry] + rest) =~= acc.push(entry) + rest);
                                },
                                Err(_) => {},
                            }
                        }
                    },
                }
                i += 1;
            }
            let ghost wsv = writes_view(ws@);
            proof {
                assert(device_run(st0.id, dv, st0.outputs, pin@, n as int) == Ok::<EnvT, ErrV>(
                    Seq::empty(),
                ));
                assert(wsv + Seq::<((u32, Seq<char>), JsonV)>::empty() =~= wsv);
                assert(device_run(st0.id, dv, st0.outputs, pin@, 0) == Ok::<EnvT, ErrV>(wsv));
            }
            let mut j: usize = 0;
            proof {
                assert(env@ =~= env0 + wsv.take(0));
            }
            let m = ws.len();
            proof {
                assert(ws@.len() == m);
                assert(wsv.len() <= usize::MAX);
            }
            while ws.len() > 0
                invariant
                    j + ws@.len() == wsv.len(),
                    wsv.len() <= usize::MAX,
                    forall|x: int|
                        0 <= x < ws@.len() ==> ((#[trigger] ws@[x]).0@, ws@[x].1@) == wsv[j + x],
                    env@ == env0 + wsv.take(j as int),
                decreases ws@.len(),
            {
                let e = ws.remove(0);
                proof {
                    assert((e.0@, e.1@) == wsv[j as int]);
                }
                env.insert(e.0, e.1);
                proof {
                    assert(env@ =~= env0 + wsv.take(j as int + 1));
                }
                j += 1;
            }
            proof {
                assert(wsv.take(wsv.len() as int) =~= wsv);
            }
            Ok(())
        },
        RuntimeNode::Value(v) => {
            write_result(step.id, "value", v, env);
            Ok(())
        },
        RuntimeNode::IsNull => {
            match gather_inputs(step, env, "input") {
                None => Err(ExecError::NoInput { node: step.id, name: "input".to_owned() }),
                Some(vs) => {
                    let b = crate::json::is_null(&vs[0]);
                    proof {
                        assert(vals_view(vs@)[0] == input_vals(
                            st0,
                            env0,
                            "input"@,
                        )[0]);
                    }
                    write_result(step.id, "result", Value::Bool(b), env);
                    Ok(())
                },
            }
        },
        RuntimeNode::Equals => {
            let a = input_first_or(step, env, "input", Value::Null);
            let b = input_first_or(step, env, "other", Value::Null);
            let e = eq_value(&a, &b);
            write_result(step.id, "result", Value::Bool(e), env);
            Ok(())
        },
        RuntimeNode::If => {
            let c = input_first_or(step, env, "input", Value::Null);
            let v = if crate::json::is_true(&c) {
                input_first_or(step, env, "then", Value::Null)
            } else {
                input_first_or(step, env, "else", Value::Null)
            };
            write_result(step.id, "result", v, env);
            Ok(())
        },
        RuntimeNode::And => {
            match gather_inputs(step, env, "input") {
                None => Err(ExecError::NoInput { node: step.id, name: "input".to_owned() }),
                Some(vs) => {
                    let ghost vv = vals_view(vs@);
                    let mut all: bool = true;
                    let mut i: usize = 0;
                    while i < vs.len()
                        invariant
                            0 <= i <= vs@.len(),
                            vv == vals_view(vs@),
                            all == forall|j: int| 0 <= j < i ==> vv[j] == JsonV::Bool(true),
                        decreases vs@.len() - i,
                    {
                        let t = crate::json::is_true(&vs[i]);
                        proof {
                            assert(vv[i as int] == vs@[i as int]@);
                        }
                        all = all && t;
                        i += 1;
                    }
                    proof {
                        assert(all == all_true(vv));
                    }
                    write_result(step.id, "result", Value::Bool(all), env);
                    Ok(())
                },
            }
        },
        RuntimeNode::Or => {
            match gather_inputs(step, env, "input") {
                None => Err(ExecError::NoInput { node: step.id, name: "input".to_owned() }),
                Some(vs) => {
                    let ghost vv = vals_view(vs@);
                    let mut any: bool = false;
                    let mut i: usize = 0;
                    while i < vs.len()
                        invariant
                            0 <= i <= vs@.len(),
                            vv == vals_view(vs@),
                            any == exists|j: int| 0 <= j < i && vv[j] == JsonV::Bool(true),
                        decreases vs@.len() - i,
                    {
                        let t = crate::json::is_true(&vs[i]);
                        proof {
                            assert(vv[i as int] == vs@[i as int]@);
                        }
                        any = any || t;
                        i += 1;
                    }
                    proof {
                        assert(any == any_true(vv));
                    }
                    write_result(step.id, "result", Value::Bool(any), env);
                    Ok(())
                },
            }
        },
        RuntimeNode::Not => {
            match gather_inputs(step, env, "input") {
                None => Err(ExecError::NoInput { node: step.id, name: "input".to_owned() }),
                Some(vs) => {
                    let v = match &vs[0] {
                        Value::Bool(true) => Value::Bool(false),
                        Value::Bool(false) => Value::Bool(true),
                        _ => Value::Null,
                    };
                    proof {
                        assert(vals_view(vs@)[0] == vs@[0]@);
                        assert(v@ == not_val(input_vals(st0, env0, "input"@)[0]));
                    }
                    write_result(step.id, "result", v, env);
                    Ok(())
                },
            }
        },
        RuntimeNode::Xor => {
            match gather_inputs(step, env, "input") {
                None => Err(ExecError::NoInput { node: step.id, name: "input".to_owned() }),
                Some(vs) => {
                    let ghost vv = vals_view(vs@);
                    let mut ones: usize = 0;
                    let mut i: usize = 0;
                    while i < vs.len()
                        invariant
                            0 <= i <= vs@.len(),
                            vv == vals_view(vs@),
                            ones == count_true(vv, i as int),
                            ones <= i,
                        decreases vs@.len() - i,
                    {
                        let t = crate::json::is_true(&vs[i]);
                        proof {
                            assert(vv[i as int] == vs@[i as int]@);
                        }
                        if t {
                            ones += 1;
                        }
                        i += 1;
                    }
                    write_result(step.id, "result", Value::Bool(ones == 1), env);
                    Ok(())
                },
            }
        },
        RuntimeNode::Latch(high) => {
            let reset = input_first_or(step, env, "reset", Value::Bool(false));
            let signal = input_first_or(step, env, "input", Value::Bool(false));
            let cleared = if crate::json::is_true(&reset) {
                false
            } else {
                high
            };
            let is_high = crate::json::is_true(&signal);
            write_result(step.id, "result", Value::Bool(is_high || cleared), env);
            step.node = RuntimeNode::Latch(is_high);
            Ok(())
        },
        RuntimeNode::Toggle(high) => {
            match gather_inputs(step, env, "input") {
                None => Err(ExecError::NoInput { node: step.id, name: "input".to_owned() }),
                Some(vs) => {
                    let sig = crate::json::is_true(&vs[0]);
                    proof {
                        assert(vals_view(vs@)[0] == vs@[0]@);
                    }
                    let flipped = if sig {
                        !high
                    } else {
                        high
                    };
                    write_result(step.id, "result", Value::Bool(flipped), env);
                    step.node = RuntimeNode::Toggle(flipped);
                    Ok(())
                },
            }
        },
        RuntimeNode::Compare(op) => {
            let a = input_first_or(step, env, "input", Value::Null);
            let b = input_first_or(step, env, "other", Value::Null);
            let v = compare_values(op, &a, &b);
            write_result(step.id, "result", v, env);
            Ok(())
        },
    }
}

/// Deep copy of a runtime node and its state.
pub fn dup_runtime_node(n: &RuntimeNode) -> (r: RuntimeNode)
    ensures
        r@ == n@,
{
    match n {
        RuntimeNode::Target(vid) => RuntimeNode::Target(vid.dup()),
        RuntimeNode::Device(d) => RuntimeNode::Device(d.clone()),
        RuntimeNode::Value(v) => RuntimeNode::Value(dup_value(v)),
        RuntimeNode::IsNull => RuntimeNode::IsNull,
        RuntimeNode::Equals => RuntimeNode::Equals,
        RuntimeNode::If => RuntimeNode::If,
        RuntimeNode::And => RuntimeNode::And,
        RuntimeNode::Or => RuntimeNode::Or,
        RuntimeNode::Not => RuntimeNode::Not,
        RuntimeNode::Xor => RuntimeNode::Xor,
        RuntimeNode::Latch(h) => RuntimeNode::Latch(*h),
        RuntimeNode::Toggle(h) => RuntimeNode::Toggle(*h),
        RuntimeNode::Compare(op) => RuntimeNode::Compare(*op),
    }
}

/// Executable comparison of two values under a comparison operator.
fn compare_values(op: CompareOp, a: &Value, b: &Value) -> (r: Value)
    ensures
        r@ == compare_val(op, a@, b@),
{
    match a {
        Value::Int(x) => match b {
            Value::Int(y) => {
                let x = *x;
                let y = *y;
                Value::Bool(
                    match op {
                        CompareOp::Eq => x == y,
                        CompareOp::Gt => x > y,
                        CompareOp::Lt => x < y,
                        CompareOp::Ge => x >= y,
                        CompareOp::Le => x <= y,
                    },
                )
            },
            _ => Value::Null,
        },
        _ => Value::Null,
    }
}

/// A compiled automation program: steps in topological order.
#[derive(Debug)]
pub struct Program {
    steps: Vec<Step>,
}

impl View for Program {
    type V = Seq<StepV>;

    closed spec fn view(&self) -> Seq<StepV> {
        self.steps@.map_values(|s: Step| s@)
    }
}

/// The ids of a node list.
pub open spec fn nodes_ids(nv: Seq<(u32, NodeRV)>) -> Seq<u32> {
    nv.map_values(|p: (u32, NodeRV)| p.0)
}

/// View of a list of materialized nodes.
pub open spec fn rnodes_view(ns: Seq<(u32, RuntimeNode)>) -> Seq<(u32, NodeRV)> {
    ns.map_values(|p: (u32, RuntimeNode)| (p.0, p.1@))
}

/// The wires into node `id` among the first `i` connections: source slot
/// and input name, in wire order.
pub open spec fn step_incoming(cs: Seq<crate::graph::ConnV>, id: u32, i: int) -> Seq<
    ((u32, Seq<char>), Seq<char>),
>
    decreases i,
{
    if i <= 0 {
        Seq::empty()
    } else {
        let prev = step_incoming(cs, id, i - 1);
        if cs[i - 1].1.0 == id {
            prev.push((cs[i - 1].0, cs[i - 1].1.1))
        } else {
            prev
        }
    }
}

/// The node bound to `id`: the first entry carrying that id.
pub open spec fn node_for(nv: Seq<(u32, NodeRV)>, id: u32) -> NodeRV
    decreases nv.len(),
{
    if nv.len() == 0 {
        arbitrary()
    } else if nv.first().0 == id {
        nv.first().1
    } else {
        node_for(nv.drop_first(), id)
    }
}

/// The steps a program has when its nodes run in the given order over the
/// given connections.
pub open spec fn steps_from(
    order: Seq<u32>,
    nv: Seq<(u32, NodeRV)>,
    cs: Seq<crate::graph::ConnV>,
) -> Seq<StepV> {
    order.map_values(
        |id: u32| StepV {
            id,
            incoming: step_incoming(cs, id, cs.len() as int),
            outputs: crate::graph::out_slot_names(cs, id, cs.len() as int),
            node: node_for(nv, id),
        },
    )
}

fn collect_incoming(cs: &Vec<crate::graph::Connection>, id: u32) -> (r: Vec<(SlotRef, String)>)
    ensures
        r@.map_values(|e: (SlotRef, String)| (e.0@, e.1@)) == step_incoming(
            crate::graph::conns_view(cs@),
            id,
            cs@.len() as int,
        ),
{
    let ghost cv = crate::graph::conns_view(cs@);
    let mut out: Vec<(SlotRef, String)> = Vec::new();
    let mut i: usize = 0;
    proof {
        assert(out@.map_values(|e: (SlotRef, String)| (e.0@, e.1@)) =~= step_incoming(cv, id, 0));
    }
    while i < cs.len()
        invariant
            0 <= i <= cs@.len(),
            cv == crate::graph::conns_view(cs@),
            out@.map_values(|e: (SlotRef, String)| (e.0@, e.1@)) == step_incoming(
                cv,
                id,
                i as int,
            ),
        decreases cs@.len() - i,
    {
        let c = &cs[i];
        proof {
            assert(cv[i as int] == c@);
        }
        if c.to.node == id {
            let ghost prev = out@.map_values(|e: (SlotRef, String)| (e.0@, e.1@));
            out.push((c.from.dup(), c.to.name.clone()));
            proof {
                assert(out@.map_values(|e: (SlotRef, String)| (e.0@, e.1@)) =~= prev.push(
                    (cv[i as int].0, cv[i as int].1.1),
                ));
            }
        }
        i += 1;
    }
    out
}

fn find_node(nodes: &Vec<(u32, RuntimeNode)>, id: u32) -> (r: Option<&RuntimeNode>)
    ensures
        match r {
            Some(nd) => nd@ == node_for(rnodes_view(nodes@), id) && exists|i: int|
                0 <= i < rnodes_view(nodes@).len() && (#[trigger] rnodes_view(nodes@)[i]).0
                    == id,
            None => !exists|i: int|
                0 <= i < rnodes_view(nodes@).len() && (#[trigger] rnodes_view(nodes@)[i]).0
                    == id,
        },
{
    let ghost nv = rnodes_view(nodes@);
    let mut i: usize = 0;
    proof {
        assert(nv.skip(0) =~= nv);
    }
    while i < nodes.len()
        invariant
            0 <= i <= nodes@.len(),
            nv == rnodes_view(nodes@),
            forall|j: int| 0 <= j < i ==> (#[trigger] nv[j]).0 != id,
            node_for(nv, id) == node_for(nv.skip(i as int), id),
        decreases nodes@.len() - i,
    {
        proof {
            assert(nv[i as int] == (nodes@[i as int].0, nodes@[i as int].1@));
            assert(nv.skip(i as int).first() == nv[i as int]);
        }
        if nodes[i].0 == id {
            proof {
                assert(nv[i as int].0 == id);
                assert(node_for(nv.skip(i as int), id) == nv[i as int].1);
                assert(node_for(nv, id) == nodes@[i as int].1@);
            }
            return Some(&nodes[i].1);
        }
        proof {
            assert(nv.skip(i as int).drop_first() =~= nv.skip(i as int + 1));
        }
        i += 1;
    }
    None
}

impl Program {
    /// A program with no steps: executing it does nothing.
    pub fn empty() -> (r: Program)
        ensures
            r@ == Seq::<StepV>::empty(),
    {
        let r = Program { steps: Vec::new() };
        proof {
            assert(r@ =~= Seq::<StepV>::empty());
        }
        r
    }

    /// The number of steps to evaluate the program.
    pub fn steps(&self) -> (n: usize)
        ensures
            n == self@.len(),
    {
        self.steps.len()
    }

    /// Assemble a program from materialized nodes and their connections:
    /// order the nodes topologically and give each its wired inputs and
    /// outputs. Fails exactly when the graph admits no topological order.
    pub fn new(nodes: &Vec<(u32, RuntimeNode)>, connections: &Vec<crate::graph::Connection>) -> (r:
        Result<Program, ()>)
        requires
            nodes_ids(rnodes_view(nodes@)).no_duplicates(),
            forall|k: int|
                0 <= k < crate::graph::conns_view(connections@).len() ==> nodes_ids(
                    rnodes_view(nodes@),
                ).contains(#[trigger] crate::graph::conns_view(connections@)[k].0.0) && nodes_ids(
                    rnodes_view(nodes@),
                ).contains(crate::graph::conns_view(connections@)[k].1.0),
        ensures
            match r {
                Ok(p) => exists|order: Seq<u32>|
                    crate::toposort::is_topo_order(
                        order,
                        nodes_ids(rnodes_view(nodes@)),
                        crate::graph::conns_view(connections@),
                    ) && p@ == steps_from(
                        order,
                        rnodes_view(nodes@),
                        crate::graph::conns_view(connections@),
                    ),
                Err(_) => !exists|order: Seq<u32>|
                    crate::toposort::is_topo_order(
                        order,
                        nodes_ids(rnodes_view(nodes@)),
                        crate::graph::conns_view(connections@),
                    ),
            },
    {
        let ghost nv = rnodes_view(nodes@);
        let ghost cv = crate::graph::conns_view(connections@);
        let mut ids: Vec<u32> = Vec::new();
        let mut i: usize = 0;
        proof {
            assert(ids@ =~= nodes_ids(nv).take(0));
        }
        while i < nodes.len()
            invariant
                0 <= i <= nodes@.len(),
                nv == rnodes_view(nodes@),
                ids@ == nodes_ids(nv).take(i as int),
            decreases nodes@.len() - i,
        {
            ids.push(nodes[i].0);
            proof {
                assert(nv[i as int] == (nodes@[i as int].0, nodes@[i as int].1@));
                assert(nodes_ids(nv)[i as int] == nv[i as int].0);
                assert(ids@ =~= nodes_ids(nv).take(i as int + 1));
            }
            i += 1;
        }
        proof {
            assert(nodes_ids(nv).take(nodes@.len() as int) =~= nodes_ids(nv));
        }

        let order = match crate::toposort::topo_sort(&ids, connections) {
            Ok(order) => order,
            Err(_) => {
                return Err(());
            },
        };

        let mut steps: Vec<Step> = Vec::new();
        let mut k: usize = 0;
        proof {
            assert(steps@.map_values(|s: Step| s@) =~= steps_from(order@, nv, cv).take(0));
        }
        while k < order.len()
            invariant
                0 <= k <= order@.len(),
                nv == rnodes_view(nodes@),
                cv == crate::graph::conns_view(connections@),
                nodes_ids(nv).no_duplicates(),
                crate::toposort::is_topo_order(order@, nodes_ids(nv), cv),
                steps@.map_values(|s: Step| s@) == steps_from(order@, nv, cv).take(k as int),
            decreases order@.len() - k,
        {
            let id = order[k];
            proof {
                assert(order@[k as int] == id);
                assert(order@.contains(id));
                assert(nodes_ids(nv).contains(id));
                let j = choose|j: int| 0 <= j < nodes_ids(nv).len() && nodes_ids(nv)[j] == id;
                assert(nv[j].0 == id);
            }
            let node = match find_node(nodes, id) {
                Some(nd) => dup_runtime_node(nd),
                None => {
                    proof {
                        assert(false);
                    }
                    RuntimeNode::IsNull
                },
            };
            let incoming = collect_incoming(connections, id);
            let outputs = crate::graph::collect_out_slots(connections, id);
            let ghost prev = steps@.map_values(|s: Step| s@);
            let st = Step { id, incoming, outputs, node };
            proof {
                assert(st@ == steps_from(order@, nv, cv)[k as int]);
            }
            steps.push(st);
            proof {
                assert(steps@.map_values(|s: Step| s@) =~= prev.push(
                    steps_from(order@, nv, cv)[k as int],
                ));
                assert(steps_from(order@, nv, cv).take(k as int + 1).drop_last() =~= steps_from(
                    order@,
                    nv,
                    cv,
                ).take(k as int));
                assert(steps@.map_values(|s: Step| s@) =~= steps_from(order@, nv, cv).take(
                    k as int + 1,
                ));
            }
            k += 1;
        }
        proof {
            assert(steps_from(order@, nv, cv).take(order@.len() as int) =~= steps_from(
                order@,
                nv,
                cv,
            ));
        }
        let p = Program { steps };
        proof {
            assert(p@ == steps_from(order@, nv, cv));
        }
        Ok(p)
    }

    /// Execute the program over a snapshot of program inputs, yielding the
    /// program outputs; node states advance as each step runs.
    pub fn execute(&mut self, program_input: &AssocMap<ValueId, Value>) -> (r: Result<
        AssocMap<ValueId, Value>,
        ExecError,
    >)
        ensures
            final(self)@ == run_program(old(self)@, program_input@).steps,
            match r {
                Ok(out) => run_program(old(self)@, program_input@).err is None && out@
                    == run_program(old(self)@, program_input@).out,
                Err(e) => run_program(old(self)@, program_input@).err == Some(e@),
            },
    {
        let ghost orig = self@;
        let ghost pin = program_input@;
        let mut env: AssocMap<SlotRef, Value> = AssocMap::new();
        let mut out: AssocMap<ValueId, Value> = AssocMap::new();
        let mut i: usize = 0;
        let n = self.steps.len();
        proof {
            assert(self@.len() == n);
            assert(run_steps(self@, pin, 0, env@, out@) == run_program(orig, pin));
        }
        while i < n
            invariant
                0 <= i <= n,
                n == self.steps@.len(),
                pin == program_input@,
                orig == old(self)@,
                run_steps(self@, pin, i as int, env@, out@) == run_program(orig, pin),
            decreases n - i,
        {
            let ghost pre_steps = self@;
            let ghost pre_env = env@;
            let ghost pre_out = out@;
            proof {
                assert(pre_steps[i as int] == self.steps@[i as int]@);
            }
            let res = run_step(&mut self.steps[i], &mut env, program_input, &mut out);
            proof {
                let sr = run_node_spec(pre_steps[i as int], pre_env, pin);
                match sr {
                    StepResV::Fail(e) => {
                        assert(self@ =~= pre_steps);
                        assert(run_steps(pre_steps, pin, i as int, pre_env, pre_out)
                            == (ProgResV { out: pre_out, steps: pre_steps, err: Some(e) }));
                    },
                    StepResV::Done { writes, pout, node } => {
                        let st = pre_steps[i as int];
                        let steps2 = pre_steps.update(
                            i as int,
                            StepV { id: st.id, incoming: st.incoming, outputs: st.outputs, node },
                        );
                        assert(self@ =~= steps2);
                        assert(run_steps(pre_steps, pin, i as int, pre_env, pre_out) == run_steps(
                            steps2,
                            pin,
                            i as int + 1,
                            pre_env + writes,
                            match pout {
                                Some(p) => pre_out.push(p),
                                None => pre_out,
                            },
                        ));
                    },
                }
            }
            match res {
                Err(e) => {
                    proof {
                        let sr = run_node_spec(pre_steps[i as int], pre_env, pin);
                        assert(sr is Fail);
                        assert(run_program(orig, pin) == (ProgResV {
                            out: pre_out,
                            steps: pre_steps,
                            err: Some(sr->Fail_0),
                        }));
                        assert(self@ == pre_steps);
                        assert(e@ == sr->Fail_0);
                    }
                    return Err(e);
                },
                Ok(()) => {},
            }
            i += 1;
        }
        proof {
            assert(self@.len() == n);
            assert(run_steps(self@, pin, n as int, env@, out@) == (ProgResV {
                out: out@,
                steps: self@,
                err: None,
            }));
        }
        Ok(out)
    }
}

/// Execution is pure: equal programs and equal input snapshots yield equal
/// outputs, equal errors, and equal node-state transitions.
pub proof fn lemma_execute_pure(s1: Seq<StepV>, s2: Seq<StepV>, p1: PinT, p2: PinT)
    requires
        s1 == s2,
        p1 == p2,
    ensures
        run_program(s1, p1) == run_program(s2, p2),
{
}

/// Boolean inversion is an involution on booleans, and keeps `Null` fixed.
pub proof fn lemma_not_involution(b: bool)
    ensures
        not_val(not_val(JsonV::Bool(b))) == JsonV::Bool(b),
        not_val(JsonV::Null) == JsonV::Null,
{
}

/// A set latch holds: while its state is high and no reset arrives, the
/// step emits `true`, whatever the input.
pub proof fn lemma_latch_holds(st: StepV, env: EnvT, pin: PinT)
    requires
        st.node == NodeRV::Latch(true),
        val_or(st, env, "reset"@, JsonV::Bool(false)) != JsonV::Bool(true),
    ensures
        run_node_spec(st, env, pin) == (StepResV::Done {
            writes: seq![((st.id, "result"@), JsonV::Bool(true))],
            pout: None,
            node: NodeRV::Latch(val_or(st, env, "input"@, JsonV::Bool(false)) == JsonV::Bool(true)),
        }),
{
}

/// A true input sets the latch: the step emits `true` and the state goes
/// high.
pub proof fn lemma_latch_set(st: StepV, env: EnvT, pin: PinT)
    requires
        st.node is Latch,
        val_or(st, env, "input"@, JsonV::Bool(false)) == JsonV::Bool(true),
        val_or(st, env, "reset"@, JsonV::Bool(false)) != JsonV::Bool(true),
    ensures
        run_node_spec(st, env, pin) == (StepResV::Done {
            writes: seq![((st.id, "result"@), JsonV::Bool(true))],
            pout: None,
            node: NodeRV::Latch(true),
        }),
{
}

/// A reset clears the latch: the step emits exactly whether the input is
/// `true`, and the state follows the input.
pub proof fn lemma_latch_reset(st: StepV, env: EnvT, pin: PinT)
    requires
        st.node is Latch,
        val_or(st, env, "reset"@, JsonV::Bool(false)) == JsonV::Bool(true),
    ensures
        run_node_spec(st, env, pin) == (StepResV::Done {
            writes: seq![
                (
                    (st.id, "result"@),
                    JsonV::Bool(val_or(st, env, "input"@, JsonV::Bool(false)) == JsonV::Bool(true)),
                ),
            ],
            pout: None,
            node: NodeRV::Latch(
                val_or(st, env, "input"@, JsonV::Bool(false)) == JsonV::Bool(true),
            ),
        }),
{
}

/// One true pulse flips a toggle.
pub proof fn lemma_toggle_pulse(st: StepV, env: EnvT, pin: PinT)
    requires
        st.node is Toggle,
        has_input(st, "input"@),
        input_vals(st, env, "input"@)[0] == JsonV::Bool(true),
    ensures
        run_node_spec(st, env, pin) == (StepResV::Done {
            writes: seq![((st.id, "result"@), JsonV::Bool(!st.node->Toggle_0))],
            pout: None,
            node: NodeRV::Toggle(!st.node->Toggle_0),
        }),
{
}

/// Two consecutive true pulses return a toggle to its original state.
pub proof fn lemma_toggle_twice(st1: StepV, env1: EnvT, pin1: PinT, st2: StepV, env2: EnvT, pin2: PinT)
    requires
        st1.node is Toggle,
        has_input(st1, "input"@),
        input_vals(st1, env1, "input"@)[0] == JsonV::Bool(true),
        run_node_spec(st1, env1, pin1) matches StepResV::Done { node, .. } && st2.node == node,
        has_input(st2, "input"@),
        input_vals(st2, env2, "input"@)[0] == JsonV::Bool(true),
    ensures
        run_node_spec(st2, env2, pin2) matches StepResV::Done { node, .. } && node == st1.node,
{
    lemma_toggle_pulse(st1, env1, pin1);
    lemma_toggle_pulse(st2, env2, pin2);
}

/// The identity graph round-trips any value: a device wired straight into
/// the target yields exactly the value that was fed in.
pub proof fn lemma_identity_round_trip(d: Seq<char>, f: Seq<char>, v: JsonV)
    ensures
        ({
            let dev = StepV {
                id: 1,
                incoming: Seq::empty(),
                outputs: seq![f],
                node: NodeRV::Device(d),
            };
            let tgt = StepV {
                id: 0,
                incoming: seq![((1u32, f), f)],
                outputs: Seq::empty(),
                node: NodeRV::Target((d, f)),
            };
            let res = run_program(seq![dev, tgt], seq![(((d, f), v))]);
            res.err is None && res.out == seq![(((d, f), v))]
        }),
{
    let dev = StepV { id: 1, incoming: Seq::empty(), outputs: seq![f], node: NodeRV::Device(d) };
    let tgt = StepV {
        id: 0,
        incoming: seq![((1u32, f), f)],
        outputs: Seq::empty(),
        node: NodeRV::Target((d, f)),
    };
    let pin: PinT = seq![(((d, f), v))];
    let steps = seq![dev, tgt];

    // step one: the device reads its one wired output from the input
    assert(lookup(pin, (d, f)) == Some(v)) by {
        assert(pin.last() == ((d, f), v));
    }
    let outs = dev.outputs;
    assert(outs[0] == f);
    assert(device_run(1, d, outs, pin, 1) == Ok::<EnvT, ErrV>(Seq::empty()));
    assert(device_run(1, d, outs, pin, 0) == Ok::<EnvT, ErrV>(seq![(((1u32, f), v))])) by {
        assert(seq![(((1u32, f), v))] + Seq::<((u32, Seq<char>), JsonV)>::empty() =~= seq![
            (((1u32, f), v)),
        ]);
    }
    let writes: EnvT = seq![(((1u32, f), v))];
    assert(run_node_spec(dev, Seq::empty(), pin) == (StepResV::Done {
        writes,
        pout: None,
        node: dev.node,
    }));

    let steps1 = steps.update(0, StepV { id: dev.id, incoming: dev.incoming, outputs: dev.outputs, node: dev.node });
    assert(steps1 =~= steps);
    let env1: EnvT = Seq::empty() + writes;
    assert(env1 =~= writes);

    // step two: the target reads the device's output and emits it
    assert(slot_sources(tgt.incoming, f, 1) == seq![(1u32, f)]) by {
        assert(tgt.incoming[0] == ((1u32, f), f));
        assert(slot_sources(tgt.incoming, f, 0) =~= Seq::<(u32, Seq<char>)>::empty());
        assert(Seq::<(u32, Seq<char>)>::empty().push((1u32, f)) =~= seq![(1u32, f)]);
    }
    assert(has_input(tgt, f));
    assert(lookup(env1, (1u32, f)) == Some(v)) by {
        assert(env1.last() == ((1u32, f), v));
    }
    assert(input_vals(tgt, env1, f) == seq![v]) by {
        assert(source_vals(env1, seq![(1u32, f)]) =~= seq![v]);
    }
    assert(val_or(tgt, env1, f, JsonV::Null) == v);
    assert(run_node_spec(tgt, env1, pin) == (StepResV::Done {
        writes: Seq::<((u32, Seq<char>), JsonV)>::empty(),
        pout: Some(((d, f), v)),
        node: tgt.node,
    }));

    let steps2 = steps1.update(1, StepV { id: tgt.id, incoming: tgt.incoming, outputs: tgt.outputs, node: tgt.node });
    assert(steps2 =~= steps1);
    let out2: PinT = Seq::empty().push(((d, f), v));
    assert(out2 =~= seq![(((d, f), v))]);

    // chain the two unfoldings of the interpreter
    assert(steps[0] == dev && steps[1] == tgt);
    assert(steps1[1] == tgt);
    assert(run_steps(steps, pin, 0, Seq::empty(), Seq::empty()) == run_steps(
        steps1,
        pin,
        1,
        Seq::empty() + writes,
        Seq::empty(),
    ));
    assert(Seq::<((u32, Seq<char>), JsonV)>::empty() + writes =~= env1);
    assert(run_steps(steps1, pin, 1, env1, Seq::empty()) == run_steps(
        steps2,
        pin,
        2,
        env1 + Seq::<((u32, Seq<char>), JsonV)>::empty(),
        out2,
    ));
    assert(run_steps(steps2, pin, 2, env1 + Seq::<((u32, Seq<char>), JsonV)>::empty(), out2)
        == (ProgResV { out: out2, steps: steps2, err: None }));
    assert(run_program(steps, pin).out == out2);
    assert(run_program(steps, pin).err is None);
}

} // verus!
