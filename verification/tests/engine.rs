use rome::automation::CompileError;
use rome::graph::{Automation, CompareOp, Connection, Node, Properties, SlotRef};
use rome::json::{eq_value, Value};
use rome::program::{ExecError, Program, RuntimeNode};
use rome::amap::AssocMap;
use rome::ValueId;

fn node(id: u32, properties: Properties) -> Node {
    Node { id, position: (0, 0), properties }
}

fn conn(f: u32, fs: &str, t: u32, ts: &str) -> Connection {
    Connection::new(SlotRef::new(f, fs), SlotRef::new(t, ts))
}

fn graph(nodes: Vec<Node>, connections: Vec<Connection>) -> Automation {
    Automation { counter: 100, nodes, connections, defaults: vec![] }
}

fn input_map(entries: Vec<(&str, &str, Value)>) -> AssocMap<ValueId, Value> {
    let mut m = AssocMap::new();
    for (d, f, v) in entries {
        m.insert(ValueId::new(d, f), v);
    }
    m
}

fn output_of(out: &AssocMap<ValueId, Value>, d: &str, f: &str) -> Value {
    match out.get(&ValueId::new(d, f)) {
        Some(v) => rome::json::dup_value(v),
        None => panic!("missing output {}/{}", d, f),
    }
}

#[test]
fn mod_can_compile_automation() {
    let nodes = vec![
        node(0, Properties::Target),
        node(2, Properties::Device("amk".into())),
        node(4, Properties::Device("two".into())),
        node(7, Properties::Or),
    ];
    let connections = vec![
        conn(2, "state", 7, "input"),
        conn(2, "state_two", 7, "input"),
        conn(4, "state", 7, "input"),
        conn(7, "result", 0, "state"),
    ];
    let auto = Automation { counter: 0, nodes, connections, defaults: vec![] };

    let target = ValueId::new("", "state");
    let (mut program, _deps) = auto.compile(&target).unwrap();

    let input = input_map(vec![
        ("amk", "state", Value::Bool(true)),
        ("amk", "state_two", Value::Bool(false)),
        ("two", "state", Value::Bool(false)),
    ]);

    let out = program.execute(&input).unwrap();
    assert!(eq_value(&output_of(&out, "", "state"), &Value::Bool(true)));
}

#[test]
fn automation_can_compile_automation() {
    // the same wiring, driven through the full compile and execute path
    let nodes = vec![
        node(0, Properties::Target),
        node(2, Properties::Device("amk".into())),
        node(4, Properties::Device("two".into())),
        node(7, Properties::Or),
    ];
    let connections = vec![
        conn(2, "state", 7, "input"),
        conn(2, "state_two", 7, "input"),
        conn(4, "state", 7, "input"),
        conn(7, "result", 0, "state"),
    ];
    let auto = Automation { counter: 0, nodes, connections, defaults: vec![] };
    let target = ValueId::new("", "state");
    let (mut program, deps) = auto.compile(&target).unwrap();
    assert_eq!(deps.len(), 3);
    let input = input_map(vec![
        ("amk", "state", Value::Bool(true)),
        ("amk", "state_two", Value::Bool(false)),
        ("two", "state", Value::Bool(false)),
    ]);
    program.execute(&input).unwrap();
}

#[test]
fn zero_targets_is_rejected() {
    let auto = graph(vec![node(1, Properties::Device("d".into()))], vec![]);
    let err = auto.compile(&ValueId::new("d", "state")).unwrap_err();
    assert_eq!(err, CompileError::NotExactlyOneTarget);
    assert_eq!(err.message(), "Programs requires exactly one Target");
}

#[test]
fn two_targets_are_rejected() {
    let auto = graph(
        vec![node(0, Properties::Target), node(1, Properties::Target)],
        vec![],
    );
    let err = auto.compile(&ValueId::new("d", "state")).unwrap_err();
    assert_eq!(err, CompileError::NotExactlyOneTarget);
}

#[test]
fn cycle_is_rejected() {
    // A and B feed each other, and B also feeds the target
    let auto = graph(
        vec![
            node(0, Properties::Target),
            node(1, Properties::And),
            node(2, Properties::And),
            node(3, Properties::Device("d1".into())),
        ],
        vec![
            conn(1, "result", 2, "input"),
            conn(2, "result", 1, "input"),
            conn(2, "result", 0, "state"),
            conn(3, "state", 1, "input"),
        ],
    );
    let err = auto.compile(&ValueId::new("d1", "state")).unwrap_err();
    assert_eq!(err, CompileError::NotAcyclic);
    assert_eq!(err.message(), "Program is not acyclic");
}

#[test]
fn duplicate_device_nodes_merge() {
    // two nodes for the same device with distinct outgoing edges
    let auto = graph(
        vec![
            node(0, Properties::Target),
            node(1, Properties::Device("d1".into())),
            node(2, Properties::Device("d1".into())),
            node(3, Properties::Or),
        ],
        vec![
            conn(1, "state", 3, "input"),
            conn(2, "other", 3, "input"),
            conn(3, "result", 0, "any"),
        ],
    );
    let (mut program, deps) = auto.compile(&ValueId::new("virt", "any")).unwrap();
    // one device node, the or gate, and the target survive
    assert_eq!(program.steps(), 3);
    // the union of the outgoing edges becomes the dependency set
    let mut ids: Vec<String> = deps
        .iter()
        .map(|v| format!("{}/{}", v.device, v.feature))
        .collect();
    ids.sort();
    assert_eq!(ids, vec!["d1/other".to_string(), "d1/state".to_string()]);

    let input = input_map(vec![
        ("d1", "state", Value::Bool(false)),
        ("d1", "other", Value::Bool(true)),
    ]);
    let out = program.execute(&input).unwrap();
    assert!(eq_value(&output_of(&out, "virt", "any"), &Value::Bool(true)));
}

#[test]
fn empty_graph_compiles_to_empty_program() {
    let auto = graph(vec![node(0, Properties::Target)], vec![]);
    let (mut program, deps) = auto.compile(&ValueId::new("d", "f")).unwrap();
    assert_eq!(program.steps(), 0);
    assert_eq!(deps.len(), 0);
    let out = program.execute(&input_map(vec![])).unwrap();
    assert_eq!(out.len(), 0);
}

#[test]
fn no_dependencies_compiles_to_empty_program() {
    // a value wired into the target, but no device anywhere
    let auto = graph(
        vec![node(0, Properties::Target), node(1, Properties::Value(Value::Bool(true)))],
        vec![conn(1, "value", 0, "state")],
    );
    let (program, deps) = auto.compile(&ValueId::new("d", "state")).unwrap();
    assert_eq!(program.steps(), 0);
    assert_eq!(deps.len(), 0);
}

#[test]
fn default_values_feed_unwired_inputs() {
    // an equals node with its `other` input supplied by a default
    let auto = Automation {
        counter: 50,
        nodes: vec![
            node(0, Properties::Target),
            node(1, Properties::Device("d1".into())),
            node(
                2,
                Properties::Equals { kind: "any".into(), meta: None },
            ),
        ],
        connections: vec![conn(1, "x", 2, "input"), conn(2, "result", 0, "eq")],
        defaults: vec![(SlotRef::new(2, "other"), Value::Int(7))],
    };
    let (mut program, _) = auto.compile(&ValueId::new("v", "eq")).unwrap();
    let out = program
        .execute(&input_map(vec![("d1", "x", Value::Int(7))]))
        .unwrap();
    assert!(eq_value(&output_of(&out, "v", "eq"), &Value::Bool(true)));
    let out = program
        .execute(&input_map(vec![("d1", "x", Value::Int(8))]))
        .unwrap();
    assert!(eq_value(&output_of(&out, "v", "eq"), &Value::Bool(false)));
}

fn gate_program(gate: RuntimeNode, inputs: Vec<Value>) -> Value {
    // target(0) <- gate(1) <- constant value nodes (10, 11, ...)
    let mut nodes: Vec<(u32, RuntimeNode)> = vec![
        (0, RuntimeNode::Target(ValueId::new("v", "r"))),
        (1, gate),
    ];
    let mut conns = vec![conn(1, "result", 0, "r")];
    for (i, v) in inputs.into_iter().enumerate() {
        let id = 10 + i as u32;
        nodes.push((id, RuntimeNode::Value(v)));
        conns.push(conn(id, "value", 1, "input"));
    }
    let mut program = Program::new(&nodes, &conns).unwrap();
    let out = program.execute(&input_map(vec![])).unwrap();
    output_of(&out, "v", "r")
}

#[test]
fn boolean_gates_reduce() {
    let t = || Value::Bool(true);
    let f = || Value::Bool(false);
    assert!(eq_value(&gate_program(RuntimeNode::And, vec![t(), t(), t()]), &t()));
    assert!(eq_value(&gate_program(RuntimeNode::And, vec![t(), f()]), &f()));
    assert!(eq_value(&gate_program(RuntimeNode::Or, vec![f()]), &f()));
    assert!(eq_value(&gate_program(RuntimeNode::Xor, vec![t(), t()]), &f()));
    assert!(eq_value(&gate_program(RuntimeNode::Xor, vec![t(), f(), f()]), &t()));
}

#[test]
fn not_inverts_booleans_and_nulls_everything_else() {
    let t = Value::Bool(true);
    let f = Value::Bool(false);
    assert!(eq_value(&gate_program(RuntimeNode::Not, vec![t]), &Value::Bool(false)));
    assert!(eq_value(&gate_program(RuntimeNode::Not, vec![f]), &Value::Bool(true)));
    assert!(eq_value(&gate_program(RuntimeNode::Not, vec![Value::Null]), &Value::Null));
    // double inversion restores the original
    let once = gate_program(RuntimeNode::Not, vec![Value::Bool(true)]);
    assert!(eq_value(&gate_program(RuntimeNode::Not, vec![once]), &Value::Bool(true)));
}

#[test]
fn is_null_detects_null() {
    assert!(eq_value(&gate_program(RuntimeNode::IsNull, vec![Value::Null]), &Value::Bool(true)));
    assert!(eq_value(
        &gate_program(RuntimeNode::IsNull, vec![Value::Int(3)]),
        &Value::Bool(false)
    ));
}

#[test]
fn compare_orders_numbers() {
    fn cmp(op: CompareOp, a: i64, b: i64) -> Value {
        let nodes: Vec<(u32, RuntimeNode)> = vec![
            (0, RuntimeNode::Target(ValueId::new("v", "r"))),
            (1, RuntimeNode::Compare(op)),
            (10, RuntimeNode::Value(Value::Int(a))),
            (11, RuntimeNode::Value(Value::Int(b))),
        ];
        let conns = vec![
            conn(10, "value", 1, "input"),
            conn(11, "value", 1, "other"),
            conn(1, "result", 0, "r"),
        ];
        let mut program = Program::new(&nodes, &conns).unwrap();
        let out = program.execute(&input_map(vec![])).unwrap();
        output_of(&out, "v", "r")
    }
    assert!(eq_value(&cmp(CompareOp::Gt, 3, 2), &Value::Bool(true)));
    assert!(eq_value(&cmp(CompareOp::Lt, 3, 2), &Value::Bool(false)));
    assert!(eq_value(&cmp(CompareOp::Eq, 5, 5), &Value::Bool(true)));
    assert!(eq_value(&cmp(CompareOp::Ge, 2, 2), &Value::Bool(true)));
    assert!(eq_value(&cmp(CompareOp::Le, 2, 3), &Value::Bool(true)));
}

fn stateful_program(gate: RuntimeNode) -> Program {
    // target(0) <- gate(1) <- device inputs for `input` and `reset`
    let nodes: Vec<(u32, RuntimeNode)> = vec![
        (0, RuntimeNode::Target(ValueId::new("v", "r"))),
        (1, gate),
        (2, RuntimeNode::Device("d".into())),
    ];
    let conns = vec![
        conn(2, "in", 1, "input"),
        conn(2, "rst", 1, "reset"),
        conn(1, "result", 0, "r"),
    ];
    Program::new(&nodes, &conns).unwrap()
}

fn run_latch(program: &mut Program, input: bool, reset: bool) -> Value {
    let out = program
        .execute(&input_map(vec![
            ("d", "in", Value::Bool(input)),
            ("d", "rst", Value::Bool(reset)),
        ]))
        .unwrap();
    output_of(&out, "v", "r")
}

#[test]
fn latch_holds_until_reset() {
    let mut program = stateful_program(RuntimeNode::Latch(false));
    // set once: stays true over later false inputs
    assert!(eq_value(&run_latch(&mut program, true, false), &Value::Bool(true)));
    assert!(eq_value(&run_latch(&mut program, false, false), &Value::Bool(true)));
    // after the held step with a false input, the latch drains
    assert!(eq_value(&run_latch(&mut program, false, false), &Value::Bool(false)));
    // reset makes the output follow the input again
    assert!(eq_value(&run_latch(&mut program, true, false), &Value::Bool(true)));
    assert!(eq_value(&run_latch(&mut program, false, true), &Value::Bool(false)));
}

#[test]
fn toggle_flips_on_true_pulses() {
    let nodes: Vec<(u32, RuntimeNode)> = vec![
        (0, RuntimeNode::Target(ValueId::new("v", "r"))),
        (1, RuntimeNode::Toggle(false)),
        (2, RuntimeNode::Device("d".into())),
    ];
    let conns = vec![conn(2, "in", 1, "input"), conn(1, "result", 0, "r")];
    let mut program = Program::new(&nodes, &conns).unwrap();
    let pulse = |p: &mut Program, b: bool| {
        let out = p
            .execute(&input_map(vec![("d", "in", Value::Bool(b))]))
            .unwrap();
        output_of(&out, "v", "r")
    };
    // two consecutive true pulses net to the original state
    assert!(eq_value(&pulse(&mut program, true), &Value::Bool(true)));
    assert!(eq_value(&pulse(&mut program, true), &Value::Bool(false)));
    // a false pulse leaves the state alone
    assert!(eq_value(&pulse(&mut program, false), &Value::Bool(false)));
}

#[test]
fn device_fails_on_missing_program_input() {
    let nodes: Vec<(u32, RuntimeNode)> = vec![
        (0, RuntimeNode::Target(ValueId::new("v", "r"))),
        (2, RuntimeNode::Device("d".into())),
    ];
    let conns = vec![conn(2, "in", 0, "r")];
    let mut program = Program::new(&nodes, &conns).unwrap();
    match program.execute(&input_map(vec![])) {
        Err(ExecError::MissingInput { id }) => {
            assert_eq!(id, ValueId::new("d", "in"));
        },
        other => panic!("expected a missing-input failure, got {:?}", other.is_ok()),
    }
}

#[test]
fn gate_fails_without_wired_input() {
    // an `and` gate whose `input` slot nothing feeds
    let nodes: Vec<(u32, RuntimeNode)> = vec![
        (0, RuntimeNode::Target(ValueId::new("v", "r"))),
        (1, RuntimeNode::And),
    ];
    let conns = vec![conn(1, "result", 0, "r")];
    let mut program = Program::new(&nodes, &conns).unwrap();
    match program.execute(&input_map(vec![])) {
        Err(ExecError::NoInput { node, name }) => {
            assert_eq!(node, 1);
            assert_eq!(name, "input");
        },
        other => panic!("expected a no-input failure, got {:?}", other.is_ok()),
    }
}

#[test]
fn connections_canonicalize_ascending() {
    let input = vec![
        conn(2, "a", 3, "input"),
        conn(1, "b", 3, "input"),
        conn(1, "a", 3, "input"),
        conn(2, "a", 3, "input"),
    ];
    let out = rome::graph::unique_connections(&input);
    let flat: Vec<(u32, String, u32, String)> = out
        .iter()
        .map(|c| (c.from.node, c.from.name.clone(), c.to.node, c.to.name.clone()))
        .collect();
    assert_eq!(
        flat,
        vec![
            (1, "a".to_string(), 3, "input".to_string()),
            (1, "b".to_string(), 3, "input".to_string()),
            (2, "a".to_string(), 3, "input".to_string()),
        ]
    );
}

#[test]
fn first_value_reads_follow_canonical_order() {
    // both device outputs feed the inverter; the canonical ascending order
    // decides which one a single-value node reads first
    let auto = graph(
        vec![
            node(0, Properties::Target),
            node(1, Properties::Not),
            node(2, Properties::Device("d".into())),
        ],
        vec![
            conn(2, "b", 1, "input"),
            conn(2, "a", 1, "input"),
            conn(1, "result", 0, "r"),
        ],
    );
    let (mut program, _) = auto.compile(&ValueId::new("v", "r")).unwrap();
    let out = program
        .execute(&input_map(vec![
            ("d", "a", Value::Bool(true)),
            ("d", "b", Value::Bool(false)),
        ]))
        .unwrap();
    // slot "a" sorts first, so the inverter reads true and emits false
    assert!(eq_value(&output_of(&out, "v", "r"), &Value::Bool(false)));
}

#[test]
fn execute_is_deterministic() {
    let build = || {
        let auto = graph(
            vec![
                node(0, Properties::Target),
                node(1, Properties::Device("d1".into())),
            ],
            vec![conn(1, "state", 0, "state")],
        );
        auto.compile(&ValueId::new("d1", "state")).unwrap().0
    };
    let input = || input_map(vec![("d1", "state", Value::Int(42))]);
    let mut p1 = build();
    let mut p2 = build();
    let o1 = output_of(&p1.execute(&input()).unwrap(), "d1", "state");
    let o2 = output_of(&p2.execute(&input()).unwrap(), "d1", "state");
    assert!(eq_value(&o1, &o2));
}
