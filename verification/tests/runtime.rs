use rome::actors::{ActorTable, ExitReason};
use rome::graph::{Automation, Connection, Node, Properties, SlotRef};
use rome::json::{eq_value, Value};
use rome::store::{handle_push, Event, FeatureValue, Topic, ValueStore};
use rome::worker::{has_job, TaskRegistry};
use rome::amap::AssocMap;
use rome::ValueId;

#[test]
fn set_current_suppresses_identical_writes() {
    let mut store = ValueStore::new();
    let key = ValueId::new("d1", "state");
    let sub = store.subscribe();

    assert!(store.set_current(&key, FeatureValue::Reading(Value::Bool(true))));
    assert!(!store.set_current(&key, FeatureValue::Reading(Value::Bool(true))));

    // exactly one change event was observed
    match store.incoming.recv(sub) {
        Some(Event::Update(id, v)) => {
            assert_eq!(id, key);
            assert!(v.same(&FeatureValue::Reading(Value::Bool(true))));
        },
        _ => panic!("expected one update event"),
    }
    assert!(store.incoming.recv(sub).is_none());

    // a different value is stored and announced again
    assert!(store.set_current(&key, FeatureValue::Reading(Value::Bool(false))));
    assert!(store.incoming.recv(sub).is_some());
}

#[test]
fn current_defaults_to_null() {
    let mut store = ValueStore::new();
    let v = store.current(&ValueId::new("nope", "nothing"));
    assert!(v.same(&FeatureValue::Reading(Value::Null)));
}

#[test]
fn errors_are_stored_per_value() {
    let mut store = ValueStore::new();
    let key = ValueId::new("d1", "state");
    assert!(store.set_current(&key, FeatureValue::Failure("decode failed".into())));
    let v = store.current(&key);
    assert!(v.same(&FeatureValue::Failure("decode failed".into())));
}

#[test]
fn dropped_subscription_receives_nothing() {
    let mut topic = Topic::new();
    let a = topic.subscribe();
    let b = topic.subscribe();
    topic.publish(Event::DeviceChanged("d1".into()));
    topic.unsubscribe(a);
    topic.publish(Event::DeviceChanged("d2".into()));

    // the freed slot buffers nothing, not even what it had
    assert!(topic.recv(a).is_none());
    // the live slot saw both, in publication order
    match topic.recv(b) {
        Some(Event::DeviceChanged(d)) => assert_eq!(d, "d1"),
        _ => panic!("expected the first event"),
    }
    match topic.recv(b) {
        Some(Event::DeviceChanged(d)) => assert_eq!(d, "d2"),
        _ => panic!("expected the second event"),
    }
    assert!(topic.recv(b).is_none());
}

#[test]
fn virtual_push_loops_back() {
    let mut store = ValueStore::new();
    let sub = store.subscribe();
    let key = ValueId::new("dev", "virtual_x");
    assert!(handle_push(&mut store, &key, Value::Int(9)));
    // the loopback stored the value and announced the change
    let v = store.current(&key);
    assert!(v.same(&FeatureValue::Reading(Value::Int(9))));
    match store.incoming.recv(sub) {
        Some(Event::Update(id, _)) => assert_eq!(id, key),
        _ => panic!("expected the loopback update"),
    }
}

#[test]
fn hardware_push_goes_outward() {
    let mut store = ValueStore::new();
    let out = store.push_subscribe();
    let key = ValueId::new("dev", "state");
    assert!(!handle_push(&mut store, &key, Value::Bool(true)));
    store.push(&key, Value::Bool(true));
    match store.outgoing.recv(out) {
        Some(Event::Push(id, v)) => {
            assert_eq!(id, key);
            assert!(eq_value(&v, &Value::Bool(true)));
        },
        _ => panic!("expected the push event"),
    }
}

#[test]
fn linked_actors_see_exits() {
    let mut table = ActorTable::new();
    let a = table.spawn(None, false);
    let b = table.spawn(Some(a), true);
    let c = table.spawn(Some(b), true);

    table.exit(a, &ExitReason::Error("boom".into()));
    match table.take_signal(b) {
        Some((from, ExitReason::Error(msg))) => {
            assert_eq!(from, a);
            assert_eq!(msg, "boom");
        },
        _ => panic!("the linked actor should see the exit"),
    }
    // the signal is delivered exactly once
    assert!(table.take_signal(b).is_none());

    // the cascade: the non-trapping runtime would now kill b the same way
    table.exit(b, &ExitReason::Error("exit".into()));
    match table.take_signal(c) {
        Some((from, ExitReason::Error(_))) => assert_eq!(from, b),
        _ => panic!("the transitively linked actor should see the exit"),
    }
}

#[test]
fn name_registry_frees_names_on_exit() {
    let mut table = ActorTable::new();
    let a = table.spawn(None, false);
    let name = "worker".to_string();
    table.register(&name, a);
    assert_eq!(table.lookup_name(&name), Some(a));
    table.exit(a, &ExitReason::Normal);
    assert_eq!(table.lookup_name(&name), None);
    assert!(table.is_done());
}

#[test]
fn system_links_are_one_way() {
    let mut table = ActorTable::new();
    let a = table.spawn(Some(0), false);
    // exiting the system-linked actor notifies nobody and empties the table
    table.exit(a, &ExitReason::Normal);
    assert!(table.is_done());
}

#[test]
fn worker_labels_replace() {
    let mut reg = TaskRegistry::new();
    let label = "http".to_string();
    assert!(!has_job(&reg, &label));
    assert!(!reg.start(&label));
    assert!(reg.has_task(&label));
    // starting the same label again signals the old worker
    assert!(reg.start(&label));
    reg.finish(&label);
    assert!(!has_job(&reg, &label));
}

#[test]
fn single_device_passthrough() {
    // graph: Device("d1") wired straight into Target("d1","state")
    let auto = Automation {
        counter: 10,
        nodes: vec![
            Node { id: 0, position: (0, 0), properties: Properties::Target },
            Node { id: 1, position: (0, 0), properties: Properties::Device("d1".into()) },
        ],
        connections: vec![Connection::new(SlotRef::new(1, "state"), SlotRef::new(0, "state"))],
        defaults: vec![],
    };
    let target = ValueId::new("d1", "state");
    let (mut program, deps) = auto.compile(&target).unwrap();
    assert_eq!(deps.len(), 1);

    let mut store = ValueStore::new();
    let changes = store.subscribe();
    let pushes = store.push_subscribe();

    // broker ingress writes the value; the automation task reacts
    assert!(store.set_current(&target, FeatureValue::Reading(Value::Bool(true))));
    assert!(matches!(store.incoming.recv(changes), Some(Event::Update(_, _))));

    // snapshot the dependencies and run the program
    let mut input = AssocMap::new();
    for dep in &deps {
        let v = match store.current(dep) {
            FeatureValue::Reading(v) => v,
            FeatureValue::Failure(_) => Value::Null,
        };
        input.insert(dep.clone(), v);
    }
    let out = program.execute(&input).unwrap();

    // push every program output: exactly one push of exactly the value
    let mut pushed = 0;
    for i in 0..out.len() {
        let (id, v) = out.entry_at(i);
        let id = id.clone();
        let v = rome::json::dup_value(v);
        store.push(&id, v);
        pushed += 1;
    }
    assert_eq!(pushed, 1);
    match store.outgoing.recv(pushes) {
        Some(Event::Push(id, v)) => {
            assert_eq!(id, target);
            assert!(eq_value(&v, &Value::Bool(true)));
        },
        _ => panic!("expected exactly one push"),
    }
    assert!(store.outgoing.recv(pushes).is_none());
}

#[test]
fn or_over_two_sources() {
    let auto = Automation {
        counter: 10,
        nodes: vec![
            Node { id: 0, position: (0, 0), properties: Properties::Target },
            Node { id: 1, position: (0, 0), properties: Properties::Device("a".into()) },
            Node { id: 2, position: (0, 0), properties: Properties::Device("b".into()) },
            Node { id: 3, position: (0, 0), properties: Properties::Or },
        ],
        connections: vec![
            Connection::new(SlotRef::new(1, "x"), SlotRef::new(3, "input")),
            Connection::new(SlotRef::new(2, "x"), SlotRef::new(3, "input")),
            Connection::new(SlotRef::new(3, "result"), SlotRef::new(0, "any")),
        ],
        defaults: vec![],
    };
    let target = ValueId::new("virtual:1", "any");
    let (mut program, _deps) = auto.compile(&target).unwrap();

    let mut store = ValueStore::new();
    let changes = store.subscribe();
    store.set_current(&ValueId::new("a", "x"), FeatureValue::Reading(Value::Bool(false)));
    store.set_current(&ValueId::new("b", "x"), FeatureValue::Reading(Value::Bool(false)));

    let snapshot = |store: &mut ValueStore| {
        let mut input = AssocMap::new();
        for (d, f) in [("a", "x"), ("b", "x")] {
            let id = ValueId::new(d, f);
            let v = match store.current(&id) {
                FeatureValue::Reading(v) => v,
                FeatureValue::Failure(_) => Value::Null,
            };
            input.insert(id, v);
        }
        input
    };

    let input = snapshot(&mut store);
    let out = program.execute(&input).unwrap();
    let v = out.get(&target).expect("target value");
    assert!(eq_value(v, &Value::Bool(false)));

    // drain the two initial change events
    assert!(store.incoming.recv(changes).is_some());
    assert!(store.incoming.recv(changes).is_some());

    // one source turns true: the target turns true
    assert!(store.set_current(&ValueId::new("a", "x"), FeatureValue::Reading(Value::Bool(true))));
    assert!(store.incoming.recv(changes).is_some());
    let input = snapshot(&mut store);
    let out = program.execute(&input).unwrap();
    let v = out.get(&target).expect("target value");
    assert!(eq_value(v, &Value::Bool(true)));

    // an identical update is suppressed: no new change event
    assert!(!store.set_current(&ValueId::new("a", "x"), FeatureValue::Reading(Value::Bool(true))));
    assert!(store.incoming.recv(changes).is_none());
}
