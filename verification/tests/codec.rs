use rome::crc::hash_str;
use rome::device::{Feature, ValueDirection, ValueKind};
use rome::json::{dup_value, eq_value, is_null, is_true, Value};
use rome::mqtt::MqttServerInfo;
use rome::mvec::MVec;
use rome::pipe::{error_message, frame_message, PipeAction, PipeError, PipeMessage};
use rome::store::is_virtual_feature;
use rome::zigbee::{direction_of_access, lower_case_first_char, Access};

#[test]
fn clean_up_name() {
    let test1 = rome::zigbee::clean_up_name("requested_brightness_percent");
    let test2 = rome::zigbee::clean_up_name("battery");
    let test3 = rome::zigbee::clean_up_name("");
    let test4 = rome::zigbee::clean_up_name("a");

    assert_eq!(test1, "Requested brightness percent");
    assert_eq!(test2, "Battery");
    assert_eq!(test3, "");
    assert_eq!(test4, "A");
}

#[test]
fn test_access() {
    let publish = Access(0b001);

    assert_eq!(publish.published(), true);
    assert_eq!(publish.write(), false);
    assert_eq!(publish.read(), false);

    let write = Access(0b010);

    assert_eq!(write.published(), false);
    assert_eq!(write.write(), true);
    assert_eq!(write.read(), false);

    let read = Access(0b100);

    assert_eq!(read.published(), false);
    assert_eq!(read.write(), false);
    assert_eq!(read.read(), true);

    let all = Access(0b111);

    assert_eq!(all.published(), true);
    assert_eq!(all.write(), true);
    assert_eq!(all.read(), true);

    let rw = Access(0b011);

    assert_eq!(rw.published(), true);
    assert_eq!(rw.write(), true);
    assert_eq!(rw.read(), false);
}

#[test]
fn access_to_direction() {
    assert_eq!(direction_of_access(&Access(0b001)), Ok(ValueDirection::Source));
    assert_eq!(direction_of_access(&Access(0b010)), Ok(ValueDirection::Sink));
    assert_eq!(direction_of_access(&Access(0b011)), Ok(ValueDirection::SourceSink));
    assert!(direction_of_access(&Access(0b100)).is_err());
}

#[test]
fn lowercasing_first_char() {
    assert_eq!(lower_case_first_char("Config"), "config");
    assert_eq!(lower_case_first_char(""), "");
}

#[test]
fn service_ids_are_stable() {
    // known ids of the generated transport protocol
    assert_eq!(hash_str("Zigbee2MqttService"), 0xd109);
    assert_eq!(hash_str("config"), 0xd74e);
    assert_eq!(hash_str("status"), 0x9b83);
    assert_eq!(hash_str(""), 0);
}

#[test]
fn pipe_actions_round_trip() {
    for code in 0u8..5u8 {
        let a = PipeAction::try_from(code).unwrap();
        assert_eq!(a.code(), code);
    }
    assert_eq!(PipeAction::try_from(5), Err(PipeError::InvalidAction));
    assert_eq!(PipeAction::try_from(255), Err(PipeError::InvalidAction));
}

#[test]
fn pipe_messages_decode() {
    // too short
    assert!(matches!(
        PipeMessage::try_from(vec![1, 0]),
        Err(PipeError::InvalidMessage)
    ));
    // close
    assert!(matches!(
        PipeMessage::try_from(vec![4, 0, 1]),
        Ok(PipeMessage::Close)
    ));
    // a short request
    assert!(matches!(
        PipeMessage::try_from(vec![1, 0, 1, 0]),
        Err(PipeError::InvalidRequest)
    ));
    // a server-only action from the client
    assert!(matches!(
        PipeMessage::try_from(vec![2, 0, 1]),
        Err(PipeError::ActionNotAllowed)
    ));
    // a full request
    match PipeMessage::try_from(vec![1, 0x12, 0x34, 0xd1, 0x09, 0xd7, 0x4e, 9, 9]) {
        Ok(PipeMessage::Request(q)) => {
            assert_eq!(q.channel_id, 0x1234);
            assert_eq!(q.service_id, 0xd109);
            assert_eq!(q.call_id, 0xd74e);
            assert_eq!(q.payload_slice(), &[9, 9]);
        },
        _ => panic!("expected a request"),
    }
}

#[test]
fn frames_carry_their_parts() {
    let e = error_message(0x0102, "bad");
    assert_eq!(e, vec![0u8, 1, 2, b'b', b'a', b'd']);
    let f = frame_message(PipeAction::Response, 0x0102, &vec![7, 8]);
    assert_eq!(f, vec![2u8, 1, 2, 7, 8]);
    let p = frame_message(PipeAction::Part, 3, &vec![]);
    assert_eq!(p, vec![3u8, 0, 3]);
}

fn feature(kind: ValueKind, meta: Vec<(String, Value)>) -> Feature {
    Feature {
        id: "f".into(),
        name: "F".into(),
        direction: ValueDirection::SourceSink,
        kind,
        meta,
        automate: None,
        virt: false,
    }
}

#[test]
fn validate_accepts_matching_kinds() {
    let f = feature(ValueKind::Bool, vec![]);
    assert!(eq_value(&f.validate(&Value::Bool(true)).unwrap(), &Value::Bool(true)));
    assert!(eq_value(&f.validate(&Value::Null).unwrap(), &Value::Null));
    assert_eq!(
        f.validate(&Value::Int(3)).unwrap_err(),
        "Got value of kind Number expected value of kind Bool"
    );
    assert_eq!(
        f.validate(&Value::Arr(vec![])).unwrap_err(),
        "Only descrete json values allowed, got array"
    );
    assert_eq!(
        f.validate(&Value::Obj(vec![])).unwrap_err(),
        "Only descrete json values allowed, got array"
    );

    let n = feature(ValueKind::Number, vec![]);
    assert!(eq_value(&n.validate(&Value::Int(3)).unwrap(), &Value::Int(3)));
    assert_eq!(
        n.validate(&Value::Bool(true)).unwrap_err(),
        "Got value of kind Bool expected value of kind Number"
    );

    let s = feature(ValueKind::String, vec![]);
    assert!(eq_value(
        &s.validate(&Value::Str("hi".into())).unwrap(),
        &Value::Str("hi".into())
    ));
}

#[test]
fn validate_state_against_possible() {
    let f = feature(
        ValueKind::State,
        vec![(
            "possible".to_string(),
            Value::Arr(vec![Value::Str("on".into()), Value::Str("off".into())]),
        )],
    );
    assert!(eq_value(
        &f.validate(&Value::Str("on".into())).unwrap(),
        &Value::Str("on".into())
    ));
    assert_eq!(
        f.validate(&Value::Str("dim".into())).unwrap_err(),
        "dim is not part of state set [on, off]"
    );
    // devices report an empty state as a gap: it reads as null
    assert!(eq_value(&f.validate(&Value::Str("".into())).unwrap(), &Value::Null));
    // without a possible set, nothing passes
    let bare = feature(ValueKind::State, vec![]);
    assert_eq!(
        bare.validate(&Value::Str("on".into())).unwrap_err(),
        "on is not part of state set []"
    );
    // one stray member empties the whole possible set
    let mixed = feature(
        ValueKind::State,
        vec![(
            "possible".to_string(),
            Value::Arr(vec![Value::Str("on".into()), Value::Int(1)]),
        )],
    );
    assert_eq!(
        mixed.validate(&Value::Str("on".into())).unwrap_err(),
        "on is not part of state set []"
    );
}

#[test]
fn virtual_features_are_recognized() {
    assert!(is_virtual_feature("virtual_x"));
    assert!(is_virtual_feature("virtual"));
    assert!(!is_virtual_feature("virt"));
    assert!(!is_virtual_feature("state"));
}

#[test]
fn values_compare_structurally() {
    let a = Value::Obj(vec![
        ("k".to_string(), Value::Arr(vec![Value::Int(1), Value::Null])),
        ("s".to_string(), Value::Str("x".into())),
    ]);
    let b = dup_value(&a);
    assert!(eq_value(&a, &b));
    let c = Value::Obj(vec![
        ("k".to_string(), Value::Arr(vec![Value::Int(2), Value::Null])),
        ("s".to_string(), Value::Str("x".into())),
    ]);
    assert!(!eq_value(&a, &c));
    assert!(is_true(&Value::Bool(true)));
    assert!(!is_true(&Value::Int(1)));
    assert!(is_null(&Value::Null));
}

#[test]
fn server_identity_ignores_credentials() {
    let a = MqttServerInfo::new("host".into(), 1883, None, None);
    let b = MqttServerInfo::new("host".into(), 1883, Some("user".into()), Some("pw".into()));
    let c = MqttServerInfo::new("other".into(), 1883, None, None);
    assert!(a.same_server(&b));
    assert!(!a.same_server(&c));
}

#[test]
fn arena_segments_stay_apart() {
    let mut arena: MVec<u32> = MVec::new();
    assert_eq!(arena.len(), 0);
    let first = arena.push(vec![1, 2, 3]);
    let second = arena.push(vec![]);
    let third = arena.push(vec![9]);
    assert_eq!((first, second, third), (0, 1, 2));
    assert_eq!(arena.len(), 4);
    assert_eq!(arena.range(0), (0, 3));
    assert_eq!(arena.range(1), (3, 3));
    assert_eq!(arena.range(2), (3, 4));
}

#[test]
fn direction_codes_round_trip() {
    for code in 1u8..4u8 {
        let d = ValueDirection::try_from(code).unwrap();
        assert_eq!(d.code(), code);
    }
    assert!(ValueDirection::try_from(0).is_err());
    assert!(ValueDirection::try_from(4).is_err());
    assert!(ValueDirection::Source.can_read());
    assert!(!ValueDirection::Sink.can_read());
    assert!(ValueDirection::SourceSink.can_read());
}
