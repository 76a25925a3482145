use nile_stand::codec::{SensorField, SensorValue};
use nile_stand::snapshot::FieldSnapshot;
use nile_stand::stand::{StandMode, StandState, ValveState};

fn field(name: &str, value: SensorValue) -> SensorField {
    SensorField { name: name.to_string(), value }
}

#[test]
fn latest_value_wins() {
    let mut snap = FieldSnapshot::new();
    snap.merge(vec![
        field("PT0", SensorValue::UnsignedInt(1)),
        field("PT0", SensorValue::UnsignedInt(2)),
    ]);
    assert_eq!(snap.get_field("PT0"), Some(&SensorValue::UnsignedInt(2)));
    assert_eq!(snap.fields().len(), 1);
    snap.insert(field("PT0", SensorValue::UnsignedInt(3)));
    assert_eq!(snap.get_field("PT0"), Some(&SensorValue::UnsignedInt(3)));
    assert_eq!(snap.fields().len(), 1);
}

#[test]
fn same_field_twice_is_idempotent() {
    let mut twice = FieldSnapshot::new();
    let f = field("NP1_OPEN", SensorValue::Boolean(true));
    twice.insert(f.clone());
    twice.insert(f.clone());
    let mut once = FieldSnapshot::new();
    once.insert(f);
    assert_eq!(twice.fields(), once.fields());
}

#[test]
fn other_names_are_kept() {
    let mut snap = FieldSnapshot::new();
    snap.insert(field("A", SensorValue::SignedInt(-1)));
    snap.insert(field("B", SensorValue::Boolean(false)));
    snap.insert(field("A", SensorValue::SignedInt(5)));
    assert_eq!(snap.get_field("A"), Some(&SensorValue::SignedInt(5)));
    assert_eq!(snap.get_field("B"), Some(&SensorValue::Boolean(false)));
    assert_eq!(snap.get_field("C"), None);
    assert_eq!(snap.fields().len(), 2);
}

#[test]
fn stand_state_from_snapshot() {
    let mut snap = FieldSnapshot::new();
    snap.merge(vec![
        field("NP1_OPEN", SensorValue::Boolean(true)),
        field("NP2_OPEN", SensorValue::Boolean(false)),
        field("NP3_OPEN", SensorValue::UnsignedInt(1)),
        field("NP1_OPEN", SensorValue::Boolean(false)),
    ]);
    let state = snap.stand_state(&StandState::default());
    assert_eq!(state.mode(), StandMode::Safing);
    assert_eq!(state.valve_np1, Some(ValveState::Closed));
    assert_eq!(state.valve_np2, Some(ValveState::Closed));
    assert_eq!(state.valve_np3, None);
    assert_eq!(state.valve_np4, None);
}
