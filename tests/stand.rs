use nile_stand::codec::{SensorField, SensorValue};
use nile_stand::decoder::decode_fields;
use nile_stand::sequence::Command::{CloseValve, Done, Ignite, OpenValve, Wait};
use nile_stand::sequence::ValveHandle::{IP1, IP2, IP3, NP1, NP2, NP3, NP4};
use nile_stand::stand::{
    depressurize_sequence, fire_sequence, safing_sequence, valve_state, ModeChangeError, StandMode,
    StandState, ValveCommand, ValveState,
};

fn all_closed() -> StandState {
    let mut s = StandState::default();
    s.valve_np1 = Some(ValveState::Closed);
    s.valve_np2 = Some(ValveState::Closed);
    s.valve_np3 = Some(ValveState::Closed);
    s.valve_np4 = Some(ValveState::Closed);
    s.valve_ip1 = Some(ValveState::Closed);
    s.valve_ip2 = Some(ValveState::Closed);
    s.valve_ip3 = Some(ValveState::Closed);
    s
}

#[test]
fn decoded_fields_give_stand_state() {
    let (_, fields) = decode_fields(b"NP1_OPEN:b=TRUE\nNP2_OPEN:b=false\n", "");
    let mut state = StandState::default();
    state.update(&fields);
    assert_eq!(state.valve_np1, Some(ValveState::Open));
    assert_eq!(state.valve_np2, Some(ValveState::Closed));
    assert_eq!(state.valve_np3, None);
    assert_eq!(state.valve_np4, None);
    assert_eq!(state.valve_ip1, None);
    assert_eq!(state.valve_ip2, None);
    assert_eq!(state.valve_ip3, None);
    assert_eq!(state.mode(), StandMode::Safing);
}

#[test]
fn valve_state_reads_first_boolean_field() {
    let fields = vec![
        SensorField { name: "IP1_OPEN".to_string(), value: SensorValue::UnsignedInt(1) },
        SensorField { name: "IP2_OPEN".to_string(), value: SensorValue::Boolean(true) },
        SensorField { name: "IP2_OPEN".to_string(), value: SensorValue::Boolean(false) },
    ];
    assert_eq!(valve_state("IP1_OPEN", &fields), None);
    assert_eq!(valve_state("IP2_OPEN", &fields), Some(ValveState::Open));
    assert_eq!(valve_state("IP3_OPEN", &fields), None);
}

#[test]
fn default_mode_is_safing() {
    assert_eq!(StandMode::default(), StandMode::Safing);
    assert_eq!(StandState::default().mode(), StandMode::Safing);
}

#[test]
fn entering_ox_filling_needs_all_valves_closed() {
    let mut s = all_closed();
    assert!(s.transition_mode(StandMode::OxygenFilling).is_ok());
    assert_eq!(s.mode(), StandMode::OxygenFilling);

    for which in 0..7 {
        for bad in [Some(ValveState::Open), None] {
            let mut s = all_closed();
            match which {
                0 => s.valve_np1 = bad,
                1 => s.valve_np2 = bad,
                2 => s.valve_np3 = bad,
                3 => s.valve_np4 = bad,
                4 => s.valve_ip1 = bad,
                5 => s.valve_ip2 = bad,
                _ => s.valve_ip3 = bad,
            }
            let before = s;
            assert!(s.transition_mode(StandMode::OxygenFilling).is_err());
            assert_eq!(s, before);
            assert_eq!(s.mode(), StandMode::Safing);
        }
    }
}

#[test]
fn leaving_ox_filling_needs_np3_np4_closed() {
    for target in [StandMode::CheckOut, StandMode::PressurizationAndFiring, StandMode::Safing] {
        let mut s = all_closed();
        s.transition_mode(StandMode::OxygenFilling).unwrap();
        s.valve_np3 = Some(ValveState::Open);
        assert!(s.transition_mode(target).is_err());
        assert_eq!(s.mode(), StandMode::OxygenFilling);
        s.valve_np3 = Some(ValveState::Closed);
        s.valve_np4 = None;
        assert!(s.transition_mode(target).is_err());
        assert_eq!(s.mode(), StandMode::OxygenFilling);
        s.valve_np4 = Some(ValveState::Closed);
        s.valve_np1 = Some(ValveState::Open);
        assert!(s.transition_mode(target).is_ok());
        assert_eq!(s.mode(), target);
    }
}

#[test]
fn other_modes_need_nothing() {
    let mut s = StandState::default();
    s.valve_np1 = Some(ValveState::Open);
    assert!(s.transition_mode(StandMode::CheckOut).is_ok());
    assert!(s.transition_mode(StandMode::PressurizationAndFiring).is_ok());
    assert!(s.transition_mode(StandMode::Safing).is_ok());
    assert_eq!(s.mode(), StandMode::Safing);
}

#[test]
fn set_mode_dispatches_safing_sequence() {
    let mut s = StandState::default();
    s.transition_mode(StandMode::CheckOut).unwrap();
    let mut seen = Vec::new();
    let r = s.set_mode(StandMode::Safing, |seq| {
        seen = seq.commands().to_vec();
        true
    });
    assert_eq!(r, Ok(()));
    assert_eq!(s.mode(), StandMode::Safing);
    assert_eq!(seen, safing_sequence().commands().to_vec());
}

#[test]
fn set_mode_reports_link_down() {
    let mut s = StandState::default();
    s.transition_mode(StandMode::CheckOut).unwrap();
    let r = s.set_mode(StandMode::Safing, |_| false);
    assert_eq!(r, Err(ModeChangeError::LinkDown));
    assert_eq!(s.mode(), StandMode::CheckOut);
}

#[test]
fn set_mode_interlock_sends_nothing() {
    let mut s = StandState::default();
    let mut called = false;
    let r = s.set_mode(StandMode::OxygenFilling, |_| {
        called = true;
        true
    });
    assert!(matches!(r, Err(ModeChangeError::Interlock(_))));
    assert!(!called);
    assert_eq!(s.mode(), StandMode::Safing);
    let r = s.set_mode(StandMode::CheckOut, |_| panic!("no sequence for check out"));
    assert_eq!(r, Ok(()));
    assert_eq!(s.mode(), StandMode::CheckOut);
}

#[test]
fn manual_control_per_mode() {
    assert_eq!(
        StandMode::CheckOut.manual_control_valves(),
        vec!["NP1", "NP2", "NP3", "NP4", "IP1", "IP2", "IP3"]
    );
    assert_eq!(StandMode::OxygenFilling.manual_control_valves(), vec!["NP3", "NP4"]);
    assert_eq!(
        StandMode::PressurizationAndFiring.manual_control_valves(),
        vec!["NP2", "NP3", "IP2", "IP3"]
    );
    assert!(StandMode::Safing.manual_control_valves().is_empty());
}

#[test]
fn safing_sequence_vents_and_closes() {
    assert_eq!(
        safing_sequence().commands().to_vec(),
        vec![
            OpenValve(NP3),
            OpenValve(IP3),
            CloseValve(NP1),
            CloseValve(NP2),
            CloseValve(NP4),
            CloseValve(IP1),
            CloseValve(IP2),
        ]
    );
}

#[test]
fn depressurize_sequence_steps() {
    assert_eq!(
        depressurize_sequence().commands().to_vec(),
        vec![
            OpenValve(NP4),
            Wait(5000),
            CloseValve(NP4),
            Wait(1000),
            OpenValve(IP2),
            Wait(5000),
            CloseValve(IP2),
            Wait(1000),
            OpenValve(NP2),
            Wait(5000),
            CloseValve(NP2),
            Wait(1000),
            Done,
        ]
    );
}

#[test]
fn fire_sequence_offsets() {
    let tail = vec![
        Wait(4000),
        Wait(3000),
        CloseValve(NP1),
        CloseValve(IP1),
        CloseValve(NP2),
        CloseValve(IP2),
        OpenValve(NP3),
        OpenValve(IP3),
        Done,
    ];
    let mut expected = vec![Ignite, Wait(1000), OpenValve(NP1), Wait(250), OpenValve(IP1)];
    expected.extend(tail.clone());
    assert_eq!(fire_sequence(250, 4000).commands().to_vec(), expected);

    let mut expected = vec![Ignite, Wait(1000), OpenValve(IP1), Wait(500), OpenValve(NP1)];
    expected.extend(tail.clone());
    assert_eq!(fire_sequence(-500, 4000).commands().to_vec(), expected);

    let seq = fire_sequence(i64::MIN, 0);
    assert_eq!(seq.commands()[3], Wait(1u64 << 63));
}

#[test]
fn valve_command_text() {
    assert_eq!(ValveCommand::Open("NP1").to_string(), "\nOPEN:NP1\n");
    assert_eq!(ValveCommand::Close("IP3").to_string(), "\nCLOSE:IP3\n");
}

#[test]
fn mode_labels() {
    assert_eq!(StandMode::CheckOut.label(), "Check Out Mode");
    assert_eq!(StandMode::OxygenFilling.label(), "Ox Filling Mode");
    assert_eq!(StandMode::PressurizationAndFiring.label(), "Pressurization & Firing Mode");
    assert_eq!(StandMode::Safing.label(), "Safing Mode");
}

#[test]
fn failsafe_sends_safing_even_when_interlock_refuses() {
    let mut s = all_closed();
    s.transition_mode(StandMode::OxygenFilling).unwrap();
    s.valve_np3 = Some(ValveState::Open);
    let mut seen = Vec::new();
    let r = s.set_mode(StandMode::Safing, |seq| {
        seen = seq.commands().to_vec();
        true
    });
    assert!(matches!(r, Err(ModeChangeError::Interlock(_))));
    assert_eq!(s.mode(), StandMode::OxygenFilling);
    assert_eq!(seen, safing_sequence().commands().to_vec());
}

#[test]
fn failsafe_link_down_wins_over_interlock() {
    let mut s = all_closed();
    s.transition_mode(StandMode::OxygenFilling).unwrap();
    s.valve_np4 = None;
    let r = s.set_mode(StandMode::Safing, |_| false);
    assert_eq!(r, Err(ModeChangeError::LinkDown));
    assert_eq!(s.mode(), StandMode::OxygenFilling);
}

#[test]
fn valve_position_reads_fields() {
    let mut s = StandState::default();
    s.valve_ip2 = Some(ValveState::Open);
    assert_eq!(s.valve_position(IP2), Some(ValveState::Open));
    assert_eq!(s.valve_position(NP1), None);
}
