use nile_stand::codec::{SensorField, SensorValue};
use nile_stand::field_history::ValueHistory;
use nile_stand::record::{record_cells, record_header};
use nile_stand::link::{frame_commands, should_retry_read, NonUsbError, MAX_READ_RETRYS};

#[test]
fn frames_queued_commands() {
    assert_eq!(frame_commands(&[]), b"\n".to_vec());
    let cmds = vec![b"OPEN:NP1".to_vec(), b"IGNITE".to_vec()];
    assert_eq!(frame_commands(&cmds), b"\nOPEN:NP1\nIGNITE\n".to_vec());
}

#[test]
fn retries_only_timeouts_up_to_the_bound() {
    assert!(should_retry_read(0, true));
    assert!(should_retry_read(MAX_READ_RETRYS - 1, true));
    assert!(!should_retry_read(MAX_READ_RETRYS, true));
    assert!(!should_retry_read(0, false));
}

#[test]
fn non_usb_message() {
    assert_eq!(NonUsbError.message(), "Expected USB but was not USB");
}

#[test]
fn history_points_and_prune() {
    let mut h: ValueHistory<u32> = ValueHistory::new();
    assert_eq!(h.top(), None);
    h.push(1);
    h.push(2);
    assert_eq!(h.top(), Some(&2));
    let far_future = u64::MAX;
    assert!(h.points_at(far_future, 1000).is_empty());
    let pts = h.points_at(0, 0);
    assert_eq!(pts, vec![(0, 1), (0, 2)]);
    assert_eq!(h.as_point_span(60_000).len(), 2);
    h.prune_at(far_future, 1000);
    assert_eq!(h.top(), None);
    h.push(3);
    h.prune(60_000);
    assert_eq!(h.top(), Some(&3));
}

#[test]
fn record_rows() {
    let names = vec!["PT0".to_string(), "NP1_OPEN".to_string(), "TC1".to_string()];
    assert_eq!(record_header(&names), "Time (Seconds),PT0,NP1_OPEN,TC1");
    assert_eq!(record_header(&[]), "Time (Seconds)");
    let fields = vec![
        SensorField { name: "NP1_OPEN".to_string(), value: SensorValue::Boolean(true) },
        SensorField { name: "PT0".to_string(), value: SensorValue::Float("2.50".to_string()) },
        SensorField { name: "PT0".to_string(), value: SensorValue::Float("9".to_string()) },
    ];
    assert_eq!(record_cells(&names, &fields), ",2.50,true,");
    assert_eq!(record_cells(&[], &fields), "");
}
