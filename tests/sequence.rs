use nile_stand::sequence::{
    Command, CommandSequence, SequenceAction, StepOutcome, ValveHandle, DONE_SETTLE_MS,
};

/// Drives a run against a recording sink and a simulated clock; returns what was sent, with
/// the simulated time of each send, and whether the run finished.
fn drive(seq: CommandSequence, refuse_after: Option<usize>) -> (Vec<(u64, String)>, u64, bool) {
    let mut run = seq.run();
    let mut clock: u64 = 0;
    let mut sent = Vec::new();
    let mut outcome = StepOutcome::Completed;
    loop {
        match run.advance(outcome) {
            SequenceAction::Send(text) => {
                if refuse_after.map_or(false, |n| sent.len() >= n) {
                    outcome = StepOutcome::SendFailed;
                } else {
                    sent.push((clock, text));
                    outcome = StepOutcome::Completed;
                }
            }
            SequenceAction::Sleep(ms) => {
                clock += ms;
                outcome = StepOutcome::Completed;
            }
            SequenceAction::Finished => return (sent, clock, true),
            SequenceAction::Aborted => return (sent, clock, false),
        }
    }
}

#[test]
fn sends_in_order_with_wait_between() {
    let seq = CommandSequence::new()
        .and_then(Command::OpenValve(ValveHandle::NP1))
        .and_then(Command::Wait(1000))
        .and_then(Command::CloseValve(ValveHandle::NP1))
        .and_then(Command::Done);
    let (sent, clock, finished) = drive(seq, None);
    assert!(finished);
    let texts: Vec<&str> = sent.iter().map(|(_, t)| t.trim()).collect();
    assert_eq!(texts, vec!["OPEN:NP1", "CLOSE:NP1"]);
    assert!(sent[1].0 - sent[0].0 >= 1000);
    assert_eq!(clock, 1000 + DONE_SETTLE_MS);
}

#[test]
fn wire_text_of_each_command() {
    let seq = CommandSequence::new()
        .and_then(Command::Ignite)
        .and_then(Command::OpenValve(ValveHandle::IP2))
        .and_then(Command::CloseValve(ValveHandle::NP4));
    let (sent, _, finished) = drive(seq, None);
    assert!(finished);
    let texts: Vec<String> = sent.into_iter().map(|(_, t)| t).collect();
    assert_eq!(texts, vec!["\nIGNITE\n", "\nOPEN:IP2\n", "\nCLOSE:NP4\n"]);
}

#[test]
fn refused_send_aborts_the_rest() {
    let seq = CommandSequence::new()
        .and_then(Command::OpenValve(ValveHandle::NP3))
        .and_then(Command::OpenValve(ValveHandle::IP3))
        .and_then(Command::Wait(5000))
        .and_then(Command::CloseValve(ValveHandle::NP1));
    let (sent, clock, finished) = drive(seq, Some(1));
    assert!(!finished);
    assert_eq!(sent.len(), 1);
    assert_eq!(sent[0].1, "\nOPEN:NP3\n");
    assert_eq!(clock, 0);
}

#[test]
fn aborted_run_stays_aborted() {
    let mut run = CommandSequence::new().and_then(Command::Ignite).run();
    assert_eq!(run.advance(StepOutcome::SendFailed), SequenceAction::Aborted);
    assert_eq!(run.advance(StepOutcome::Completed), SequenceAction::Aborted);
}

#[test]
fn empty_sequence_finishes_at_once() {
    let mut run = CommandSequence::new().run();
    assert_eq!(run.advance(StepOutcome::Completed), SequenceAction::Finished);
    assert_eq!(run.advance(StepOutcome::Completed), SequenceAction::Finished);
}

#[test]
fn valve_names() {
    assert_eq!(ValveHandle::NP1.name(), "NP1");
    assert_eq!(ValveHandle::IP3.name(), "IP3");
    assert_eq!(ValveHandle::NP4.field_name(), "NP4_OPEN");
}
