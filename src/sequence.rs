//! Valve handles, commands and command sequences, and the step-by-step execution of a
//! sequence.

use vstd::prelude::*;

use crate::text::{chars_of, string_of};

verus! {

/// Milliseconds that the end marker of a sequence waits for the stand to settle.
pub const DONE_SETTLE_MS: u64 = 500;

/// One of the seven controllable valves of the stand.
#[derive(Debug, Clone, Copy, PartialEq, Eq, Structural, PartialOrd, Ord)]
pub enum ValveHandle {
    NP1,
    NP2,
    NP3,
    NP4,
    IP1,
    IP2,
    IP3,
}

/// The name of a valve on the wire, such as `NP1`.
pub open spec fn handle_name(h: ValveHandle) -> Seq<char> {
    match h {
        ValveHandle::NP1 => seq!['N', 'P', '1'],
        ValveHandle::NP2 => seq!['N', 'P', '2'],
        ValveHandle::NP3 => seq!['N', 'P', '3'],
        ValveHandle::NP4 => seq!['N', 'P', '4'],
        ValveHandle::IP1 => seq!['I', 'P', '1'],
        ValveHandle::IP2 => seq!['I', 'P', '2'],
        ValveHandle::IP3 => seq!['I', 'P', '3'],
    }
}

/// The telemetry field that reports whether a valve is open, such as `NP1_OPEN`.
pub open spec fn valve_field_name(h: ValveHandle) -> Seq<char> {
    handle_name(h) + seq!['_', 'O', 'P', 'E', 'N']
}

impl ValveHandle {
    /// The valve's name on the wire.
    pub fn name(&self) -> (r: &'static str)
        ensures
            r@ == handle_name(*self),
    {
        match self {
            ValveHandle::NP1 => {
                proof {
                    reveal_strlit("NP1");
                }
                assert("NP1"@ =~= handle_name(*self));
                "NP1"
            },
            ValveHandle::NP2 => {
                proof {
                    reveal_strlit("NP2");
                }
                assert("NP2"@ =~= handle_name(*self));
                "NP2"
            },
            ValveHandle::NP3 => {
                proof {
                    reveal_strlit("NP3");
                }
                assert("NP3"@ =~= handle_name(*self));
                "NP3"
            },
            ValveHandle::NP4 => {
                proof {
                    reveal_strlit("NP4");
                }
                assert("NP4"@ =~= handle_name(*self));
                "NP4"
            },
            ValveHandle::IP1 => {
                proof {
                    reveal_strlit("IP1");
                }
                assert("IP1"@ =~= handle_name(*self));
                "IP1"
            },
            ValveHandle::IP2 => {
                proof {
                    reveal_strlit("IP2");
                }
                assert("IP2"@ =~= handle_name(*self));
                "IP2"
            },
            ValveHandle::IP3 => {
                proof {
                    reveal_strlit("IP3");
                }
                assert("IP3"@ =~= handle_name(*self));
                "IP3"
            },
        }
    }

    /// The name of the telemetry field that reports this valve's position.
    pub fn field_name(&self) -> (r: String)
        ensures
            r@ == valve_field_name(*self),
    {
        let mut cs = chars_of(self.name());
        cs.push('_');
        cs.push('O');
        cs.push('P');
        cs.push('E');
        cs.push('N');
        assert(cs@ =~= valve_field_name(*self));
        string_of(cs.as_slice())
    }
}

/// One step of a command sequence.
#[derive(Debug, Clone, Copy, PartialEq, Eq, Structural)]
pub enum Command {
    OpenValve(ValveHandle),
    CloseValve(ValveHandle),
    Ignite,
    /// Wait for this many milliseconds.
    Wait(u64),
    /// End marker: a short settle delay, then the sequence is complete.
    Done,
}

pub open spec fn open_prefix() -> Seq<char> {
    seq!['\n', 'O', 'P', 'E', 'N', ':']
}

pub open spec fn close_prefix() -> Seq<char> {
    seq!['\n', 'C', 'L', 'O', 'S', 'E', ':']
}

pub open spec fn ignite_text() -> Seq<char> {
    seq!['\n', 'I', 'G', 'N', 'I', 'T', 'E', '\n']
}

/// The wire text `\nOPEN:<valve>\n`.
pub open spec fn open_text(h: ValveHandle) -> Seq<char> {
    open_prefix() + handle_name(h) + seq!['\n']
}

/// The wire text `\nCLOSE:<valve>\n`.
pub open spec fn close_text(h: ValveHandle) -> Seq<char> {
    close_prefix() + handle_name(h) + seq!['\n']
}

/// What executing one command does, as the contracts see it.
pub enum ActionModel {
    Send(Seq<char>),
    Sleep(u64),
    Finished,
    Aborted,
}

/// The action that a command stands for.
pub open spec fn command_action(c: Command) -> ActionModel {
    match c {
        Command::OpenValve(h) => ActionModel::Send(open_text(h)),
        Command::CloseValve(h) => ActionModel::Send(close_text(h)),
        Command::Ignite => ActionModel::Send(ignite_text()),
        Command::Wait(ms) => ActionModel::Sleep(ms),
        Command::Done => ActionModel::Sleep(DONE_SETTLE_MS),
    }
}

fn text_with_valve(prefix: &[char], h: ValveHandle) -> (r: String)
    ensures
        r@ == prefix@ + handle_name(h) + seq!['\n'],
{
    let mut cs: Vec<char> = Vec::new();
    let mut i: usize = 0;
    while i < prefix.len()
        invariant
            i <= prefix@.len(),
            cs@ == prefix@.subrange(0, i as int),
        decreases prefix@.len() - i,
    {
        cs.push(prefix[i]);
        i = i + 1;
    }
    let mut name = chars_of(h.name());
    cs.append(&mut name);
    cs.push('\n');
    assert(cs@ =~= prefix@ + handle_name(h) + seq!['\n']);
    string_of(cs.as_slice())
}

/// A step of a running sequence: what the executing context does next.
#[derive(Debug, Clone, PartialEq, Eq)]
pub enum SequenceAction {
    /// Submit this text to the outbound command queue, then report whether it was accepted.
    Send(String),
    /// Suspend the executing context for this many milliseconds.
    Sleep(u64),
    /// Every step ran: the sequence succeeded.
    Finished,
    /// A send was refused: the sequence stopped there; steps already sent stay sent.
    Aborted,
}

impl View for SequenceAction {
    type V = ActionModel;

    open spec fn view(&self) -> ActionModel {
        match self {
            SequenceAction::Send(s) => ActionModel::Send(s@),
            SequenceAction::Sleep(ms) => ActionModel::Sleep(*ms),
            SequenceAction::Finished => ActionModel::Finished,
            SequenceAction::Aborted => ActionModel::Aborted,
        }
    }
}

impl Command {
    /// The action that executing this command takes.
    pub fn action(&self) -> (r: SequenceAction)
        ensures
            r@ == command_action(*self),
    {
        match self {
            Command::OpenValve(h) => {
                let p = ['\n', 'O', 'P', 'E', 'N', ':'];
                assert(p@ =~= open_prefix());
                SequenceAction::Send(text_with_valve(&p, *h))
            },
            Command::CloseValve(h) => {
                let p = ['\n', 'C', 'L', 'O', 'S', 'E', ':'];
                assert(p@ =~= close_prefix());
                SequenceAction::Send(text_with_valve(&p, *h))
            },
            Command::Ignite => {
                let t = ['\n', 'I', 'G', 'N', 'I', 'T', 'E', '\n'];
                assert(t@ =~= ignite_text());
                SequenceAction::Send(string_of(&t))
            },
            Command::Wait(ms) => SequenceAction::Sleep(*ms),
            Command::Done => SequenceAction::Sleep(DONE_SETTLE_MS),
        }
    }
}

/// An ordered list of commands, built step by step and run as a unit.
#[derive(Debug)]
pub struct CommandSequence {
    commands: Vec<Command>,
}

impl View for CommandSequence {
    type V = Seq<Command>;

    closed spec fn view(&self) -> Seq<Command> {
        self.commands@
    }
}

impl Default for CommandSequence {
    fn default() -> (r: CommandSequence)
        ensures
            r@ == Seq::<Command>::empty(),
    {
        CommandSequence::new()
    }
}

impl CommandSequence {
    /// An empty sequence.
    pub fn new() -> (r: CommandSequence)
        ensures
            r@ == Seq::<Command>::empty(),
    {
        CommandSequence { commands: Vec::new() }
    }

    /// The sequence with `command` appended.
    pub fn and_then(self, command: Command) -> (r: CommandSequence)
        ensures
            r@ == self@.push(command),
    {
        let mut s = self;
        s.commands.push(command);
        s
    }

    /// The commands, in order.
    pub fn commands(&self) -> (r: &[Command])
        ensures
            r@ == self@,
    {
        self.commands.as_slice()
    }

    /// Starts executing the sequence. The sequence is consumed: it cannot be run twice. The
    /// returned run hands out, one at a time, the actions that execute it in order.
    pub fn run(self) -> (r: SequenceRun)
        ensures
            r.commands() == self@,
            r.position() == 0,
            !r.aborted(),
    {
        SequenceRun { commands: self.commands, position: 0, aborted: false }
    }
}

/// How the last action handed out by a [`SequenceRun`] went.
#[derive(Debug, Clone, Copy, PartialEq, Eq, Structural)]
pub enum StepOutcome {
    /// It was carried out (or nothing has been handed out yet).
    Completed,
    /// The outbound queue refused the text that was to be sent.
    SendFailed,
}

/// A sequence being executed: its commands and how far execution has come.
#[derive(Debug)]
pub struct SequenceRun {
    commands: Vec<Command>,
    position: usize,
    aborted: bool,
}

impl SequenceRun {
    pub closed spec fn commands(&self) -> Seq<Command> {
        self.commands@
    }

    pub closed spec fn position(&self) -> nat {
        self.position as nat
    }

    pub closed spec fn aborted(&self) -> bool {
        self.aborted
    }

    /// Reports how the last action went and takes the next one. A refused send aborts the
    /// run at once; otherwise each command's action comes in list order, then `Finished`.
    pub fn advance(&mut self, last: StepOutcome) -> (r: SequenceAction)
        ensures
            final(self).commands() == old(self).commands(),
            old(self).aborted() || last == StepOutcome::SendFailed ==> {
                &&& r@ == ActionModel::Aborted
                &&& final(self).aborted()
                &&& final(self).position() == old(self).position()
            },
            !old(self).aborted() && last == StepOutcome::Completed && old(self).position() < old(
                self,
            ).commands().len() ==> {
                &&& r@ == command_action(old(self).commands()[old(self).position() as int])
                &&& final(self).position() == old(self).position() + 1
                &&& !final(self).aborted()
            },
            !old(self).aborted() && last == StepOutcome::Completed && old(self).position() >= old(
                self,
            ).commands().len() ==> {
                &&& r@ == ActionModel::Finished
                &&& final(self).position() == old(self).position()
                &&& !final(self).aborted()
            },
    {
        if self.aborted || last == StepOutcome::SendFailed {
            self.aborted = true;
            return SequenceAction::Aborted;
        }
        if self.position < self.commands.len() {
            let c = self.commands[self.position];
            self.position = self.position + 1;
            c.action()
        } else {
            SequenceAction::Finished
        }
    }
}

} // verus!
