//! Stand state and the mode state machine: valve positions, interlocks, and the fixed safety,
//! depressurizing and firing sequences.

use vstd::prelude::*;

use crate::codec::{SensorField, SensorValue, ValueModel};
use crate::decoder::fields_view;
use crate::sequence::{valve_field_name, Command, CommandSequence, ValveHandle};

verus! {

/// Position of a single valve.
#[derive(Debug, Clone, Copy, PartialEq, Eq, Structural)]
pub enum ValveState {
    Open,
    Closed,
}

/// The valve position that a reading reports: only a boolean reports one.
pub open spec fn reported_state(v: ValueModel) -> Option<ValveState> {
    match v {
        ValueModel::Boolean(true) => Some(ValveState::Open),
        ValueModel::Boolean(false) => Some(ValveState::Closed),
        _ => None,
    }
}

/// The position reported by the first field named `name`; none when there is no such field
/// or it is not a boolean.
pub open spec fn valve_state_spec(name: Seq<char>, fields: Seq<(Seq<char>, ValueModel)>) -> Option<
    ValveState,
>
    decreases fields.len(),
{
    if fields.len() == 0 {
        None
    } else if fields[0].0 == name {
        reported_state(fields[0].1)
    } else {
        valve_state_spec(name, fields.drop_first())
    }
}

pub proof fn lemma_valve_state_at(name: Seq<char>, fields: Seq<(Seq<char>, ValueModel)>, i: int)
    requires
        0 <= i <= fields.len(),
        forall|j: int| 0 <= j < i ==> fields[j].0 != name,
    ensures
        valve_state_spec(name, fields) == (if i < fields.len() && fields[i].0 == name {
            reported_state(fields[i].1)
        } else {
            valve_state_spec(name, fields.subrange(i, fields.len() as int))
        }),
    decreases i,
{
    if i == 0 {
        assert(fields.subrange(0, fields.len() as int) =~= fields);
    } else {
        let rest = fields.drop_first();
        assert forall|j: int| 0 <= j < i - 1 implies rest[j].0 != name by {
            assert(rest[j] == fields[j + 1]);
        }
        lemma_valve_state_at(name, rest, i - 1);
        assert(rest.subrange(i - 1, rest.len() as int) =~= fields.subrange(i, fields.len() as int));
    }
}

/// Looks up the first field named `name`: `Boolean(true)` reads as open, `Boolean(false)` as
/// closed; a missing or non-boolean field gives `None`.
pub fn valve_state(name: &str, fields: &[SensorField]) -> (r: Option<ValveState>)
    ensures
        r == valve_state_spec(name@, fields_view(fields@)),
{
    let key = name.to_owned();
    let ghost fv = fields_view(fields@);
    let mut i: usize = 0;
    while i < fields.len()
        invariant
            i <= fields@.len(),
            fv == fields_view(fields@),
            key@ == name@,
            forall|j: int| 0 <= j < i ==> fv[j].0 != name@,
        decreases fields@.len() - i,
    {
        assert(fv[i as int] == fields@[i as int]@);
        let same = fields[i].name.eq(&key);
        if same {
            proof {
                lemma_valve_state_at(name@, fv, i as int);
            }
            return match &fields[i].value {
                SensorValue::Boolean(true) => Some(ValveState::Open),
                SensorValue::Boolean(false) => Some(ValveState::Closed),
                _ => None,
            };
        }
        i = i + 1;
    }
    proof {
        lemma_valve_state_at(name@, fv, i as int);
        assert(fv.subrange(i as int, fv.len() as int).len() == 0);
    }
    None
}

/// The operating modes of the stand.
#[derive(Debug, Clone, Copy, PartialEq, Eq, Structural)]
pub enum StandMode {
    /// Complete manual control of valves.
    CheckOut,
    /// Manual control of NP3 and NP4 only.
    OxygenFilling,
    /// Manual control of NP2, NP3, IP2 and IP3; the firing sequence is available.
    PressurizationAndFiring,
    /// No manual control; the depressurizing sequence is available. The initial mode.
    Safing,
}

impl Default for StandMode {
    fn default() -> (r: StandMode)
        ensures
            r == StandMode::Safing,
    {
        StandMode::Safing
    }
}

/// The valves that an operator may actuate by hand in a mode.
pub open spec fn manual_valves(m: StandMode) -> Seq<ValveHandle> {
    match m {
        StandMode::CheckOut => seq![
            ValveHandle::NP1,
            ValveHandle::NP2,
            ValveHandle::NP3,
            ValveHandle::NP4,
            ValveHandle::IP1,
            ValveHandle::IP2,
            ValveHandle::IP3,
        ],
        StandMode::OxygenFilling => seq![ValveHandle::NP3, ValveHandle::NP4],
        StandMode::PressurizationAndFiring => seq![
            ValveHandle::NP2,
            ValveHandle::NP3,
            ValveHandle::IP2,
            ValveHandle::IP3,
        ],
        StandMode::Safing => seq![],
    }
}

/// The operator-facing name of a mode.
pub open spec fn mode_label(m: StandMode) -> Seq<char> {
    match m {
        StandMode::CheckOut => "Check Out Mode"@,
        StandMode::OxygenFilling => "Ox Filling Mode"@,
        StandMode::PressurizationAndFiring => "Pressurization & Firing Mode"@,
        StandMode::Safing => "Safing Mode"@,
    }
}

impl StandMode {
    /// The mode's name for the operator.
    pub fn label(self) -> (r: &'static str)
        ensures
            r@ == mode_label(self),
    {
        match self {
            StandMode::CheckOut => "Check Out Mode",
            StandMode::OxygenFilling => "Ox Filling Mode",
            StandMode::PressurizationAndFiring => "Pressurization & Firing Mode",
            StandMode::Safing => "Safing Mode",
        }
    }

    /// The names of the valves that may be actuated by hand in this mode.
    pub fn manual_control_valves(self) -> (r: Vec<&'static str>)
        ensures
            r@.len() == manual_valves(self).len(),
            forall|i: int|
                0 <= i < r@.len() ==> #[trigger] r@[i]@ == crate::sequence::handle_name(
                    manual_valves(self)[i],
                ),
    {
        let handles: Vec<ValveHandle> = match self {
            StandMode::CheckOut => vec![
                ValveHandle::NP1,
                ValveHandle::NP2,
                ValveHandle::NP3,
                ValveHandle::NP4,
                ValveHandle::IP1,
                ValveHandle::IP2,
                ValveHandle::IP3,
            ],
            StandMode::OxygenFilling => vec![ValveHandle::NP3, ValveHandle::NP4],
            StandMode::PressurizationAndFiring => vec![
                ValveHandle::NP2,
                ValveHandle::NP3,
                ValveHandle::IP2,
                ValveHandle::IP3,
            ],
            StandMode::Safing => vec![],
        };
        assert(handles@ =~= manual_valves(self));
        let mut names: Vec<&'static str> = Vec::new();
        let mut i: usize = 0;
        while i < handles.len()
            invariant
                i <= handles@.len(),
                handles@ == manual_valves(self),
                names@.len() == i,
                forall|j: int|
                    0 <= j < i ==> #[trigger] names@[j]@ == crate::sequence::handle_name(
                        handles@[j],
                    ),
            decreases handles@.len() - i,
        {
            names.push(handles[i].name());
            i = i + 1;
        }
        names
    }

    /// Checks the conditions for moving out of the current mode of `state` and into this
    /// one. Leaving oxygen filling needs NP3 and NP4 closed; entering it needs every valve
    /// closed; nothing else is checked.
    pub fn check_transition(&self, state: &StandState) -> (r: Result<(), ModeTransitionError>)
        ensures
            r is Ok <==> transition_allowed(*state, *self),
    {
        match state.stand_mode {
            StandMode::OxygenFilling => {
                check_pretransition_ox_filling(state)?;
            },
            _ => {},
        }
        match self {
            StandMode::OxygenFilling => check_transition_ox_filling(state),
            _ => Ok(()),
        }
    }
}

/// State of the stand: the operating mode and the last reported position of each valve
/// (`None` while unknown).
#[derive(Debug, Clone, Copy, PartialEq, Eq, Structural)]
pub struct StandState {
    stand_mode: StandMode,
    pub valve_np1: Option<ValveState>,
    pub valve_np2: Option<ValveState>,
    pub valve_np3: Option<ValveState>,
    pub valve_np4: Option<ValveState>,
    pub valve_ip1: Option<ValveState>,
    pub valve_ip2: Option<ValveState>,
    pub valve_ip3: Option<ValveState>,
}

impl Default for StandState {
    fn default() -> (r: StandState)
        ensures
            r.mode_spec() == StandMode::Safing,
            forall|h: ValveHandle| r.valve(h) is None,
    {
        StandState {
            stand_mode: StandMode::Safing,
            valve_np1: None,
            valve_np2: None,
            valve_np3: None,
            valve_np4: None,
            valve_ip1: None,
            valve_ip2: None,
            valve_ip3: None,
        }
    }
}

/// Failure of a mode transition: the valve interlock was not met.
#[derive(Debug, Clone, PartialEq, Eq)]
pub struct ModeTransitionError(&'static str);

impl ModeTransitionError {
    pub closed spec fn message_spec(&self) -> &'static str {
        self.0
    }

    /// What was expected of the valves.
    pub fn message(&self) -> (r: &'static str)
        ensures
            r == self.message_spec(),
    {
        self.0
    }
}

/// Why a mode change did not happen.
#[derive(Debug, Clone, PartialEq, Eq)]
pub enum ModeChangeError {
    /// The valves do not allow it.
    Interlock(ModeTransitionError),
    /// The safety sequence could not be sent: the link to the stand is down.
    LinkDown,
}

pub open spec fn is_closed(v: Option<ValveState>) -> bool {
    v == Some(ValveState::Closed)
}

/// NP3 and NP4 both read closed: the condition for leaving oxygen filling.
pub open spec fn fill_valves_closed(s: StandState) -> bool {
    is_closed(s.valve(ValveHandle::NP3)) && is_closed(s.valve(ValveHandle::NP4))
}

/// All seven valves read closed: the condition for entering oxygen filling.
pub open spec fn all_valves_closed(s: StandState) -> bool {
    forall|h: ValveHandle| is_closed(#[trigger] s.valve(h))
}

/// Whether the interlock lets the stand move from its current mode into `target`.
pub open spec fn transition_allowed(s: StandState, target: StandMode) -> bool {
    &&& s.mode_spec() == StandMode::OxygenFilling ==> fill_valves_closed(s)
    &&& target == StandMode::OxygenFilling ==> all_valves_closed(s)
}

/// Produces an error if leaving oxygen filling would be unsafe in `state`.
fn check_pretransition_ox_filling(state: &StandState) -> (r: Result<(), ModeTransitionError>)
    ensures
        r is Ok <==> fill_valves_closed(*state),
        r matches Err(e) ==> e.message_spec()@ == "Expected valves NP3 and NP4 to be closed"@,
{
    match state {
        StandState {
            valve_np3: Some(ValveState::Closed),
            valve_np4: Some(ValveState::Closed),
            ..
        } => Ok(()),
        _ => Err(ModeTransitionError("Expected valves NP3 and NP4 to be closed")),
    }
}

/// Produces an error if entering oxygen filling would be unsafe in `state`.
fn check_transition_ox_filling(state: &StandState) -> (r: Result<(), ModeTransitionError>)
    ensures
        r is Ok <==> all_valves_closed(*state),
        r matches Err(e) ==> e.message_spec()@ == "Expected all valves to be closed"@,
{
    match state {
        StandState {
            valve_np1: Some(ValveState::Closed),
            valve_np2: Some(ValveState::Closed),
            valve_np3: Some(ValveState::Closed),
            valve_np4: Some(ValveState::Closed),
            valve_ip1: Some(ValveState::Closed),
            valve_ip2: Some(ValveState::Closed),
            valve_ip3: Some(ValveState::Closed),
            ..
        } => Ok(()),
        _ => {
            proof {
                if all_valves_closed(*state) {
                    assert(is_closed(state.valve(ValveHandle::NP1)));
                    assert(is_closed(state.valve(ValveHandle::NP2)));
                    assert(is_closed(state.valve(ValveHandle::NP3)));
                    assert(is_closed(state.valve(ValveHandle::NP4)));
                    assert(is_closed(state.valve(ValveHandle::IP1)));
                    assert(is_closed(state.valve(ValveHandle::IP2)));
                    assert(is_closed(state.valve(ValveHandle::IP3)));
                }
            }
            Err(ModeTransitionError("Expected all valves to be closed"))
        },
    }
}

impl StandState {
    pub closed spec fn mode_spec(&self) -> StandMode {
        self.stand_mode
    }

    /// This state with the mode replaced.
    pub closed spec fn with_mode(&self, mode: StandMode) -> StandState {
        StandState { stand_mode: mode, ..*self }
    }

    /// The reported position of a valve.
    pub closed spec fn valve(&self, h: ValveHandle) -> Option<ValveState> {
        match h {
            ValveHandle::NP1 => self.valve_np1,
            ValveHandle::NP2 => self.valve_np2,
            ValveHandle::NP3 => self.valve_np3,
            ValveHandle::NP4 => self.valve_np4,
            ValveHandle::IP1 => self.valve_ip1,
            ValveHandle::IP2 => self.valve_ip2,
            ValveHandle::IP3 => self.valve_ip3,
        }
    }

    /// The reported position of a valve: the public field of that valve.
    pub fn valve_position(&self, h: ValveHandle) -> (r: Option<ValveState>)
        ensures
            r == self.valve(h),
    {
        match h {
            ValveHandle::NP1 => self.valve_np1,
            ValveHandle::NP2 => self.valve_np2,
            ValveHandle::NP3 => self.valve_np3,
            ValveHandle::NP4 => self.valve_np4,
            ValveHandle::IP1 => self.valve_ip1,
            ValveHandle::IP2 => self.valve_ip2,
            ValveHandle::IP3 => self.valve_ip3,
        }
    }

    /// The current mode.
    pub fn mode(&self) -> (r: StandMode)
        ensures
            r == self.mode_spec(),
    {
        self.stand_mode
    }

    /// Moves into `mode` if the valve interlock allows it; otherwise fails and leaves the
    /// state as it was. Entering oxygen filling needs all seven valves closed; leaving it
    /// needs NP3 and NP4 closed; any other move always succeeds.
    pub fn transition_mode(&mut self, mode: StandMode) -> (r: Result<(), ModeTransitionError>)
        ensures
            r is Ok <==> transition_allowed(*old(self), mode),
            mode == StandMode::OxygenFilling ==> (r is Ok <==> all_valves_closed(*old(self))),
            old(self).mode_spec() == StandMode::OxygenFilling && mode != StandMode::OxygenFilling
                ==> (r is Ok <==> fill_valves_closed(*old(self))),
            r is Ok ==> *final(self) == old(self).with_mode(mode),
            r is Ok ==> final(self).mode_spec() == mode,
            forall|h: ValveHandle| #[trigger] final(self).valve(h) == old(self).valve(h),
            r is Err ==> *final(self) == *old(self),
    {
        mode.check_transition(self)?;
        self.stand_mode = mode;
        Ok(())
    }

    /// Changes the mode as the operator asked. A move into safing first hands the safing
    /// sequence to `dispatch`, unconditionally; `dispatch` runs it to the end and tells whether
    /// every command was sent. If not, the mode stays and the link is reported down. Then the
    /// interlock is checked: when it fails the mode stays and the interlock error is
    /// returned; otherwise the mode changes.
    pub fn set_mode<F: FnOnce(CommandSequence) -> bool>(&mut self, target: StandMode, dispatch: F) -> (r:
        Result<(), ModeChangeError>)
        requires
            forall|seq: CommandSequence| dispatch.requires((seq,)),
        ensures
            target != StandMode::Safing ==> (r matches Err(ModeChangeError::Interlock(_))
                <==> !transition_allowed(*old(self), target)),
            target != StandMode::Safing && transition_allowed(*old(self), target) ==> r is Ok,
            target == StandMode::Safing ==> exists|s: CommandSequence, sent: bool|
                {
                    &&& s@ == safing_commands()
                    &&& #[trigger] dispatch.ensures((s,), sent)
                    &&& (r matches Err(ModeChangeError::LinkDown) <==> !sent)
                    &&& sent ==> (r matches Err(ModeChangeError::Interlock(_))
                        <==> !transition_allowed(*old(self), target))
                },
            r matches Err(ModeChangeError::LinkDown) ==> target == StandMode::Safing,
            target == StandMode::OxygenFilling ==> (r is Ok <==> all_valves_closed(*old(self))),
            old(self).mode_spec() == StandMode::OxygenFilling && target != StandMode::OxygenFilling
                && !(r matches Err(ModeChangeError::LinkDown)) ==> (r matches Err(
                ModeChangeError::Interlock(_),
            ) <==> !fill_valves_closed(*old(self))),
            r is Ok ==> *final(self) == old(self).with_mode(target),
            r is Ok ==> final(self).mode_spec() == target,
            forall|h: ValveHandle| #[trigger] final(self).valve(h) == old(self).valve(h),
            r is Err ==> *final(self) == *old(self),
    {
        if target == StandMode::Safing {
            let seq = safing_sequence();
            let ghost handed = seq;
            let sent = dispatch(seq);
            assert(dispatch.ensures((handed,), sent));
            if !sent {
                return Err(ModeChangeError::LinkDown);
            }
            if let Err(e) = target.check_transition(self) {
                return Err(ModeChangeError::Interlock(e));
            }
            self.stand_mode = target;
            return Ok(());
        }
        if let Err(e) = target.check_transition(self) {
            return Err(ModeChangeError::Interlock(e));
        }
        self.stand_mode = target;
        Ok(())
    }

    /// Recomputes every valve position from the given fields: the first field named
    /// `<VALVE>_OPEN` gives the position, `true` for open and `false` for closed. The mode is
    /// kept.
    pub fn update(&mut self, fields: &[SensorField])
        ensures
            final(self).mode_spec() == old(self).mode_spec(),
            forall|h: ValveHandle|
                #[trigger] final(self).valve(h) == valve_state_spec(
                    valve_field_name(h),
                    fields_view(fields@),
                ),
    {
        let n = ValveHandle::NP1.field_name();
        self.valve_np1 = valve_state(n.as_str(), fields);
        let n = ValveHandle::NP2.field_name();
        self.valve_np2 = valve_state(n.as_str(), fields);
        let n = ValveHandle::NP3.field_name();
        self.valve_np3 = valve_state(n.as_str(), fields);
        let n = ValveHandle::NP4.field_name();
        self.valve_np4 = valve_state(n.as_str(), fields);
        let n = ValveHandle::IP1.field_name();
        self.valve_ip1 = valve_state(n.as_str(), fields);
        let n = ValveHandle::IP2.field_name();
        self.valve_ip2 = valve_state(n.as_str(), fields);
        let n = ValveHandle::IP3.field_name();
        self.valve_ip3 = valve_state(n.as_str(), fields);
    }
}

/// The safing sequence: open the vents NP3 and IP3, close the five other valves.
pub open spec fn safing_commands() -> Seq<Command> {
    seq![
        Command::OpenValve(ValveHandle::NP3),
        Command::OpenValve(ValveHandle::IP3),
        Command::CloseValve(ValveHandle::NP1),
        Command::CloseValve(ValveHandle::NP2),
        Command::CloseValve(ValveHandle::NP4),
        Command::CloseValve(ValveHandle::IP1),
        Command::CloseValve(ValveHandle::IP2),
    ]
}

/// The sequence sent on entering safing.
pub fn safing_sequence() -> (r: CommandSequence)
    ensures
        r@ == safing_commands(),
{
    let r = CommandSequence::new().and_then(Command::OpenValve(ValveHandle::NP3)).and_then(
        Command::OpenValve(ValveHandle::IP3),
    ).and_then(Command::CloseValve(ValveHandle::NP1)).and_then(Command::CloseValve(ValveHandle::NP2)).and_then(
        Command::CloseValve(ValveHandle::NP4),
    ).and_then(Command::CloseValve(ValveHandle::IP1)).and_then(Command::CloseValve(ValveHandle::IP2));
    assert(r@ =~= safing_commands());
    r
}

/// The depressurizing sequence: NP4, IP2 and NP2 in turn are opened for five seconds and
/// closed, with a second's pause after each.
pub open spec fn depressurize_commands() -> Seq<Command> {
    seq![
        Command::OpenValve(ValveHandle::NP4),
        Command::Wait(5000),
        Command::CloseValve(ValveHandle::NP4),
        Command::Wait(1000),
        Command::OpenValve(ValveHandle::IP2),
        Command::Wait(5000),
        Command::CloseValve(ValveHandle::IP2),
        Command::Wait(1000),
        Command::OpenValve(ValveHandle::NP2),
        Command::Wait(5000),
        Command::CloseValve(ValveHandle::NP2),
        Command::Wait(1000),
        Command::Done,
    ]
}

/// The sequence behind the operator's "depressurize" control in safing.
pub fn depressurize_sequence() -> (r: CommandSequence)
    ensures
        r@ == depressurize_commands(),
{
    let r = CommandSequence::new().and_then(Command::OpenValve(ValveHandle::NP4)).and_then(
        Command::Wait(5000),
    ).and_then(Command::CloseValve(ValveHandle::NP4)).and_then(Command::Wait(1000)).and_then(
        Command::OpenValve(ValveHandle::IP2),
    ).and_then(Command::Wait(5000)).and_then(Command::CloseValve(ValveHandle::IP2)).and_then(
        Command::Wait(1000),
    ).and_then(Command::OpenValve(ValveHandle::NP2)).and_then(Command::Wait(5000)).and_then(
        Command::CloseValve(ValveHandle::NP2),
    ).and_then(Command::Wait(1000)).and_then(Command::Done);
    assert(r@ =~= depressurize_commands());
    r
}

/// Milliseconds between ignition and opening the main valves.
pub const IGNITION_DELAY_MS: u64 = 1000;

/// Milliseconds the main valves stay open after the burn, to purge propellant.
pub const PURGE_MS: u64 = 3000;

/// How the main valves NP1 and IP1 open: a non-negative offset opens NP1 first and IP1
/// `offset` milliseconds later; a negative one opens IP1 first and NP1 `|offset|` later.
pub open spec fn main_valve_opening(offset_ms: i64) -> Seq<Command> {
    if offset_ms >= 0 {
        seq![
            Command::OpenValve(ValveHandle::NP1),
            Command::Wait(offset_ms as u64),
            Command::OpenValve(ValveHandle::IP1),
        ]
    } else {
        seq![
            Command::OpenValve(ValveHandle::IP1),
            Command::Wait((0 - offset_ms) as u64),
            Command::OpenValve(ValveHandle::NP1),
        ]
    }
}

/// The firing sequence: ignite, wait a second, open the main valves as the offset says, burn
/// for `burn_ms`, purge for three seconds, then close NP1, IP1, NP2 and IP2 and open the vents
/// NP3 and IP3.
pub open spec fn fire_commands(offset_ms: i64, burn_ms: u64) -> Seq<Command> {
    seq![Command::Ignite, Command::Wait(IGNITION_DELAY_MS)] + main_valve_opening(offset_ms) + seq![
        Command::Wait(burn_ms),
        Command::Wait(PURGE_MS),
        Command::CloseValve(ValveHandle::NP1),
        Command::CloseValve(ValveHandle::IP1),
        Command::CloseValve(ValveHandle::NP2),
        Command::CloseValve(ValveHandle::IP2),
        Command::OpenValve(ValveHandle::NP3),
        Command::OpenValve(ValveHandle::IP3),
        Command::Done,
    ]
}

/// The sequence behind the operator's "fire" control in pressurization and firing.
pub fn fire_sequence(offset_ms: i64, burn_ms: u64) -> (r: CommandSequence)
    ensures
        r@ == fire_commands(offset_ms, burn_ms),
{
    let r = CommandSequence::new().and_then(Command::Ignite).and_then(
        Command::Wait(IGNITION_DELAY_MS),
    );
    let r = if offset_ms >= 0 {
        r.and_then(Command::OpenValve(ValveHandle::NP1)).and_then(
            Command::Wait(offset_ms as u64),
        ).and_then(Command::OpenValve(ValveHandle::IP1))
    } else {
        let lag: u64 = (-(offset_ms + 1)) as u64 + 1;
        r.and_then(Command::OpenValve(ValveHandle::IP1)).and_then(Command::Wait(lag)).and_then(
            Command::OpenValve(ValveHandle::NP1),
        )
    };
    let r = r.and_then(Command::Wait(burn_ms)).and_then(Command::Wait(PURGE_MS)).and_then(
        Command::CloseValve(ValveHandle::NP1),
    ).and_then(Command::CloseValve(ValveHandle::IP1)).and_then(
        Command::CloseValve(ValveHandle::NP2),
    ).and_then(Command::CloseValve(ValveHandle::IP2)).and_then(
        Command::OpenValve(ValveHandle::NP3),
    ).and_then(Command::OpenValve(ValveHandle::IP3)).and_then(Command::Done);
    assert(r@ =~= fire_commands(offset_ms, burn_ms));
    r
}

/// A manual valve command from the operator.
#[derive(Debug, Clone, Copy, PartialEq, Eq)]
pub enum ValveCommand {
    /// Open the valve with the given name.
    Open(&'static str),
    /// Close the valve with the given name.
    Close(&'static str),
}

pub open spec fn valve_command_text(c: ValveCommand) -> Seq<char> {
    match c {
        ValveCommand::Open(name) => crate::sequence::open_prefix() + name@ + seq!['\n'],
        ValveCommand::Close(name) => crate::sequence::close_prefix() + name@ + seq!['\n'],
    }
}

impl ValveCommand {
    /// The command's wire text: `\nOPEN:<name>\n` or `\nCLOSE:<name>\n`.
    pub fn to_string(self) -> (r: String)
        ensures
            r@ == valve_command_text(self),
    {
        let (mut cs, name) = match self {
            ValveCommand::Open(name) => (vec!['\n', 'O', 'P', 'E', 'N', ':'], name),
            ValveCommand::Close(name) => (vec!['\n', 'C', 'L', 'O', 'S', 'E', ':'], name),
        };
        let mut rest = crate::text::chars_of(name);
        cs.append(&mut rest);
        cs.push('\n');
        assert(cs@ =~= valve_command_text(self));
        crate::text::string_of(cs.as_slice())
    }
}

} // verus!
