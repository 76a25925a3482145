//! Decisions of the transport side: read retries, framing of outbound commands, and the
//! valve fields that the reader forwards.

use vstd::prelude::*;

use crate::codec::{SensorField, ValueModel};
use crate::decoder::fields_view;
use crate::sequence::{valve_field_name, ValveHandle};

verus! {

/// How many times a read that timed out is tried again before the reader gives up.
pub const MAX_READ_RETRYS: u32 = 16;

/// Whether a failed read of the transport should be tried again: only a timeout is, and only
/// while fewer than [`MAX_READ_RETRYS`] retries were made. `attempt` counts from zero.
pub fn should_retry_read(attempt: u32, timed_out: bool) -> (r: bool)
    ensures
        r == (timed_out && attempt < MAX_READ_RETRYS),
{
    timed_out && attempt < MAX_READ_RETRYS
}

/// The bytes written to the transport for a batch of queued commands: a newline as frame
/// separator, then each command followed by a newline.
pub open spec fn framed(commands: Seq<Seq<u8>>) -> Seq<u8>
    decreases commands.len(),
{
    if commands.len() == 0 {
        seq![10u8]
    } else {
        framed(commands.drop_last()) + commands.last() + seq![10u8]
    }
}

/// Frames a batch of queued commands for the transport.
pub fn frame_commands(commands: &[Vec<u8>]) -> (r: Vec<u8>)
    ensures
        r@ == framed(commands@.map_values(|c: Vec<u8>| c@)),
{
    let ghost all = commands@.map_values(|c: Vec<u8>| c@);
    let mut out: Vec<u8> = vec![10u8];
    let mut i: usize = 0;
    assert(all.subrange(0, 0) =~= Seq::<Seq<u8>>::empty());
    while i < commands.len()
        invariant
            i <= commands@.len(),
            all == commands@.map_values(|c: Vec<u8>| c@),
            out@ == framed(all.subrange(0, i as int)),
        decreases commands@.len() - i,
    {
        assert(all.subrange(0, i + 1).drop_last() =~= all.subrange(0, i as int));
        assert(all[i as int] == commands@[i as int]@);
        let c = &commands[i];
        let mut j: usize = 0;
        let ghost base = out@;
        while j < c.len()
            invariant
                j <= c@.len(),
                out@ == base + c@.subrange(0, j as int),
            decreases c@.len() - j,
        {
            out.push(c[j]);
            j = j + 1;
            assert(out@ =~= base + c@.subrange(0, j as int));
        }
        out.push(10u8);
        assert(out@ =~= base + c@ + seq![10u8]);
        i = i + 1;
    }
    assert(all.subrange(0, i as int) =~= all);
    out
}

/// Whether a name is one of the seven valve position fields (`NP1_OPEN` and so on).
pub open spec fn is_valve_field_name(n: Seq<char>) -> bool {
    exists|h: ValveHandle| n == valve_field_name(h)
}

/// The fields that report a valve position, in order.
pub open spec fn valve_fields_only(s: Seq<(Seq<char>, ValueModel)>) -> Seq<(Seq<char>, ValueModel)>
    decreases s.len(),
{
    if s.len() == 0 {
        s
    } else if is_valve_field_name(s.last().0) {
        valve_fields_only(s.drop_last()).push(s.last())
    } else {
        valve_fields_only(s.drop_last())
    }
}

fn is_valve_field(name: &String) -> (r: bool)
    ensures
        r == is_valve_field_name(name@),
{
    let handles = [
        ValveHandle::NP1,
        ValveHandle::NP2,
        ValveHandle::NP3,
        ValveHandle::NP4,
        ValveHandle::IP1,
        ValveHandle::IP2,
        ValveHandle::IP3,
    ];
    let mut i: usize = 0;
    while i < 7
        invariant
            i <= 7,
            forall|j: int| 0 <= j < i ==> name@ != valve_field_name(#[trigger] handles@[j]),
        decreases 7 - i,
    {
        let n = handles[i].field_name();
        if name.eq(&n) {
            return true;
        }
        i = i + 1;
    }
    assert forall|h: ValveHandle| name@ != valve_field_name(h) by {
        match h {
            ValveHandle::NP1 => assert(handles@[0] == h),
            ValveHandle::NP2 => assert(handles@[1] == h),
            ValveHandle::NP3 => assert(handles@[2] == h),
            ValveHandle::NP4 => assert(handles@[3] == h),
            ValveHandle::IP1 => assert(handles@[4] == h),
            ValveHandle::IP2 => assert(handles@[5] == h),
            ValveHandle::IP3 => assert(handles@[6] == h),
        }
    }
    false
}

/// Keeps only the fields that report a valve position, in order.
pub fn retain_valve_fields(fields: Vec<SensorField>) -> (r: Vec<SensorField>)
    ensures
        fields_view(r@) == valve_fields_only(fields_view(fields@)),
{
    let ghost all = fields_view(fields@);
    let mut out: Vec<SensorField> = Vec::new();
    let mut i: usize = 0;
    while i < fields.len()
        invariant
            i <= fields@.len(),
            all == fields_view(fields@),
            fields_view(out@) == valve_fields_only(all.subrange(0, i as int)),
        decreases fields@.len() - i,
    {
        assert(all.subrange(0, i + 1).drop_last() =~= all.subrange(0, i as int));
        assert(all[i as int] == fields@[i as int]@);
        if is_valve_field(&fields[i].name) {
            let ghost before = out@;
            out.push(fields[i].copy());
            assert(fields_view(out@) =~= fields_view(before).push(fields@[i as int]@));
        }
        i = i + 1;
    }
    assert(all.subrange(0, i as int) =~= all);
    out
}

/// A serial port that was expected to be a USB port was not one.
#[derive(Debug, Clone, Copy, PartialEq, Eq, Structural)]
pub struct NonUsbError;

impl NonUsbError {
    /// What went wrong, for the operator.
    pub fn message(&self) -> (r: &'static str)
        ensures
            r@ == "Expected USB but was not USB"@,
    {
        "Expected USB but was not USB"
    }
}

} // verus!
