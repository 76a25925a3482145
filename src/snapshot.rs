//! The field table: the latest value of each telemetry field, by name.

use vstd::prelude::*;

use crate::codec::{SensorField, SensorValue, ValueModel};
use crate::decoder::fields_view;
use crate::sequence::{valve_field_name, ValveHandle};
use crate::stand::{lemma_valve_state_at, reported_state, valve_state_spec, StandState, ValveState};

verus! {

/// The map that a list of name/value entries stands for: a later entry for a name replaces an
/// earlier one.
pub open spec fn entries_map(s: Seq<(Seq<char>, ValueModel)>) -> Map<Seq<char>, ValueModel>
    decreases s.len(),
{
    if s.len() == 0 {
        Map::empty()
    } else {
        entries_map(s.drop_last()).insert(s.last().0, s.last().1)
    }
}

/// No two entries share a name.
pub open spec fn names_unique(s: Seq<(Seq<char>, ValueModel)>) -> bool {
    forall|i: int, j: int| 0 <= i < j < s.len() ==> s[i].0 != s[j].0
}

/// What merging fields into a table in order gives: each field sets its name's value.
pub open spec fn merged(m: Map<Seq<char>, ValueModel>, fields: Seq<(Seq<char>, ValueModel)>) -> Map<
    Seq<char>,
    ValueModel,
>
    decreases fields.len(),
{
    if fields.len() == 0 {
        m
    } else {
        merged(m, fields.drop_last()).insert(fields.last().0, fields.last().1)
    }
}

proof fn lemma_entries_map_index(s: Seq<(Seq<char>, ValueModel)>, i: int)
    requires
        names_unique(s),
        0 <= i < s.len(),
    ensures
        entries_map(s).contains_key(s[i].0),
        entries_map(s)[s[i].0] == s[i].1,
    decreases s.len(),
{
    if i < s.len() - 1 {
        lemma_entries_map_index(s.drop_last(), i);
        assert(s.drop_last()[i] == s[i]);
    }
}

proof fn lemma_entries_map_absent(s: Seq<(Seq<char>, ValueModel)>, k: Seq<char>)
    requires
        forall|i: int| 0 <= i < s.len() ==> s[i].0 != k,
    ensures
        !entries_map(s).contains_key(k),
    decreases s.len(),
{
    if s.len() > 0 {
        lemma_entries_map_absent(s.drop_last(), k);
    }
}

proof fn lemma_entries_map_update(
    s: Seq<(Seq<char>, ValueModel)>,
    i: int,
    e: (Seq<char>, ValueModel),
)
    requires
        names_unique(s),
        0 <= i < s.len(),
        s[i].0 == e.0,
    ensures
        entries_map(s.update(i, e)) == entries_map(s).insert(e.0, e.1),
    decreases s.len(),
{
    let u = s.update(i, e);
    if i == s.len() - 1 {
        assert(u.drop_last() =~= s.drop_last());
        assert(entries_map(u) =~= entries_map(s).insert(e.0, e.1));
    } else {
        lemma_entries_map_update(s.drop_last(), i, e);
        assert(u.drop_last() =~= s.drop_last().update(i, e));
        assert(s.last().0 != e.0);
        assert(entries_map(u) =~= entries_map(s).insert(e.0, e.1));
    }
}

/// The latest known value of each telemetry field, by name.
#[derive(Debug, Clone)]
pub struct FieldSnapshot {
    fields: Vec<SensorField>,
}

impl View for FieldSnapshot {
    type V = Map<Seq<char>, ValueModel>;

    closed spec fn view(&self) -> Map<Seq<char>, ValueModel> {
        entries_map(fields_view(self.fields@))
    }
}

impl FieldSnapshot {
    /// No field appears twice.
    pub closed spec fn wf(&self) -> bool {
        names_unique(fields_view(self.fields@))
    }

    /// An empty table.
    pub fn new() -> (r: FieldSnapshot)
        ensures
            r.wf(),
            r@ == Map::<Seq<char>, ValueModel>::empty(),
    {
        let r = FieldSnapshot { fields: Vec::new() };
        assert(fields_view(r.fields@) =~= Seq::<(Seq<char>, ValueModel)>::empty());
        r
    }

    /// Records a published field: its name now maps to its value, replacing any earlier
    /// value; every other name keeps its value.
    pub fn insert(&mut self, field: SensorField)
        requires
            old(self).wf(),
        ensures
            final(self).wf(),
            final(self)@ == old(self)@.insert(field.name@, field.value@),
    {
        let ghost before = fields_view(self.fields@);
        let mut i: usize = 0;
        while i < self.fields.len()
            invariant
                i <= self.fields@.len(),
                before == fields_view(self.fields@),
                before == fields_view(old(self).fields@),
                names_unique(before),
                forall|j: int| 0 <= j < i ==> before[j].0 != field.name@,
            decreases self.fields@.len() - i,
        {
            assert(before[i as int] == self.fields@[i as int]@);
            if self.fields[i].name.eq(&field.name) {
                let ghost e = field@;
                self.fields.set(i, field);
                proof {
                    assert(before[i as int].0 == e.0);
                    lemma_entries_map_update(before, i as int, e);
                    assert(fields_view(self.fields@) =~= before.update(i as int, e));
                    assert(self@ == entries_map(before.update(i as int, e)));
                }
                return;
            }
            i = i + 1;
        }
        let ghost e = field@;
        self.fields.push(field);
        proof {
            assert(fields_view(self.fields@) =~= before.push(e));
            assert(fields_view(self.fields@).drop_last() =~= before);
            assert forall|a: int, b: int|
                0 <= a < b < fields_view(self.fields@).len() implies fields_view(
                self.fields@,
            )[a].0 != fields_view(self.fields@)[b].0 by {
                if b == before.len() {
                    assert(fields_view(self.fields@)[a] == before[a]);
                } else {
                    assert(fields_view(self.fields@)[a] == before[a]);
                    assert(fields_view(self.fields@)[b] == before[b]);
                }
            }
        }
    }

    /// Records published fields in the order they came: for a name published more than once,
    /// the last value stays.
    pub fn merge(&mut self, fields: Vec<SensorField>)
        requires
            old(self).wf(),
        ensures
            final(self).wf(),
            final(self)@ == merged(old(self)@, fields_view(fields@)),
    {
        let ghost start = self@;
        let ghost all = fields_view(fields@);
        let mut i: usize = 0;
        while i < fields.len()
            invariant
                i <= fields@.len(),
                all == fields_view(fields@),
                self.wf(),
                self@ == merged(start, all.subrange(0, i as int)),
            decreases fields@.len() - i,
        {
            assert(all.subrange(0, i + 1).drop_last() =~= all.subrange(0, i as int));
            assert(all[i as int] == fields@[i as int]@);
            self.insert(fields[i].copy());
            i = i + 1;
        }
        assert(all.subrange(0, i as int) =~= all);
    }

    /// The latest value of the field called `field_name`, if one was ever recorded.
    pub fn get_field(&self, field_name: &str) -> (r: Option<&SensorValue>)
        requires
            self.wf(),
        ensures
            match r {
                Some(v) => self@.contains_key(field_name@) && v@ == self@[field_name@],
                None => !self@.contains_key(field_name@),
            },
    {
        let key = crate::text::string_of(crate::text::chars_of(field_name).as_slice());
        let ghost fv = fields_view(self.fields@);
        let mut i: usize = 0;
        while i < self.fields.len()
            invariant
                i <= self.fields@.len(),
                fv == fields_view(self.fields@),
                key@ == field_name@,
                names_unique(fv),
                forall|j: int| 0 <= j < i ==> fv[j].0 != field_name@,
            decreases self.fields@.len() - i,
        {
            assert(fv[i as int] == self.fields@[i as int]@);
            if self.fields[i].name.eq(&key) {
                proof {
                    lemma_entries_map_index(fv, i as int);
                }
                return Some(&self.fields[i].value);
            }
            i = i + 1;
        }
        proof {
            lemma_entries_map_absent(fv, field_name@);
        }
        None
    }

    /// Every recorded field, once each, in no particular order.
    pub fn fields(&self) -> (r: &[SensorField])
        requires
            self.wf(),
        ensures
            names_unique(fields_view(r@)),
            entries_map(fields_view(r@)) == self@,
    {
        self.fields.as_slice()
    }

    /// The stand state recomputed from this table, keeping `state`'s mode: each valve reads
    /// as its `<VALVE>_OPEN` field says, and as unknown when that field is missing or is not
    /// a boolean.
    pub fn stand_state(&self, state: &StandState) -> (r: StandState)
        requires
            self.wf(),
        ensures
            r.mode_spec() == state.mode_spec(),
            forall|h: ValveHandle| #[trigger] r.valve(h) == table_valve_state(self@, h),
    {
        let mut s = *state;
        s.update(self.fields.as_slice());
        proof {
            assert forall|h: ValveHandle| #[trigger] s.valve(h) == table_valve_state(self@, h) by {
                lemma_valve_state_unique(valve_field_name(h), fields_view(self.fields@));
            }
        }
        s
    }
}

/// The position that a field table reports for a valve.
pub open spec fn table_valve_state(m: Map<Seq<char>, ValueModel>, h: ValveHandle) -> Option<
    ValveState,
> {
    if m.contains_key(valve_field_name(h)) {
        reported_state(m[valve_field_name(h)])
    } else {
        None
    }
}

proof fn lemma_valve_state_unique(name: Seq<char>, s: Seq<(Seq<char>, ValueModel)>)
    requires
        names_unique(s),
    ensures
        valve_state_spec(name, s) == (if entries_map(s).contains_key(name) {
            reported_state(entries_map(s)[name])
        } else {
            None
        }),
{
    if exists|j: int| 0 <= j < s.len() && s[j].0 == name {
        let j = choose|j: int| 0 <= j < s.len() && s[j].0 == name;
        lemma_valve_state_at(name, s, j);
        lemma_entries_map_index(s, j);
    } else {
        lemma_valve_state_at(name, s, s.len() as int);
        lemma_entries_map_absent(s, name);
    }
}

/// Merging two fields with the same name leaves only the later value: the same as merging
/// the later one alone.
pub proof fn lemma_merge_latest_wins(
    m: Map<Seq<char>, ValueModel>,
    first: (Seq<char>, ValueModel),
    second: (Seq<char>, ValueModel),
)
    requires
        first.0 == second.0,
    ensures
        merged(m, seq![first, second]) == merged(m, seq![second]),
        merged(m, seq![first, second])[second.0] == second.1,
{
    assert(seq![first, second].drop_last() =~= seq![first]);
    assert(seq![first].drop_last() =~= Seq::<(Seq<char>, ValueModel)>::empty());
    assert(seq![second].drop_last() =~= Seq::<(Seq<char>, ValueModel)>::empty());
    assert(merged(m, seq![first]) == merged(m, Seq::empty()).insert(first.0, first.1));
    assert(merged(m, seq![second]) == merged(m, Seq::empty()).insert(second.0, second.1));
    assert(merged(m, seq![first, second]) == merged(m, seq![first]).insert(second.0, second.1));
    assert(merged(m, seq![first, second]) =~= merged(m, seq![second]));
}

} // verus!
