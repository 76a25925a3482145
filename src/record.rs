//! The text of telemetry recordings: header and row cells.

use vstd::prelude::*;
use vstd::string::StringExecFns;

use crate::codec::{literal_of, SensorField, ValueModel};
use crate::decoder::fields_view;

verus! {

/// The value of the first field named `name`, if any.
pub open spec fn first_value(name: Seq<char>, fields: Seq<(Seq<char>, ValueModel)>) -> Option<
    ValueModel,
>
    decreases fields.len(),
{
    if fields.len() == 0 {
        None
    } else if fields[0].0 == name {
        Some(fields[0].1)
    } else {
        first_value(name, fields.drop_first())
    }
}

proof fn lemma_first_value_at(name: Seq<char>, fields: Seq<(Seq<char>, ValueModel)>, i: int)
    requires
        0 <= i <= fields.len(),
        forall|j: int| 0 <= j < i ==> fields[j].0 != name,
    ensures
        first_value(name, fields) == (if i < fields.len() && fields[i].0 == name {
            Some(fields[i].1)
        } else {
            first_value(name, fields.subrange(i, fields.len() as int))
        }),
    decreases i,
{
    if i == 0 {
        assert(fields.subrange(0, fields.len() as int) =~= fields);
    } else {
        let rest = fields.drop_first();
        assert forall|j: int| 0 <= j < i - 1 implies rest[j].0 != name by {
            assert(rest[j] == fields[j + 1]);
        }
        lemma_first_value_at(name, rest, i - 1);
        assert(rest.subrange(i - 1, rest.len() as int) =~= fields.subrange(i, fields.len() as int));
    }
}

/// The header row of a recording, without its line end: `Time (Seconds)`, then `,<name>` for
/// each recorded field.
pub open spec fn header_text(names: Seq<Seq<char>>) -> Seq<char>
    decreases names.len(),
{
    if names.len() == 0 {
        "Time (Seconds)"@
    } else {
        header_text(names.drop_last()) + ","@ + names.last()
    }
}

/// The cells of a recorded row after its time column: `,<literal>` for each recorded field,
/// from the first field of that name, or a bare `,` where there is none.
pub open spec fn cells_text(names: Seq<Seq<char>>, fields: Seq<(Seq<char>, ValueModel)>) -> Seq<
    char,
>
    decreases names.len(),
{
    if names.len() == 0 {
        Seq::empty()
    } else {
        cells_text(names.drop_last(), fields) + ","@ + match first_value(names.last(), fields) {
            Some(v) => literal_of(v),
            None => Seq::empty(),
        }
    }
}

pub open spec fn names_view(names: Seq<String>) -> Seq<Seq<char>> {
    names.map_values(|n: String| n@)
}

/// The header row of a recording of the given fields, without its line end.
pub fn record_header(field_names: &[String]) -> (r: String)
    ensures
        r@ == header_text(names_view(field_names@)),
{
    let ghost all = names_view(field_names@);
    let mut r = String::from_str("Time (Seconds)");
    let mut i: usize = 0;
    while i < field_names.len()
        invariant
            i <= field_names@.len(),
            all == names_view(field_names@),
            r@ == header_text(all.subrange(0, i as int)),
        decreases field_names@.len() - i,
    {
        assert(all.subrange(0, i + 1).drop_last() =~= all.subrange(0, i as int));
        assert(all[i as int] == field_names@[i as int]@);
        r.append(",");
        r.append(field_names[i].as_str());
        i = i + 1;
    }
    assert(all.subrange(0, i as int) =~= all);
    r
}

/// The cells of a recorded row after its time column: each recorded field's value in its
/// literal form, comma first, empty where the field is missing.
pub fn record_cells(field_names: &[String], fields: &[SensorField]) -> (r: String)
    ensures
        r@ == cells_text(names_view(field_names@), fields_view(fields@)),
{
    let ghost all = names_view(field_names@);
    let ghost fv = fields_view(fields@);
    let mut r = String::new();
    let mut i: usize = 0;
    while i < field_names.len()
        invariant
            i <= field_names@.len(),
            all == names_view(field_names@),
            fv == fields_view(fields@),
            r@ == cells_text(all.subrange(0, i as int), fv),
        decreases field_names@.len() - i,
    {
        assert(all.subrange(0, i + 1).drop_last() =~= all.subrange(0, i as int));
        assert(all[i as int] == field_names@[i as int]@);
        r.append(",");
        let name = &field_names[i];
        let mut j: usize = 0;
        while j < fields.len()
            invariant
                j <= fields@.len(),
                fv == fields_view(fields@),
                forall|k: int| 0 <= k < j ==> fv[k].0 != name@,
                i < field_names@.len(),
                all == names_view(field_names@),
                name@ == all[i as int],
                r@ == cells_text(all.subrange(0, i as int), fv) + ","@,
            ensures
                j <= fields@.len(),
                forall|k: int| 0 <= k < j ==> fv[k].0 != name@,
                j < fields@.len() ==> fv[j as int].0 == name@,
                r@ == cells_text(all.subrange(0, i as int), fv) + ","@,
            decreases fields@.len() - j,
        {
            assert(fv[j as int] == fields@[j as int]@);
            if fields[j].name.eq(name) {
                break;
            }
            j = j + 1;
        }
        proof {
            lemma_first_value_at(name@, fv, j as int);
            if j < fields@.len() {
                assert(fv[j as int] == fields@[j as int]@);
            } else {
                assert(fv.subrange(j as int, fv.len() as int).len() == 0);
            }
        }
        let ghost prev = r@;
        let ghost cell = match first_value(name@, fv) {
            Some(v) => literal_of(v),
            None => Seq::<char>::empty(),
        };
        assert(all.subrange(0, i + 1).last() == name@);
        assert(cells_text(all.subrange(0, i + 1), fv) == cells_text(all.subrange(0, i as int), fv)
            + ","@ + cell);
        if j < fields.len() {
            let text = fields[j].value.to_text();
            r.append(text.as_str());
            assert(r@ == prev + cell);
        } else {
            assert(r@ =~= prev + cell);
        }
        assert(r@ =~= cells_text(all.subrange(0, i + 1), fv));
        i = i + 1;
    }
    assert(all.subrange(0, i as int) =~= all);
    r
}

} // verus!
