//! What recording values on an open span leaves behind, call by call.

use crate::deferred_values::{
    deferred_fields, deferred_value, lemma_first_record, lemma_updated_at, replays, updated,
    updated_all, DeferredValue, DeferredValues,
};
use crate::event_writer::EventData;
use crate::field::{Field, FieldValue, Recorded, Value};
use crate::laws::emitted::told_stored;
use crate::laws::layout::{are_fields, lemma_are_fields};
use crate::subscriber::{SpanState, TracelogSubscriber};
use vstd::prelude::*;
use vstd::string::*;

verus! {

/// One field: the same position at the same callsite.
pub open spec fn same_field(a: Field, b: Field) -> bool {
    a.callsite == b.callsite && a.index == b.index
}

/// What is kept of a recorded value: a rendering and a text as that text, a
/// number and a truth value as themselves, an error as its own message.
pub open spec fn stored_value(value: FieldValue) -> Value {
    match value {
        FieldValue::Debug(text) => Value::Text(text@),
        FieldValue::Str(text) => Value::Text(text@),
        FieldValue::Error { message, .. } => Value::Text(message@),
        FieldValue::Signed(v) => Value::Signed(v),
        FieldValue::Unsigned(v) => Value::Unsigned(v),
        FieldValue::Boolean(v) => Value::Boolean(v),
    }
}

/// No field stands twice.
pub open spec fn each_once(values: Seq<(Field, Value)>) -> bool {
    forall|i: int, j: int|
        0 <= i < j < values.len() ==> !same_field(
            (#[trigger] values[i]).0,
            (#[trigger] values[j]).0,
        )
}

/// The field stands nowhere before the given place.
pub open spec fn not_before(values: Seq<(Field, Value)>, at: int, field: Field) -> bool {
    forall|i: int| 0 <= i < at ==> !same_field((#[trigger] values[i]).0, field)
}

/// A value was recorded: it took the place of the one that the field had, and
/// nothing else changed; or the field had none, and it came last.
pub open spec fn is_recorded(
    before: Seq<(Field, Value)>,
    field: Field,
    value: Value,
    after: Seq<(Field, Value)>,
) -> bool {
    ||| exists|i: int|
        0 <= i < before.len() && same_field((#[trigger] before[i]).0, field) && not_before(
            before,
            i,
            field,
        ) && after == before.update(i, (before[i].0, value))
    ||| not_before(before, before.len() as int, field) && after == before.push((field, value))
}

/// The values before the first record, between the records, and after the last
/// one.
pub open spec fn are_states(
    states: Seq<Seq<(Field, Value)>>,
    before: Seq<(Field, Value)>,
    records: Seq<Recorded>,
    after: Seq<(Field, Value)>,
) -> bool {
    &&& states.len() == records.len() + 1
    &&& states[0] == before
    &&& states.last() == after
    &&& forall|i: int|
        0 <= i < records.len() ==> is_recorded(
            states[i],
            (#[trigger] records[i]).field,
            stored_value(records[i].value),
            states[i + 1],
        )
}

/// Records were stored, one after the other.
pub open spec fn are_recorded(
    before: Seq<(Field, Value)>,
    records: Seq<Recorded>,
    after: Seq<(Field, Value)>,
) -> bool {
    exists|states: Seq<Seq<(Field, Value)>>| are_states(states, before, records, after)
}

/// The `k`th record is the last one for its field.
pub open spec fn is_last_record(records: Seq<Recorded>, k: int) -> bool {
    &&& 0 <= k < records.len()
    &&& forall|j: int|
        k < j < records.len() ==> !same_field((#[trigger] records[j]).field, records[k].field)
}

/// The field stands among the values, and has this one.
pub open spec fn has_value(values: Seq<(Field, Value)>, field: Field, value: Value) -> bool {
    exists|i: int|
        0 <= i < values.len() && same_field((#[trigger] values[i]).0, field) && values[i].1 == value
}

proof fn lemma_is_recorded(before: Seq<(Field, Value)>, field: Field, value: Value)
    ensures
        is_recorded(before, field, value, updated(before, field, value)),
{
    let at = lemma_first_record(before, field);
    lemma_updated_at(before, field, value, at);
    assert forall|i: int| 0 <= i < at implies !same_field((#[trigger] before[i]).0, field) by {
        assert(!before[i].0.same(field));
    }
    if at < before.len() {
        assert(same_field(before[at].0, field));
    }
}

proof fn lemma_stored_value(value: FieldValue)
    ensures
        deferred_value(value) == stored_value(value),
{
}

proof fn lemma_are_recorded(before: Seq<(Field, Value)>, records: Seq<Recorded>)
    ensures
        are_recorded(before, records, updated_all(before, records)),
{
    let states = Seq::new(records.len() + 1, |i: int| updated_all(before, records.take(i)));
    assert(records.take(0) =~= Seq::empty());
    assert(records.take(records.len() as int) =~= records);
    assert forall|i: int| 0 <= i < records.len() implies is_recorded(
        states[i],
        (#[trigger] records[i]).field,
        stored_value(records[i].value),
        states[i + 1],
    ) by {
        assert(records.take(i + 1).drop_last() =~= records.take(i));
        assert(records.take(i + 1).last() == records[i]);
        lemma_stored_value(records[i].value);
        lemma_is_recorded(states[i], records[i].field, stored_value(records[i].value));
    }
    assert(are_states(states, before, records, updated_all(before, records)));
}

proof fn lemma_each_once(values: Seq<(Field, Value)>)
    requires
        crate::deferred_values::fields_distinct(values),
    ensures
        each_once(values),
{
    assert forall|i: int, j: int| 0 <= i < j < values.len() implies !same_field(
        (#[trigger] values[i]).0,
        (#[trigger] values[j]).0,
    ) by {
        assert(!values[i].0.same(values[j].0));
    }
}

/// One record gives its field its value, and leaves the value of every other
/// field as it was.
proof fn lemma_value_after(
    before: Seq<(Field, Value)>,
    field: Field,
    value: Value,
    after: Seq<(Field, Value)>,
    other: Field,
    kept: Value,
)
    requires
        is_recorded(before, field, value, after),
    ensures
        has_value(after, field, value),
        has_value(before, other, kept) && !same_field(other, field) ==> has_value(
            after,
            other,
            kept,
        ),
{
    if not_before(before, before.len() as int, field) && after == before.push((field, value)) {
        assert(same_field(after[before.len() as int].0, field));
    } else {
        let i = choose|i: int|
            0 <= i < before.len() && same_field((#[trigger] before[i]).0, field) && not_before(
                before,
                i,
                field,
            ) && after == before.update(i, (before[i].0, value));
        assert(same_field(after[i].0, field));
    }
    if has_value(before, other, kept) && !same_field(other, field) {
        let k = choose|i: int|
            0 <= i < before.len() && same_field((#[trigger] before[i]).0, other) && before[i].1
                == kept;
        assert(after[k] == before[k]);
    }
}

proof fn lemma_last_value(
    states: Seq<Seq<(Field, Value)>>,
    before: Seq<(Field, Value)>,
    records: Seq<Recorded>,
    after: Seq<(Field, Value)>,
    k: int,
    m: int,
)
    requires
        are_states(states, before, records, after),
        is_last_record(records, k),
        k < m <= records.len(),
    ensures
        has_value(states[m], records[k].field, stored_value(records[k].value)),
    decreases m,
{
    let value = stored_value(records[k].value);
    let last = records[m - 1];
    assert(is_recorded(states[m - 1], last.field, stored_value(last.value), states[m]));
    lemma_value_after(
        states[m - 1],
        last.field,
        stored_value(last.value),
        states[m],
        records[k].field,
        value,
    );
    if k < m - 1 {
        lemma_last_value(states, before, records, after, k, m - 1);
        assert(!same_field(last.field, records[k].field));
    }
}

/// Storing records stores them one after the other, each field once.
pub proof fn law_store(values: &mut DeferredValues, records: &[Recorded])
    requires
        call_ensures(DeferredValues::store, (values, records), ()),
    ensures
        are_recorded(old(values)@, records@, final(values)@),
        each_once(final(values)@),
{
    lemma_are_recorded(old(values)@, records@);
    lemma_each_once(final(values)@);
}

/// After records were stored, each field that they have has the value of the
/// last record for it: a rendering and a text are kept whole, an error by its
/// message.
pub proof fn law_store_keeps_last(values: &mut DeferredValues, records: &[Recorded], k: int)
    requires
        call_ensures(DeferredValues::store, (values, records), ()),
        is_last_record(records@, k),
    ensures
        has_value(final(values)@, records@[k].field, stored_value(records@[k].value)),
{
    law_store(values, records);
    let states = choose|states: Seq<Seq<(Field, Value)>>|
        are_states(states, old(values)@, records@, final(values)@);
    lemma_last_value(
        states,
        old(values)@,
        records@,
        final(values)@,
        k,
        records@.len() as int,
    );
}

/// A rendering is kept as the same text recorded as a text is, and so is the
/// message of an error: stores that were equal stay equal.
pub proof fn law_rendering_is_kept_as_text(
    one: &mut DeferredValues,
    two: &mut DeferredValues,
    renderings: &[Recorded],
    texts: &[Recorded],
)
    requires
        call_ensures(DeferredValues::store, (one, renderings), ()),
        call_ensures(DeferredValues::store, (two, texts), ()),
        old(one)@ == old(two)@,
        renderings@.len() == texts@.len(),
        forall|i: int|
            0 <= i < texts@.len() ==> (#[trigger] texts@[i]).field == renderings@[i].field && (
            texts@[i].value matches FieldValue::Str(text) && match renderings@[i].value {
                FieldValue::Debug(rendered) => rendered@ == text@,
                FieldValue::Error { message, .. } => message@ == text@,
                _ => false,
            }),
    ensures
        final(one)@ == final(two)@,
{
    lemma_same_updates(old(one)@, renderings@, texts@);
}

proof fn lemma_same_updates(
    values: Seq<(Field, Value)>,
    one: Seq<Recorded>,
    two: Seq<Recorded>,
)
    requires
        one.len() == two.len(),
        forall|i: int|
            0 <= i < two.len() ==> (#[trigger] two[i]).field == one[i].field && stored_value(
                two[i].value,
            ) == stored_value(one[i].value),
    ensures
        updated_all(values, one) == updated_all(values, two),
    decreases one.len(),
{
    if one.len() > 0 {
        lemma_stored_value(one.last().value);
        lemma_stored_value(two.last().value);
        assert(two[two.len() - 1].field == one[one.len() - 1].field);
        assert forall|i: int| 0 <= i < two.drop_last().len() implies (
        #[trigger] two.drop_last()[i]).field == one.drop_last()[i].field && stored_value(
            two.drop_last()[i].value,
        ) == stored_value(one.drop_last()[i].value) by {
            assert(two[i].field == one[i].field);
        }
        lemma_same_updates(values, one.drop_last(), two.drop_last());
    }
}

/// What a stored value says.
pub open spec fn plain_value(value: DeferredValue) -> Value {
    match value {
        DeferredValue::Unsigned(v) => Value::Unsigned(v),
        DeferredValue::Signed(v) => Value::Signed(v),
        DeferredValue::Boolean(v) => Value::Boolean(v),
        DeferredValue::String(v) => Value::Text(v@),
    }
}

/// An update gives its field its value and changes nothing else.
pub proof fn law_update(values: &mut DeferredValues, field: &Field, value: DeferredValue)
    requires
        call_ensures(DeferredValues::update, (values, field, value), ()),
    ensures
        is_recorded(old(values)@, *field, plain_value(value), final(values)@),
        each_once(final(values)@),
{
    lemma_is_recorded(old(values)@, *field, plain_value(value));
    lemma_each_once(final(values)@);
}

/// A rendering is stored as that text.
pub proof fn law_store_debug(values: &mut DeferredValues, field: &Field, rendered: &str)
    requires
        call_ensures(DeferredValues::record_debug, (values, field, rendered), ()),
    ensures
        is_recorded(old(values)@, *field, Value::Text(rendered@), final(values)@),
{
    lemma_is_recorded(old(values)@, *field, Value::Text(rendered@));
}

/// A text is stored as that text.
pub proof fn law_store_str(values: &mut DeferredValues, field: &Field, value: &str)
    requires
        call_ensures(DeferredValues::record_str, (values, field, value), ()),
    ensures
        is_recorded(old(values)@, *field, Value::Text(value@), final(values)@),
{
    lemma_is_recorded(old(values)@, *field, Value::Text(value@));
}

/// A signed number is stored as that number.
pub proof fn law_store_i64(values: &mut DeferredValues, field: &Field, value: i64)
    requires
        call_ensures(DeferredValues::record_i64, (values, field, value), ()),
    ensures
        is_recorded(old(values)@, *field, Value::Signed(value), final(values)@),
{
    lemma_is_recorded(old(values)@, *field, Value::Signed(value));
}

/// An unsigned number is stored as that number.
pub proof fn law_store_u64(values: &mut DeferredValues, field: &Field, value: u64)
    requires
        call_ensures(DeferredValues::record_u64, (values, field, value), ()),
    ensures
        is_recorded(old(values)@, *field, Value::Unsigned(value), final(values)@),
{
    lemma_is_recorded(old(values)@, *field, Value::Unsigned(value));
}

/// A truth value is stored as that truth value.
pub proof fn law_store_bool(values: &mut DeferredValues, field: &Field, value: bool)
    requires
        call_ensures(DeferredValues::record_bool, (values, field, value), ()),
    ensures
        is_recorded(old(values)@, *field, Value::Boolean(value), final(values)@),
{
    lemma_is_recorded(old(values)@, *field, Value::Boolean(value));
}

/// The stored values are replayed in order, each under its field and with its
/// value, a text as a text.
pub proof fn law_replay(values: &DeferredValues, r: Vec<Recorded>)
    requires
        call_ensures(DeferredValues::replay, (values,), r),
    ensures
        r@.len() == values@.len(),
        forall|i: int|
            0 <= i < values@.len() ==> {
                &&& (#[trigger] r@[i]).field == values@[i].0
                &&& stored_value(r@[i].value) == values@[i].1
                &&& r@[i].value !is Debug
                &&& r@[i].value !is Error
            },
        each_once(values@),
{
    assert(replays(r@, values@));
    lemma_each_once(values@);
}

/// The stored values are added to an event in order, each under the name of its
/// field.
pub proof fn law_record_stored<'a>(values: &DeferredValues, event: &mut EventData<'a>)
    requires
        call_ensures(DeferredValues::record, (values, event), ()),
    ensures
        old(event).metadata@.is_prefix_of(final(event).metadata@),
        old(event).data@.is_prefix_of(final(event).data@),
        are_fields(
            old(event).aliases@,
            old(event).tracing_log,
            told_stored(values@),
            final(event).metadata@.skip(old(event).metadata@.len() as int),
            final(event).data@.skip(old(event).data@.len() as int),
        ),
        final(event).aliases@ == old(event).aliases@,
        final(event).tracing_log == old(event).tracing_log,
{
    let naming = old(event).naming();
    let before = old(event)@;
    let after = final(event)@;
    assert(deferred_fields(values@) =~= told_stored(values@));
    lemma_are_fields(naming, told_stored(values@));
    let part = naming.fields(told_stored(values@));
    assert(final(event).naming() == naming);
    assert(after.metadata == before.metadata + part.metadata);
    assert(after.data == before.data + part.data);
    assert(before.metadata =~= after.metadata.subrange(0, before.metadata.len() as int));
    assert(before.data =~= after.data.subrange(0, before.data.len() as int));
    assert(after.metadata.skip(before.metadata.len() as int) =~= part.metadata);
    assert(after.data.skip(before.data.len() as int) =~= part.data);
}

/// What is stored on a span.
pub open spec fn stored_on(span: SpanState) -> Seq<(Field, Value)> {
    match span.deferred {
        Some(values) => values@,
        None => Seq::empty(),
    }
}

/// Values recorded on a span are kept with it, one after the other, behind what
/// was kept already; its activity stays.
pub proof fn law_on_record(t: &TracelogSubscriber, span: &mut SpanState, values: &[Recorded])
    requires
        call_ensures(TracelogSubscriber::on_record, (t, span, values), ()),
    ensures
        final(span).deferred is Some,
        are_recorded(stored_on(*old(span)), values@, stored_on(*final(span))),
        final(span).activity_id == old(span).activity_id,
{
    assert(final(span)@ == old(span)@.recorded(values@));
    lemma_are_recorded(stored_on(*old(span)), values@);
}

/// After values were recorded on a span, each field that they have is kept with
/// the value last recorded for it.
pub proof fn law_on_record_keeps_last(
    t: &TracelogSubscriber,
    span: &mut SpanState,
    values: &[Recorded],
    k: int,
)
    requires
        call_ensures(TracelogSubscriber::on_record, (t, span, values), ()),
        is_last_record(values@, k),
    ensures
        has_value(stored_on(*final(span)), values@[k].field, stored_value(values@[k].value)),
{
    law_on_record(t, span, values);
    let before = stored_on(*old(span));
    let after = stored_on(*final(span));
    let states = choose|states: Seq<Seq<(Field, Value)>>|
        are_states(states, before, values@, after);
    lemma_last_value(states, before, values@, after, k, values@.len() as int);
}

/// Two fields are taken for one exactly if they stand at the same position of
/// the same callsite, whatever their names.
pub proof fn law_is_same(field: &Field, other: &Field, r: bool)
    requires
        call_ensures(Field::is_same, (field, other), r),
    ensures
        r <==> same_field(*field, *other),
{
}

} // verus!
