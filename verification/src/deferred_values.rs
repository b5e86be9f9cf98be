//! Defers values recorded on an open span until the span closes.
//!
//! Ideally each such record would be emitted as another event and the analysis
//! tools would aggregate them, but WPA and friends don't.

use crate::event_writer::EventData;
use crate::field::{names_and_values, Field, FieldValue, Recorded, Value};
use vstd::prelude::*;
use vstd::string::*;

verus! {

/// A value that waits for its span to close.
#[derive(Debug)]
pub enum DeferredValue {
    Unsigned(u64),
    Signed(i64),
    Boolean(bool),
    String(String),
}

impl View for DeferredValue {
    type V = Value;

    open spec fn view(&self) -> Value {
        match self {
            DeferredValue::Unsigned(v) => Value::Unsigned(*v),
            DeferredValue::Signed(v) => Value::Signed(*v),
            DeferredValue::Boolean(v) => Value::Boolean(*v),
            DeferredValue::String(v) => Value::Text(v@),
        }
    }
}

/// What is kept of a recorded value: the value itself, and of an error its own
/// message alone.
pub open spec fn deferred_value(value: FieldValue) -> Value {
    match value {
        FieldValue::Error { message, .. } => Value::Text(message@),
        _ => value@,
    }
}

/// No field occurs twice.
pub open spec fn fields_distinct(values: Seq<(Field, Value)>) -> bool {
    forall|i: int, j: int|
        0 <= i < j < values.len() ==> !(#[trigger] values[i].0).same((#[trigger] values[j]).0)
}

/// The values after one more record: the new value takes the place of the one
/// that the field had, or comes last if the field had none.
pub open spec fn updated(
    values: Seq<(Field, Value)>,
    field: Field,
    value: Value,
) -> Seq<(Field, Value)>
    decreases values.len(),
{
    if values.len() == 0 {
        seq![(field, value)]
    } else if values[0].0.same(field) {
        values.update(0, (values[0].0, value))
    } else {
        seq![values[0]] + updated(values.drop_first(), field, value)
    }
}

/// The values after several records.
pub open spec fn updated_all(
    values: Seq<(Field, Value)>,
    records: Seq<Recorded>,
) -> Seq<(Field, Value)>
    decreases records.len(),
{
    if records.len() == 0 {
        values
    } else {
        updated(
            updated_all(values, records.drop_last()),
            records.last().field,
            deferred_value(records.last().value),
        )
    }
}

/// The value that a field has.
pub open spec fn value_of(values: Seq<(Field, Value)>, field: Field) -> Option<Value>
    decreases values.len(),
{
    if values.len() == 0 {
        None
    } else if values[0].0.same(field) {
        Some(values[0].1)
    } else {
        value_of(values.drop_first(), field)
    }
}

/// The names and the values, in order.
pub open spec fn deferred_fields(values: Seq<(Field, Value)>) -> Seq<(Seq<char>, Value)> {
    Seq::new(values.len(), |i: int| (values[i].0.name@, values[i].1))
}

/// A record that hands on a value as it is stored.
pub open spec fn hands_on(value: FieldValue, stored: Value) -> bool {
    match stored {
        Value::Text(text) => value matches FieldValue::Str(s) && s@ == text,
        Value::Signed(v) => value == FieldValue::Signed(v),
        Value::Unsigned(v) => value == FieldValue::Unsigned(v),
        Value::Boolean(v) => value == FieldValue::Boolean(v),
    }
}

/// Records that hand on the values, each under its field, in order.
pub open spec fn replays(records: Seq<Recorded>, values: Seq<(Field, Value)>) -> bool {
    &&& records.len() == values.len()
    &&& forall|i: int|
        0 <= i < values.len() ==> (#[trigger] records[i]).field == values[i].0 && hands_on(
            records[i].value,
            values[i].1,
        )
}

/// A field is among the given ones.
pub open spec fn has_field(fields: Seq<Field>, field: Field) -> bool {
    exists|i: int| 0 <= i < fields.len() && (#[trigger] fields[i]).same(field)
}

/// The fields of records, each once, in the order in which they were first
/// recorded.
pub open spec fn first_recorded(records: Seq<Recorded>) -> Seq<Field>
    decreases records.len(),
{
    if records.len() == 0 {
        Seq::empty()
    } else {
        let before = first_recorded(records.drop_last());
        if has_field(before, records.last().field) {
            before
        } else {
            before.push(records.last().field)
        }
    }
}

/// If the first record for the field stands at `at`, that one alone changes; if
/// there is none, the new one is appended.
pub proof fn lemma_updated_at(values: Seq<(Field, Value)>, field: Field, value: Value, at: int)
    requires
        0 <= at <= values.len(),
        forall|i: int| 0 <= i < at ==> !(#[trigger] values[i].0).same(field),
        at < values.len() ==> values[at].0.same(field),
    ensures
        at < values.len() ==> updated(values, field, value) == values.update(
            at,
            (values[at].0, value),
        ),
        at == values.len() ==> updated(values, field, value) == values.push((field, value)),
    decreases values.len(),
{
    if values.len() == 0 {
        assert(values.push((field, value)) =~= seq![(field, value)]);
    } else if at > 0 {
        let rest = values.drop_first();
        assert(!values[0].0.same(field));
        assert forall|i: int| 0 <= i < at - 1 implies !(#[trigger] rest[i].0).same(field) by {
            assert(rest[i] == values[i + 1]);
        }
        lemma_updated_at(rest, field, value, at - 1);
        if at < values.len() {
            assert(seq![values[0]] + rest.update(at - 1, (rest[at - 1].0, value)) =~= values.update(
                at,
                (values[at].0, value),
            ));
        } else {
            assert(seq![values[0]] + rest.push((field, value)) =~= values.push((field, value)));
        }
    }
}

/// There is a place such as [`lemma_updated_at`] speaks of.
pub proof fn lemma_first_record(values: Seq<(Field, Value)>, field: Field) -> (at: int)
    ensures
        0 <= at <= values.len(),
        forall|i: int| 0 <= i < at ==> !(#[trigger] values[i].0).same(field),
        at < values.len() ==> values[at].0.same(field),
        at < values.len() ==> value_of(values, field) == Some(values[at].1),
        at == values.len() ==> value_of(values, field) is None,
    decreases values.len(),
{
    if values.len() == 0 || values[0].0.same(field) {
        0
    } else {
        let rest = values.drop_first();
        let at = lemma_first_record(rest, field);
        assert forall|i: int| 0 <= i < at + 1 implies !(#[trigger] values[i].0).same(field) by {
            if i > 0 {
                assert(rest[i - 1] == values[i]);
            }
        }
        at + 1
    }
}

/// Recording keeps the fields distinct, and keeps every field in the place
/// where it was first recorded.
pub proof fn law_update_keeps_order(values: Seq<(Field, Value)>, field: Field, value: Value)
    ensures
        fields_distinct(values) ==> fields_distinct(updated(values, field, value)),
        updated(values, field, value).len() >= values.len(),
        forall|i: int|
            0 <= i < values.len() ==> (#[trigger] updated(values, field, value)[i]).0
                == values[i].0,
{
    let at = lemma_first_record(values, field);
    lemma_updated_at(values, field, value, at);
}

/// A field has the value that was last recorded for it: recording changes the
/// value of that field and of no other.
pub proof fn law_last_record_wins(
    values: Seq<(Field, Value)>,
    field: Field,
    value: Value,
    other: Field,
)
    ensures
        other.same(field) ==> value_of(updated(values, field, value), other) == Some(value),
        !other.same(field) ==> value_of(updated(values, field, value), other) == value_of(
            values,
            other,
        ),
    decreases values.len(),
{
    if values.len() == 0 {
        assert(seq![(field, value)].drop_first() =~= values);
        assert(value_of(values, other) is None);
    } else if values[0].0.same(field) {
        let changed = values.update(0, (values[0].0, value));
        assert(changed.drop_first() =~= values.drop_first());
    } else {
        let rest = updated(values.drop_first(), field, value);
        law_last_record_wins(values.drop_first(), field, value, other);
        assert((seq![values[0]] + rest).drop_first() =~= rest);
    }
}

/// What records leave behind is one value per field, in the order in which the
/// fields were first recorded.
pub proof fn law_first_recorded_order(records: Seq<Recorded>)
    ensures
        ({
            let values = updated_all(Seq::empty(), records);
            &&& fields_distinct(values)
            &&& values.len() == first_recorded(records).len()
            &&& forall|i: int|
                0 <= i < values.len() ==> (#[trigger] values[i]).0 == first_recorded(records)[i]
            &&& forall|k: int|
                0 <= k < records.len() ==> has_field(
                    first_recorded(records),
                    (#[trigger] records[k]).field,
                )
        }),
    decreases records.len(),
{
    if records.len() > 0 {
        let rest = records.drop_last();
        law_first_recorded_order(rest);
        let before = updated_all(Seq::empty(), rest);
        let fields = first_recorded(rest);
        let field = records.last().field;
        let value = deferred_value(records.last().value);
        law_update_keeps_order(before, field, value);
        let at = lemma_first_record(before, field);
        lemma_updated_at(before, field, value, at);
        if at < before.len() {
            assert(fields[at].same(field));
        } else {
            assert forall|i: int| 0 <= i < fields.len() implies !(#[trigger] fields[i]).same(
                field,
            ) by {
                assert(before[i].0 == fields[i]);
            }
        }
        let after = first_recorded(records);
        assert forall|k: int| 0 <= k < records.len() implies has_field(
            after,
            (#[trigger] records[k]).field,
        ) by {
            if k < rest.len() {
                assert(rest[k] == records[k]);
                let i = choose|i: int|
                    0 <= i < fields.len() && (#[trigger] fields[i]).same(records[k].field);
                assert(after[i] == fields[i]);
            } else if at == before.len() {
                assert(after[fields.len() as int] == field);
            }
        }
    }
}

/// The value of a field that occurs once is the one that stands beside it.
pub proof fn lemma_value_beside(values: Seq<(Field, Value)>, i: int)
    requires
        fields_distinct(values),
        0 <= i < values.len(),
    ensures
        value_of(values, values[i].0) == Some(values[i].1),
{
    let at = lemma_first_record(values, values[i].0);
    assert(values[i].0.same(values[i].0));
    if at < i {
        assert(!values[at].0.same(values[i].0));
    }
}

/// Replaying stored values into an empty store copies them, and replaying them
/// into an event adds the fields that the store itself adds.
pub proof fn law_replay_copies(values: Seq<(Field, Value)>, records: Seq<Recorded>)
    requires
        fields_distinct(values),
        replays(records, values),
    ensures
        updated_all(Seq::empty(), records) == values,
        names_and_values(records) == deferred_fields(values),
    decreases records.len(),
{
    assert(names_and_values(records) =~= deferred_fields(values)) by {
        assert forall|i: int| 0 <= i < values.len() implies #[trigger] names_and_values(records)[i]
            == deferred_fields(values)[i] by {
            assert(records[i].field == values[i].0);
        }
    }
    if records.len() == 0 {
        assert(values =~= Seq::empty());
    } else {
        let rest = values.drop_last();
        assert forall|i: int| 0 <= i < rest.len() implies (#[trigger] records.drop_last()[i]).field
            == rest[i].0 && hands_on(records.drop_last()[i].value, rest[i].1) by {
            assert(records.drop_last()[i] == records[i]);
        }
        law_replay_copies(rest, records.drop_last());
        let last = records[records.len() - 1];
        assert(last.field == values.last().0);
        assert forall|i: int| 0 <= i < rest.len() implies !(#[trigger] rest[i].0).same(
            last.field,
        ) by {
            assert(rest[i] == values[i]);
        }
        lemma_updated_at(rest, last.field, deferred_value(last.value), rest.len() as int);
        assert(values =~= rest.push(values.last()));
    }
}

/// Values recorded on a span, each field once.
pub struct DeferredValues {
    values: Vec<(Field, DeferredValue)>,
}

/// The view of a stored list.
spec fn stored(values: Seq<(Field, DeferredValue)>) -> Seq<(Field, Value)> {
    Seq::new(values.len(), |i: int| (values[i].0, values[i].1@))
}

impl View for DeferredValues {
    type V = Seq<(Field, Value)>;

    closed spec fn view(&self) -> Seq<(Field, Value)> {
        stored(self.values@)
    }
}

impl Default for DeferredValues {
    fn default() -> (r: DeferredValues)
        ensures
            r@ == Seq::<(Field, Value)>::empty(),
    {
        DeferredValues { values: Vec::new() }
    }
}

impl DeferredValues {
    /// No field is stored twice.
    #[verifier::type_invariant]
    spec fn inv(self) -> bool {
        fields_distinct(stored(self.values@))
    }

    /// Stores a value for a field in place of the one that it had.
    pub fn update(&mut self, field: &Field, value: DeferredValue)
        ensures
            final(self)@ == updated(old(self)@, *field, value@),
            fields_distinct(final(self)@),
    {
        proof {
            use_type_invariant(&*self);
            law_update_keeps_order(self@, *field, value@);
        }
        let mut values: Vec<(Field, DeferredValue)> = Vec::new();
        std::mem::swap(&mut values, &mut self.values);
        let ghost before = stored(values@);
        let mut i: usize = 0;
        while i < values.len() && !values[i].0.is_same(field)
            invariant
                i <= values@.len(),
                stored(values@) == before,
                forall|j: int| 0 <= j < i ==> !(#[trigger] before[j].0).same(*field),
            decreases values@.len() - i,
        {
            i += 1;
        }
        proof {
            lemma_updated_at(before, *field, value@, i as int);
        }
        if i < values.len() {
            values[i].1 = value;
        } else {
            values.push((field.clone(), value));
        }
        assert(stored(values@) =~= updated(before, *field, value@));
        self.values = values;
    }

    /// Stores the `Debug` rendering of a value.
    pub fn record_debug(&mut self, field: &Field, rendered: &str)
        ensures
            final(self)@ == updated(old(self)@, *field, Value::Text(rendered@)),
            fields_distinct(final(self)@),
    {
        self.update(field, DeferredValue::String(String::from(rendered)));
    }

    /// Stores a signed number.
    pub fn record_i64(&mut self, field: &Field, value: i64)
        ensures
            final(self)@ == updated(old(self)@, *field, Value::Signed(value)),
            fields_distinct(final(self)@),
    {
        self.update(field, DeferredValue::Signed(value));
    }

    /// Stores an unsigned number.
    pub fn record_u64(&mut self, field: &Field, value: u64)
        ensures
            final(self)@ == updated(old(self)@, *field, Value::Unsigned(value)),
            fields_distinct(final(self)@),
    {
        self.update(field, DeferredValue::Unsigned(value));
    }

    /// Stores a truth value.
    pub fn record_bool(&mut self, field: &Field, value: bool)
        ensures
            final(self)@ == updated(old(self)@, *field, Value::Boolean(value)),
            fields_distinct(final(self)@),
    {
        self.update(field, DeferredValue::Boolean(value));
    }

    /// Stores a text.
    pub fn record_str(&mut self, field: &Field, value: &str)
        ensures
            final(self)@ == updated(old(self)@, *field, Value::Text(value@)),
            fields_distinct(final(self)@),
    {
        self.update(field, DeferredValue::String(String::from(value)));
    }

    /// Stores recorded values, in order. Of an error its own message is stored.
    pub fn store(&mut self, records: &[Recorded])
        ensures
            final(self)@ == updated_all(old(self)@, records@),
            fields_distinct(final(self)@),
    {
        let mut i: usize = 0;
        while i < records.len()
            invariant
                i <= records@.len(),
                self@ == updated_all(old(self)@, records@.take(i as int)),
            decreases records@.len() - i,
        {
            let field: &Field = &records[i].field;
            match &records[i].value {
                FieldValue::Debug(rendered) => self.record_debug(field, rendered.as_str()),
                FieldValue::Signed(v) => self.record_i64(field, *v),
                FieldValue::Unsigned(v) => self.record_u64(field, *v),
                FieldValue::Boolean(v) => self.record_bool(field, *v),
                FieldValue::Str(v) => self.record_str(field, v.as_str()),
                FieldValue::Error { message, .. } => self.record_debug(field, message.as_str()),
            }
            i += 1;
            assert(records@.take(i as int).drop_last() =~= records@.take(i - 1));
        }
        assert(records@.take(i as int) =~= records@);
        proof {
            use_type_invariant(&*self);
        }
    }

    /// The stored values as records, in the order in which their fields were
    /// first recorded.
    pub fn replay(&self) -> (r: Vec<Recorded>)
        ensures
            replays(r@, self@),
            fields_distinct(self@),
    {
        proof {
            use_type_invariant(self);
        }
        let mut records: Vec<Recorded> = Vec::new();
        let mut i: usize = 0;
        while i < self.values.len()
            invariant
                i <= self.values@.len(),
                replays(records@, self@.take(i as int)),
            decreases self.values@.len() - i,
        {
            let value: FieldValue = match &self.values[i].1 {
                DeferredValue::Unsigned(v) => FieldValue::Unsigned(*v),
                DeferredValue::Signed(v) => FieldValue::Signed(*v),
                DeferredValue::Boolean(v) => FieldValue::Boolean(*v),
                DeferredValue::String(v) => FieldValue::Str(v.clone()),
            };
            records.push(Recorded { field: self.values[i].0.clone(), value });
            i += 1;
        }
        assert(self@.take(i as int) =~= self@);
        records
    }

    /// Adds the stored values to an event, in the order in which their fields
    /// were first recorded. See [`DeferredValues::replay`] for other uses.
    pub fn record(&self, event: &mut EventData<'_>)
        ensures
            final(event)@ == old(event)@.then_part(
                old(event).naming().fields(deferred_fields(self@)),
            ),
            final(event).naming() == old(event).naming(),
    {
        let ghost all = deferred_fields(self@);
        let ghost naming = event.naming();
        let mut i: usize = 0;
        assert(event@ =~= old(event)@.then_part(naming.fields(all.take(0))));
        while i < self.values.len()
            invariant
                i <= self.values@.len(),
                all == deferred_fields(self@),
                event.naming() == naming,
                event@ == old(event)@.then_part(naming.fields(all.take(i as int))),
            decreases self.values@.len() - i,
        {
            let ghost before = event@;
            let name: &str = self.values[i].0.name.as_str();
            match &self.values[i].1 {
                DeferredValue::Unsigned(v) => event.record_u64(name, *v),
                DeferredValue::Signed(v) => event.record_i64(name, *v),
                DeferredValue::Boolean(v) => event.record_bool(name, *v),
                DeferredValue::String(v) => event.record_str(name, v.as_str()),
            }
            i += 1;
            proof {
                assert(all.take(i as int).drop_last() =~= all.take(i - 1));
                assert(event@ == before.then_part(naming.field(all[i - 1].0, all[i - 1].1)));
                assert(event@ =~= old(event)@.then_part(naming.fields(all.take(i as int))));
            }
        }
        assert(all.take(i as int) =~= all);
    }
}

} // verus!
