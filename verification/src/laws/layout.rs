//! What a field looks like in the bytes of an event, stated over the bytes, and
//! that each call that adds a field adds just that.

use crate::event_writer::{
    globals_payload, resolve_name, EventData, FieldAlias, GlobalField, GlobalsBlob, Naming,
    Payload,
};
use crate::field::{error_text, names_and_values, FieldValue, Recorded, Value};
use crate::wire::{
    i64_le, law_i64_le, law_u16_le, law_u64_le, put_cstring, put_i64_le, put_u16_le, put_u64_le,
    set_u16_le, u16_le, u64_le,
};
use vstd::prelude::*;
use vstd::string::*;
use vstd::utf8::*;

verus! {

/// `out` is what the aliases make of `name`: the new name in the first alias for
/// it, or the name itself if there is none.
pub open spec fn is_named(aliases: Seq<FieldAlias>, name: Seq<char>, out: Seq<char>) -> bool {
    ||| out == name && forall|i: int|
        0 <= i < aliases.len() ==> (#[trigger] aliases[i]).from@ != name
    ||| exists|i: int|
        0 <= i < aliases.len() && (#[trigger] aliases[i]).from@ == name && aliases[i].to@ == out
            && forall|j: int| 0 <= j < i ==> (#[trigger] aliases[j]).from@ != name
}

/// A field that stays out of the event: the bridge is on, and the name begins
/// with the four characters `log.`.
pub open spec fn is_log_field(tracing_log: bool, name: Seq<char>) -> bool {
    tracing_log && name.len() >= 4 && name[0] == 'l' && name[1] == 'o' && name[2] == 'g' && name[3]
        == '.'
}

/// The number that eight bytes spell, low byte first.
pub open spec fn spelled(bytes: Seq<u8>) -> int {
    bytes[0] + 256 * (bytes[1] + 256 * (bytes[2] + 256 * (bytes[3] + 256 * (bytes[4] + 256 * (
    bytes[5] + 256 * (bytes[6] + 256 * bytes[7]))))))
}

/// The type bytes and the data bytes that say a value.
pub open spec fn is_value(value: Value, types: Seq<u8>, data: Seq<u8>) -> bool {
    match value {
        Value::Text(text) => types == seq![0x82u8, 35u8] && data == encode_utf8(text) + seq![0u8],
        Value::Signed(v) => types == seq![9u8] && data.len() == 8 && spelled(data) == (if v < 0 {
            v + 0x1_0000_0000_0000_0000
        } else {
            v as int
        }),
        Value::Unsigned(v) => types == seq![0x8au8, 4u8] && data.len() == 8 && spelled(data) == v,
        Value::Boolean(v) => types == seq![4u8, 3u8] && data == seq![if v { 1u8 } else { 0u8 }],
    }
}

/// The bytes of one field: in the metadata its name, a NUL and its type bytes, in
/// the data its value; or none at all if the field stays out.
pub open spec fn is_field(
    aliases: Seq<FieldAlias>,
    tracing_log: bool,
    name: Seq<char>,
    value: Value,
    metadata: Seq<u8>,
    data: Seq<u8>,
) -> bool {
    if is_log_field(tracing_log, name) {
        metadata.len() == 0 && data.len() == 0
    } else {
        exists|out: Seq<char>, types: Seq<u8>|
            {
                &&& #[trigger] is_named(aliases, name, out)
                &&& #[trigger] is_value(value, types, data)
                &&& metadata == encode_utf8(out) + seq![0u8] + types
            }
    }
}

/// One part for each field.
pub open spec fn are_parts(
    aliases: Seq<FieldAlias>,
    tracing_log: bool,
    fields: Seq<(Seq<char>, Value)>,
    metadata: Seq<Seq<u8>>,
    data: Seq<Seq<u8>>,
) -> bool {
    &&& metadata.len() == fields.len()
    &&& data.len() == fields.len()
    &&& forall|i: int|
        0 <= i < fields.len() ==> is_field(
            aliases,
            tracing_log,
            (#[trigger] fields[i]).0,
            fields[i].1,
            metadata[i],
            data[i],
        )
}

/// The bytes of fields: those of the first, then those of the second, and so on.
pub open spec fn are_fields(
    aliases: Seq<FieldAlias>,
    tracing_log: bool,
    fields: Seq<(Seq<char>, Value)>,
    metadata: Seq<u8>,
    data: Seq<u8>,
) -> bool {
    exists|ms: Seq<Seq<u8>>, ds: Seq<Seq<u8>>|
        {
            &&& #[trigger] are_parts(aliases, tracing_log, fields, ms, ds)
            &&& metadata == ms.flatten()
            &&& data == ds.flatten()
        }
}

/// The text of an error: its message, and for each cause a colon, a space and
/// the cause's message.
pub open spec fn told_error(message: Seq<char>, sources: Seq<String>) -> Seq<char> {
    message + Seq::new(sources.len(), |i: int| seq![':', ' '] + sources[i]@).flatten()
}

/// What is to be said of a recorded value.
pub open spec fn told(value: FieldValue) -> Value {
    match value {
        FieldValue::Debug(text) => Value::Text(text@),
        FieldValue::Str(text) => Value::Text(text@),
        FieldValue::Signed(v) => Value::Signed(v),
        FieldValue::Unsigned(v) => Value::Unsigned(v),
        FieldValue::Boolean(v) => Value::Boolean(v),
        FieldValue::Error { message, sources } => Value::Text(told_error(message@, sources@)),
    }
}

/// What is to be said of recorded fields.
pub open spec fn told_fields(records: Seq<Recorded>) -> Seq<(Seq<char>, Value)> {
    Seq::new(records.len(), |i: int| (records[i].field.name@, told(records[i].value)))
}

/// A resolved name is the one, and the only one, that [`is_named`] speaks of.
pub proof fn lemma_is_named(aliases: Seq<FieldAlias>, name: Seq<char>)
    ensures
        is_named(aliases, name, resolve_name(aliases, name)),
        forall|out: Seq<char>| #[trigger]
            is_named(aliases, name, out) ==> out == resolve_name(aliases, name),
    decreases aliases.len(),
{
    if aliases.len() > 0 {
        let rest = aliases.drop_first();
        if aliases[0].from@ != name {
            lemma_is_named(rest, name);
            let out = resolve_name(rest, name);
            assert(forall|i: int| 0 <= i < rest.len() ==> #[trigger] rest[i] == aliases[i + 1]);
            if forall|i: int| 0 <= i < rest.len() ==> (#[trigger] rest[i]).from@ != name {
                assert forall|i: int| 0 <= i < aliases.len() implies (#[trigger] aliases[i]).from@
                    != name by {
                    if i > 0 {
                        assert(rest[i - 1] == aliases[i]);
                    }
                }
            } else {
                let k = choose|i: int|
                    0 <= i < rest.len() && (#[trigger] rest[i]).from@ == name && rest[i].to@ == out
                        && forall|j: int| 0 <= j < i ==> (#[trigger] rest[j]).from@ != name;
                assert(aliases[k + 1].from@ == name && aliases[k + 1].to@ == out);
                assert forall|j: int| 0 <= j < k + 1 implies (#[trigger] aliases[j]).from@
                    != name by {
                    if j > 0 {
                        assert(rest[j - 1] == aliases[j]);
                    }
                }
            }
        }
        let out = resolve_name(aliases, name);
        assert(is_named(aliases, name, out));
    }
    lemma_one_name(aliases, name, resolve_name(aliases, name));
}

/// A field has one name.
proof fn lemma_one_name(aliases: Seq<FieldAlias>, name: Seq<char>, out: Seq<char>)
    requires
        is_named(aliases, name, out),
    ensures
        forall|other: Seq<char>| #[trigger] is_named(aliases, name, other) ==> other == out,
{
    assert forall|other: Seq<char>| #[trigger] is_named(aliases, name, other) implies other
        == out by {
        if exists|i: int| 0 <= i < aliases.len() && (#[trigger] aliases[i]).from@ == name {
            let i = choose|i: int|
                0 <= i < aliases.len() && (#[trigger] aliases[i]).from@ == name && aliases[i].to@
                    == out && forall|j: int| 0 <= j < i ==> (#[trigger] aliases[j]).from@ != name;
            let k = choose|i: int|
                0 <= i < aliases.len() && (#[trigger] aliases[i]).from@ == name && aliases[i].to@
                    == other && forall|j: int| 0 <= j < i ==> (#[trigger] aliases[j]).from@ != name;
            assert(i == k);
        }
    }
}

/// A field is skipped exactly if [`is_log_field`] says so.
pub proof fn lemma_is_log_field(naming: Naming, name: Seq<char>)
    ensures
        naming.skips(name) == is_log_field(naming.tracing_log, name),
{
    reveal_strlit("log.");
    let prefix = "log."@;
    if name.len() >= 4 && name[0] == 'l' && name[1] == 'o' && name[2] == 'g' && name[3] == '.' {
        assert(prefix =~= name.subrange(0, 4));
    } else if prefix.is_prefix_of(name) {
        assert(forall|i: int| 0 <= i < 4 ==> prefix[i] == #[trigger] name.subrange(0, 4)[i]);
        assert(name[0] == name.subrange(0, 4)[0]);
        assert(name[1] == name.subrange(0, 4)[1]);
        assert(name[2] == name.subrange(0, 4)[2]);
        assert(name[3] == name.subrange(0, 4)[3]);
    }
}

/// What a field adds is as [`is_field`] says.
pub proof fn lemma_is_field(naming: Naming, name: Seq<char>, value: Value)
    ensures
        is_field(
            naming.aliases,
            naming.tracing_log,
            name,
            value,
            naming.field(name, value).metadata,
            naming.field(name, value).data,
        ),
{
    lemma_is_log_field(naming, name);
    if !naming.skips(name) {
        let part = naming.field(name, value);
        let out = resolve_name(naming.aliases, name);
        lemma_is_named(naming.aliases, name);
        let types = match value {
            Value::Text(_) => seq![0x82u8, 35u8],
            Value::Signed(_) => seq![9u8],
            Value::Unsigned(_) => seq![0x8au8, 4u8],
            Value::Boolean(_) => seq![4u8, 3u8],
        };
        match value {
            Value::Text(text) => {
                assert(part.data =~= encode_utf8(text) + seq![0u8]);
            },
            Value::Signed(v) => {
                law_i64_le(v);
            },
            Value::Unsigned(v) => {
                law_u64_le(v);
            },
            Value::Boolean(_) => {},
        }
        assert(part.metadata =~= encode_utf8(out) + seq![0u8] + types);
        assert(is_value(value, types, part.data));
    }
}

/// What fields add is as [`are_fields`] says.
pub proof fn lemma_are_fields(naming: Naming, fields: Seq<(Seq<char>, Value)>)
    ensures
        are_fields(
            naming.aliases,
            naming.tracing_log,
            fields,
            naming.fields(fields).metadata,
            naming.fields(fields).data,
        ),
{
    let ms = Seq::new(fields.len(), |i: int| naming.field(fields[i].0, fields[i].1).metadata);
    let ds = Seq::new(fields.len(), |i: int| naming.field(fields[i].0, fields[i].1).data);
    lemma_flattened(naming, fields, ms, ds);
    assert forall|i: int| 0 <= i < fields.len() implies is_field(
        naming.aliases,
        naming.tracing_log,
        (#[trigger] fields[i]).0,
        fields[i].1,
        ms[i],
        ds[i],
    ) by {
        lemma_is_field(naming, fields[i].0, fields[i].1);
    }
    assert(are_parts(naming.aliases, naming.tracing_log, fields, ms, ds));
}

proof fn lemma_flattened(
    naming: Naming,
    fields: Seq<(Seq<char>, Value)>,
    ms: Seq<Seq<u8>>,
    ds: Seq<Seq<u8>>,
)
    requires
        ms.len() == fields.len(),
        ds.len() == fields.len(),
        forall|i: int|
            0 <= i < fields.len() ==> #[trigger] ms[i] == naming.field(
                fields[i].0,
                fields[i].1,
            ).metadata,
        forall|i: int|
            0 <= i < fields.len() ==> #[trigger] ds[i] == naming.field(
                fields[i].0,
                fields[i].1,
            ).data,
    ensures
        naming.fields(fields).metadata == ms.flatten(),
        naming.fields(fields).data == ds.flatten(),
    decreases fields.len(),
{
    if fields.len() > 0 {
        let rest = fields.drop_last();
        lemma_flattened(naming, rest, ms.drop_last(), ds.drop_last());
        ms.drop_last().lemma_flatten_push(ms.last());
        ds.drop_last().lemma_flatten_push(ds.last());
        assert(ms.drop_last().push(ms.last()) =~= ms);
        assert(ds.drop_last().push(ds.last()) =~= ds);
    }
}

/// What is said of an error grows by one cause at a time.
proof fn lemma_told_error(message: Seq<char>, sources: Seq<String>)
    ensures
        error_text(message, sources) == told_error(message, sources),
    decreases sources.len(),
{
    let causes = Seq::new(sources.len(), |i: int| seq![':', ' '] + sources[i]@);
    if sources.len() == 0 {
        assert(message + causes.flatten() =~= message);
    } else {
        let rest = sources.drop_last();
        let before = Seq::new(rest.len(), |i: int| seq![':', ' '] + rest[i]@);
        lemma_told_error(message, rest);
        before.lemma_flatten_push(causes.last());
        assert(before.push(causes.last()) =~= causes);
        reveal_strlit(": ");
        assert(": "@ =~= seq![':', ' ']);
        assert(error_text(message, sources) =~= told_error(message, sources));
    }
}

/// The value of a record is what is told of it.
pub proof fn lemma_told(value: FieldValue)
    ensures
        value@ == told(value),
{
    if let FieldValue::Error { message, sources } = value {
        lemma_told_error(message@, sources@);
    }
}

/// The names and values of records are what is told of them.
pub proof fn lemma_told_fields(records: Seq<Recorded>)
    ensures
        names_and_values(records) == told_fields(records),
{
    assert forall|i: int| 0 <= i < records.len() implies #[trigger] names_and_values(records)[i]
        == told_fields(records)[i] by {
        lemma_told(records[i].value);
    }
    assert(names_and_values(records) =~= told_fields(records));
}

/// An event after one more field: the field's bytes come behind what the event
/// held, and how it names fields stays.
pub open spec fn gains_field(
    before: EventData<'_>,
    name: Seq<char>,
    value: Value,
    after: EventData<'_>,
) -> bool {
    &&& before.metadata@.is_prefix_of(after.metadata@)
    &&& before.data@.is_prefix_of(after.data@)
    &&& is_field(
        before.aliases@,
        before.tracing_log,
        name,
        value,
        after.metadata@.skip(before.metadata@.len() as int),
        after.data@.skip(before.data@.len() as int),
    )
    &&& after.aliases@ == before.aliases@
    &&& after.tracing_log == before.tracing_log
}

proof fn lemma_gains_field(
    before: EventData<'_>,
    name: Seq<char>,
    value: Value,
    after: EventData<'_>,
)
    requires
        after@ == before@.then_part(before.naming().field(name, value)),
        after.naming() == before.naming(),
    ensures
        gains_field(before, name, value, after),
{
    let part = before.naming().field(name, value);
    lemma_is_field(before.naming(), name, value);
    assert(after@.metadata == before@.metadata + part.metadata);
    assert(after@.data == before@.data + part.data);
    assert(before.metadata@ =~= after.metadata@.subrange(0, before.metadata@.len() as int));
    assert(before.data@ =~= after.data@.subrange(0, before.data@.len() as int));
    assert(after.metadata@.skip(before.metadata@.len() as int) =~= part.metadata);
    assert(after.data@.skip(before.data@.len() as int) =~= part.data);
}

/// A new event is empty, and names fields as it is told to.
pub proof fn law_new_event<'a>(aliases: &'a [FieldAlias], tracing_log: bool, r: EventData<'a>)
    requires
        call_ensures(EventData::new, (aliases, tracing_log), r),
    ensures
        r.metadata@.len() == 0,
        r.data@.len() == 0,
        r.aliases@ == aliases@,
        r.tracing_log == tracing_log,
{
    assert(r@ == Payload::empty());
    assert(r.naming().tracing_log == tracing_log);
}

/// A name resolves to the new name in the first alias for it, or to itself.
pub proof fn law_resolve<'a, 'b>(event: &EventData<'a>, name: &'b str, r: &'b str)
    requires
        call_ensures(EventData::<'a>::resolve, (event, name), r),
    ensures
        is_named(event.aliases@, name@, r@),
{
    lemma_is_named(event.aliases@, name@);
}

/// Writing a name adds the resolved name and a NUL to the metadata, or nothing
/// for a field that stays out, and says which.
pub proof fn law_write_name<'a>(event: &mut EventData<'a>, name: &str, r: bool)
    requires
        call_ensures(EventData::<'a>::write_name, (event, name), r),
    ensures
        r == !is_log_field(old(event).tracing_log, name@),
        r ==> exists|out: Seq<char>| #[trigger]
            is_named(old(event).aliases@, name@, out) && final(event).metadata@ == old(
                event,
            ).metadata@ + encode_utf8(out) + seq![0u8],
        !r ==> final(event).metadata@ == old(event).metadata@,
        final(event).data@ == old(event).data@,
        final(event).aliases@ == old(event).aliases@,
        final(event).tracing_log == old(event).tracing_log,
{
    lemma_is_log_field(event.naming(), name@);
    lemma_is_named(event.aliases@, name@);
    let out = resolve_name(event.aliases@, name@);
    assert(final(event).naming() == event.naming());
    if r {
        assert(final(event).metadata@ =~= event.metadata@ + encode_utf8(out) + seq![0u8]);
    }
}

/// A `Debug` rendering is added as a text.
pub proof fn law_record_debug<'a>(event: &mut EventData<'a>, name: &str, rendered: &str)
    requires
        call_ensures(EventData::<'a>::record_debug, (event, name, rendered), ()),
    ensures
        gains_field(*old(event), name@, Value::Text(rendered@), *final(event)),
{
    lemma_gains_field(*old(event), name@, Value::Text(rendered@), *final(event));
}

/// A text is added as that text.
pub proof fn law_record_str<'a>(event: &mut EventData<'a>, name: &str, value: &str)
    requires
        call_ensures(EventData::<'a>::record_str, (event, name, value), ()),
    ensures
        gains_field(*old(event), name@, Value::Text(value@), *final(event)),
{
    lemma_gains_field(*old(event), name@, Value::Text(value@), *final(event));
}

/// A signed number is added as that number.
pub proof fn law_record_i64<'a>(event: &mut EventData<'a>, name: &str, value: i64)
    requires
        call_ensures(EventData::<'a>::record_i64, (event, name, value), ()),
    ensures
        gains_field(*old(event), name@, Value::Signed(value), *final(event)),
{
    lemma_gains_field(*old(event), name@, Value::Signed(value), *final(event));
}

/// An unsigned number is added as that number.
pub proof fn law_record_u64<'a>(event: &mut EventData<'a>, name: &str, value: u64)
    requires
        call_ensures(EventData::<'a>::record_u64, (event, name, value), ()),
    ensures
        gains_field(*old(event), name@, Value::Unsigned(value), *final(event)),
{
    lemma_gains_field(*old(event), name@, Value::Unsigned(value), *final(event));
}

/// A truth value is added as that truth value, with its two type bytes, whatever
/// the name is and whatever the aliases make of it.
pub proof fn law_record_bool<'a>(event: &mut EventData<'a>, name: &str, value: bool)
    requires
        call_ensures(EventData::<'a>::record_bool, (event, name, value), ()),
    ensures
        gains_field(*old(event), name@, Value::Boolean(value), *final(event)),
{
    lemma_gains_field(*old(event), name@, Value::Boolean(value), *final(event));
}

/// An error is added as its message and all its causes.
pub proof fn law_record_error<'a>(
    event: &mut EventData<'a>,
    name: &str,
    message: &str,
    sources: &[String],
)
    requires
        call_ensures(EventData::<'a>::record_error, (event, name, message, sources), ()),
    ensures
        gains_field(
            *old(event),
            name@,
            Value::Text(told_error(message@, sources@)),
            *final(event),
        ),
{
    lemma_told_error(message@, sources@);
    lemma_gains_field(
        *old(event),
        name@,
        Value::Text(told_error(message@, sources@)),
        *final(event),
    );
}

/// A recorded field is added under its own name with its own value.
pub proof fn law_record<'a>(event: &mut EventData<'a>, recorded: &Recorded)
    requires
        call_ensures(EventData::<'a>::record, (event, recorded), ()),
    ensures
        gains_field(*old(event), recorded.field.name@, told(recorded.value), *final(event)),
{
    lemma_told(recorded.value);
    lemma_gains_field(*old(event), recorded.field.name@, told(recorded.value), *final(event));
}

/// The bytes behind a field's name do not depend on the aliases: under any two
/// lists of them a value has the same type bytes and the same data.
pub proof fn law_alias_keeps_type_and_value(
    aliases: Seq<FieldAlias>,
    others: Seq<FieldAlias>,
    tracing_log: bool,
    name: Seq<char>,
    value: Value,
)
    ensures
        ({
            let one = (Naming { aliases, tracing_log }).field(name, value);
            let two = (Naming { aliases: others, tracing_log }).field(name, value);
            &&& one.data == two.data
            &&& !is_log_field(tracing_log, name) ==> exists|
                out: Seq<char>,
                other: Seq<char>,
                types: Seq<u8>,
            |
                {
                    &&& #[trigger] is_named(aliases, name, out)
                    &&& #[trigger] is_named(others, name, other)
                    &&& #[trigger] is_value(value, types, one.data)
                    &&& one.metadata == encode_utf8(out) + seq![0u8] + types
                    &&& two.metadata == encode_utf8(other) + seq![0u8] + types
                }
        }),
{
    let n1 = Naming { aliases, tracing_log };
    let n2 = Naming { aliases: others, tracing_log };
    lemma_is_log_field(n1, name);
    lemma_is_log_field(n2, name);
    lemma_is_field(n1, name, value);
    lemma_is_field(n2, name, value);
    assert(n1.field(name, value).data =~= n2.field(name, value).data);
}

/// An error with one more cause says what it said without it, then a colon and a
/// space, then the cause. Without causes it says its message.
pub proof fn law_error_gains_cause<'a>(
    one: &mut EventData<'a>,
    two: &mut EventData<'a>,
    name: &str,
    message: &str,
    sources: &[String],
    more: &[String],
)
    requires
        call_ensures(EventData::<'a>::record_error, (one, name, message, sources), ()),
        call_ensures(EventData::<'a>::record_error, (two, name, message, more), ()),
        more@.len() == sources@.len() + 1,
        more@.drop_last() == sources@,
        !is_log_field(old(one).tracing_log, name@),
        !is_log_field(old(two).tracing_log, name@),
    ensures
        ({
            let short = final(one).data@.skip(old(one).data@.len() as int);
            let long = final(two).data@.skip(old(two).data@.len() as int);
            &&& short.len() > 0 && short.last() == 0
            &&& long == short.drop_last() + seq![58u8, 32u8] + encode_utf8(more@.last()@) + seq![
                0u8,
            ]
            &&& sources@.len() == 0 ==> short == encode_utf8(message@) + seq![0u8]
        }),
{
    law_record_error(one, name, message, sources);
    law_record_error(two, name, message, more);
    let s = told_error(message@, sources@);
    let l = told_error(message@, more@);
    let causes = Seq::new(sources@.len(), |i: int| seq![':', ' '] + sources@[i]@);
    let all = Seq::new(more@.len(), |i: int| seq![':', ' '] + more@[i]@);
    let cause = seq![':', ' '] + more@.last()@;
    assert forall|i: int| 0 <= i < sources@.len() implies sources@[i] == #[trigger] more@[i] by {
        assert(more@.drop_last()[i] == more@[i]);
    }
    assert(all =~= causes.push(cause));
    causes.lemma_flatten_push(cause);
    assert(l =~= s + cause);
    crate::text::lemma_encode_utf8_concat(s, cause);
    crate::text::lemma_encode_utf8_concat(seq![':', ' '], more@.last()@);
    lemma_colon_space();
    let short = final(one).data@.skip(old(one).data@.len() as int);
    let long = final(two).data@.skip(old(two).data@.len() as int);
    assert(short == encode_utf8(s) + seq![0u8]);
    assert(long == encode_utf8(l) + seq![0u8]);
    assert(short.drop_last() =~= encode_utf8(s));
    assert(long =~= short.drop_last() + seq![58u8, 32u8] + encode_utf8(more@.last()@) + seq![0u8]);
    if sources@.len() == 0 {
        assert(s =~= message@);
    }
}

/// The two bytes of a colon and a space.
proof fn lemma_colon_space()
    ensures
        encode_utf8(seq![':', ' ']) == seq![58u8, 32u8],
{
    let text = seq![':', ' '];
    let ascii = seq![' '];
    assert(text.drop_first() =~= ascii);
    assert(ascii.drop_first() =~= Seq::<char>::empty());
    reveal_with_fuel(encode_utf8, 3);
    assert(58u32 & 0x7F == 58) by (bit_vector);
    assert(32u32 & 0x7F == 32) by (bit_vector);
    assert(encode_scalar(58u32) =~= seq![58u8]);
    assert(encode_scalar(32u32) =~= seq![32u8]);
    assert(encode_utf8(text) =~= seq![58u8, 32u8]);
}

/// Global fields as names and texts.
pub open spec fn told_globals(globals: Seq<GlobalField>) -> Seq<(Seq<char>, Value)> {
    Seq::new(globals.len(), |i: int| (globals[i].name@, Value::Text(globals[i].value@)))
}

/// The bytes of global fields: all of them as texts, none of them renamed, none
/// left out.
pub proof fn lemma_are_globals(globals: Seq<GlobalField>)
    ensures
        are_fields(
            Seq::empty(),
            false,
            told_globals(globals),
            globals_payload(globals).metadata,
            globals_payload(globals).data,
        ),
    decreases globals.len(),
{
    let plain = Naming { aliases: Seq::empty(), tracing_log: false };
    crate::reading::law_globals_are_plain_fields(globals);
    assert(crate::reading::global_values(globals) =~= told_globals(globals));
    lemma_are_fields(plain, told_globals(globals));
}

/// The rendered global fields are the bytes of these fields, under their own
/// names.
pub proof fn law_from_fields(fields: &[GlobalField], r: GlobalsBlob)
    requires
        call_ensures(GlobalsBlob::from_fields, (fields,), r),
    ensures
        are_fields(Seq::empty(), false, told_globals(fields@), r.metadata@, r.data@),
{
    lemma_are_globals(fields@);
}

/// An integer of two bytes is appended low byte first.
pub proof fn law_put_u16_le(buf: &mut Vec<u8>, n: u16)
    requires
        call_ensures(put_u16_le, (buf, n), ()),
    ensures
        exists|low: u8, high: u8|
            #![trigger old(buf)@.push(low).push(high)]
            final(buf)@ == old(buf)@.push(low).push(high) && low + 256 * high == n,
{
    law_u16_le(n);
    let bytes = u16_le(n);
    assert(final(buf)@ =~= old(buf)@.push(bytes[0]).push(bytes[1]));
}

/// An integer takes the place of the first two bytes, low byte first.
pub proof fn law_set_u16_le(buf: &mut Vec<u8>, n: u16)
    requires
        old(buf)@.len() >= 2,
        call_ensures(set_u16_le, (buf, n), ()),
    ensures
        final(buf)@.len() == old(buf)@.len(),
        final(buf)@[0] + 256 * final(buf)@[1] == n,
        final(buf)@.skip(2) == old(buf)@.skip(2),
{
    law_u16_le(n);
    let bytes = u16_le(n);
    assert(final(buf)@.skip(2) =~= old(buf)@.skip(2));
}

/// An integer of eight bytes is appended low byte first.
pub proof fn law_put_u64_le(buf: &mut Vec<u8>, n: u64)
    requires
        call_ensures(put_u64_le, (buf, n), ()),
    ensures
        final(buf)@.len() == old(buf)@.len() + 8,
        final(buf)@.take(old(buf)@.len() as int) == old(buf)@,
        spelled(final(buf)@.skip(old(buf)@.len() as int)) == n,
{
    law_u64_le(n);
    assert(final(buf)@.skip(old(buf)@.len() as int) =~= u64_le(n));
    assert(final(buf)@.take(old(buf)@.len() as int) =~= old(buf)@);
}

/// A signed integer is appended in two's complement, low byte first.
pub proof fn law_put_i64_le(buf: &mut Vec<u8>, n: i64)
    requires
        call_ensures(put_i64_le, (buf, n), ()),
    ensures
        final(buf)@.len() == old(buf)@.len() + 8,
        final(buf)@.take(old(buf)@.len() as int) == old(buf)@,
        spelled(final(buf)@.skip(old(buf)@.len() as int)) == (if n < 0 {
            n + 0x1_0000_0000_0000_0000
        } else {
            n as int
        }),
{
    law_i64_le(n);
    assert(final(buf)@.skip(old(buf)@.len() as int) =~= i64_le(n));
    assert(final(buf)@.take(old(buf)@.len() as int) =~= old(buf)@);
}

/// A text is appended with a NUL behind it.
pub proof fn law_put_cstring(buf: &mut Vec<u8>, text: &str)
    requires
        call_ensures(put_cstring, (buf, text), ()),
    ensures
        final(buf)@ == old(buf)@ + encode_utf8(text@) + seq![0u8],
{
    assert(final(buf)@ =~= old(buf)@ + encode_utf8(text@) + seq![0u8]);
}

/// Two strings are the same exactly if they have the same characters, and one
/// begins with another exactly if its first characters are the other's.
pub proof fn law_compare_text(a: &str, b: &str, same: bool, begins: bool)
    requires
        call_ensures(crate::text::same_text, (a, b), same),
        call_ensures(crate::text::starts_with, (a, b), begins),
    ensures
        same <==> a@.len() == b@.len() && forall|i: int|
            0 <= i < a@.len() ==> #[trigger] a@[i] == b@[i],
        begins <==> b@.len() <= a@.len() && forall|i: int|
            0 <= i < b@.len() ==> #[trigger] b@[i] == a@[i],
{
    if a@.len() == b@.len() && forall|i: int| 0 <= i < a@.len() ==> #[trigger] a@[i] == b@[i] {
        assert(a@ =~= b@);
    }
    if b@.len() <= a@.len() {
        let head = a@.subrange(0, b@.len() as int);
        assert(forall|i: int| 0 <= i < b@.len() ==> #[trigger] head[i] == a@[i]);
        if forall|i: int| 0 <= i < b@.len() ==> #[trigger] b@[i] == a@[i] {
            assert(b@ =~= head);
        }
        if begins {
            assert forall|i: int| 0 <= i < b@.len() implies #[trigger] b@[i] == a@[i] by {
                assert(head[i] == a@[i]);
            }
        }
    }
}

/// Bytes are appended as they are.
pub proof fn law_put_bytes(buf: &mut Vec<u8>, other: &mut Vec<u8>, bytes: &[u8], byte: u8)
    requires
        call_ensures(crate::wire::put_slice, (buf, bytes), ()),
        call_ensures(crate::wire::put_u8, (other, byte), ()),
    ensures
        final(buf)@ == old(buf)@ + bytes@,
        final(other)@ == old(other)@ + seq![byte],
{
    assert(final(other)@ =~= old(other)@ + seq![byte]);
}

} // verus!
