//! How a consumer reads the fields of an event, and that it gets back what was
//! recorded.

use crate::event_writer::{
    globals_payload, resolve_name, type_bytes, GlobalField, Naming, Payload,
};
use crate::field::Value;
use crate::laws::{law_fields_in_order, law_globals_verbatim};
use crate::subscriber::Settings;
use crate::wire::{cstring, i64_le, law_i64_le, law_u64_le, le_u64, u64_le};
use vstd::prelude::*;
use vstd::string::*;
use vstd::utf8::*;

verus! {

/// The place of the first NUL, or the length if there is none.
pub open spec fn first_nul(bytes: Seq<u8>) -> int
    decreases bytes.len(),
{
    if bytes.len() == 0 || bytes[0] == 0 {
        0
    } else {
        1 + first_nul(bytes.drop_first())
    }
}

/// The signed number that eight bytes spell in two's complement.
pub open spec fn le_i64(bytes: Seq<u8>) -> int {
    if le_u64(bytes) < 0x8000_0000_0000_0000 {
        le_u64(bytes)
    } else {
        le_u64(bytes) - 0x1_0000_0000_0000_0000
    }
}

/// Reads one value of the given type bytes, and gives the data that follows it.
pub open spec fn read_value(types: Seq<u8>, data: Seq<u8>) -> Option<(Value, Seq<u8>)> {
    if types == seq![0x82u8, 35u8] && first_nul(data) < data.len() {
        let n = first_nul(data);
        Some((Value::Text(decode_utf8(data.take(n))), data.skip(n + 1)))
    } else if types == seq![9u8] && data.len() >= 8 {
        Some((Value::Signed(le_i64(data.take(8)) as i64), data.skip(8)))
    } else if types == seq![0x8au8, 4u8] && data.len() >= 8 {
        Some((Value::Unsigned(le_u64(data.take(8)) as u64), data.skip(8)))
    } else if types == seq![4u8, 3u8] && data.len() >= 1 && data[0] <= 1 {
        Some((Value::Boolean(data[0] == 1), data.skip(1)))
    } else {
        None
    }
}

/// Reads one field: its name up to the NUL, its type, and its value. The type is
/// one byte for a signed number and two for the others, the second of which is
/// an out flag; a truth value has one too, though its first byte does not
/// announce it. Gives the field and what follows it.
pub open spec fn read_field(payload: Payload) -> Option<((Seq<char>, Value), Payload)> {
    let n = first_nul(payload.metadata);
    if n + 1 >= payload.metadata.len() {
        None
    } else {
        let end = if payload.metadata[n + 1] == 9 {
            n + 2
        } else {
            n + 3
        };
        if end > payload.metadata.len() {
            None
        } else {
            match read_value(payload.metadata.subrange(n + 1, end), payload.data) {
                Some((value, data)) => Some(
                    (
                        (decode_utf8(payload.metadata.take(n)), value),
                        Payload { metadata: payload.metadata.skip(end), data },
                    ),
                ),
                None => None,
            }
        }
    }
}

/// Reads fields until the metadata ends.
pub open spec fn read_fields(payload: Payload) -> Option<Seq<(Seq<char>, Value)>>
    decreases payload.metadata.len(),
{
    if payload.metadata.len() == 0 {
        Some(Seq::empty())
    } else {
        match read_field(payload) {
            Some((field, rest)) => if rest.metadata.len() < payload.metadata.len() {
                match read_fields(rest) {
                    Some(fields) => Some(seq![field] + fields),
                    None => None,
                }
            } else {
                None
            },
            None => None,
        }
    }
}

/// A text without a NUL in it.
pub open spec fn without_nul(text: Seq<char>) -> bool {
    forall|i: int| 0 <= i < text.len() ==> #[trigger] text[i] != '\0'
}

/// A field that can be read once it is emitted: its name and its text hold no
/// NUL.
pub open spec fn readable(naming: Naming, name: Seq<char>, value: Value) -> bool {
    &&& without_nul(resolve_name(naming.aliases, name))
    &&& match value {
        Value::Text(text) => without_nul(text),
        Value::Signed(_) => true,
        Value::Unsigned(_) => true,
        Value::Boolean(_) => true,
    }
}

/// The fields that are emitted: those that are not left out, in order.
pub open spec fn kept(naming: Naming, fields: Seq<(Seq<char>, Value)>) -> Seq<(Seq<char>, Value)> {
    fields.filter(|field: (Seq<char>, Value)| !naming.skips(field.0))
}

/// Fields under the names that they are emitted under.
pub open spec fn renamed(naming: Naming, fields: Seq<(Seq<char>, Value)>) -> Seq<
    (Seq<char>, Value),
> {
    Seq::new(fields.len(), |i: int| (resolve_name(naming.aliases, fields[i].0), fields[i].1))
}

proof fn lemma_scalar_bytes_nonzero(c: u32)
    by (bit_vector)
    ensures
        0 < c <= 0x7f ==> (c & 0x7F) as u8 != 0,
        0xC0u8 | ((c >> 6) & 0x1F) as u8 != 0,
        0xE0u8 | ((c >> 12) & 0x0F) as u8 != 0,
        0xF0u8 | ((c >> 18) & 0x7) as u8 != 0,
        0x80u8 | (c & 0x3F) as u8 != 0,
        0x80u8 | ((c >> 6) & 0x3F) as u8 != 0,
        0x80u8 | ((c >> 12) & 0x3F) as u8 != 0,
{
}

/// Only the NUL character has a zero byte in its encoding.
proof fn lemma_encoding_nonzero(text: Seq<char>)
    requires
        without_nul(text),
    ensures
        forall|i: int| 0 <= i < encode_utf8(text).len() ==> #[trigger] encode_utf8(text)[i] != 0,
    decreases text.len(),
{
    if text.len() > 0 {
        let c = text[0] as u32;
        let first = encode_scalar(c);
        let rest = encode_utf8(text.drop_first());
        assert(without_nul(text.drop_first())) by {
            assert forall|i: int| 0 <= i < text.drop_first().len() implies #[trigger]
                text.drop_first()[i] != '\0' by {
                assert(text.drop_first()[i] == text[i + 1]);
            }
        }
        lemma_encoding_nonzero(text.drop_first());
        char_is_scalar(text[0]);
        char_u32_cast(text[0], c);
        assert(c != 0) by {
            if c == 0 {
                char_u32_cast('\0', 0);
            }
        }
        lemma_scalar_bytes_nonzero(c);
        assert(forall|i: int| 0 <= i < first.len() ==> #[trigger] first[i] != 0);
        assert forall|i: int| 0 <= i < encode_utf8(text).len() implies #[trigger] encode_utf8(
            text,
        )[i] != 0 by {
            if i >= first.len() {
                assert(encode_utf8(text)[i] == rest[i - first.len()]);
            }
        }
    }
}

/// The first NUL after bytes that are not zero is the one that follows them.
proof fn lemma_first_nul(bytes: Seq<u8>, rest: Seq<u8>)
    requires
        forall|i: int| 0 <= i < bytes.len() ==> #[trigger] bytes[i] != 0,
    ensures
        first_nul(bytes + seq![0u8] + rest) == bytes.len(),
    decreases bytes.len(),
{
    let all = bytes + seq![0u8] + rest;
    if bytes.len() > 0 {
        assert(all[0] == bytes[0]);
        assert(all.drop_first() =~= bytes.drop_first() + seq![0u8] + rest);
        lemma_first_nul(bytes.drop_first(), rest);
    }
}

/// A text is read back from its NUL-terminated form.
pub proof fn lemma_read_text(text: Seq<char>, rest: Seq<u8>)
    requires
        without_nul(text),
    ensures
        ({
            let bytes = cstring(text) + rest;
            let n = first_nul(bytes);
            &&& n == encode_utf8(text).len()
            &&& n < bytes.len()
            &&& decode_utf8(bytes.take(n)) == text
            &&& bytes.skip(n + 1) == rest
        }),
{
    let bytes = cstring(text) + rest;
    lemma_encoding_nonzero(text);
    lemma_first_nul(encode_utf8(text), rest);
    assert(bytes =~= encode_utf8(text) + seq![0u8] + rest);
    assert(bytes.take(encode_utf8(text).len() as int) =~= encode_utf8(text));
    assert(bytes.skip(encode_utf8(text).len() as int + 1) =~= rest);
    encode_utf8_decode_utf8(text);
}

/// A field is read back, with what follows it untouched.
proof fn lemma_read_field(naming: Naming, name: Seq<char>, value: Value, rest: Payload)
    requires
        !naming.skips(name),
        readable(naming, name, value),
    ensures
        read_field(naming.field(name, value).then_part(rest)) == Some(
            ((resolve_name(naming.aliases, name), value), rest),
        ),
{
    let emitted = resolve_name(naming.aliases, name);
    let payload = naming.field(name, value).then_part(rest);
    let types = type_bytes(value);
    assert(payload.metadata =~= cstring(emitted) + (types + rest.metadata));
    lemma_read_text(emitted, types + rest.metadata);
    let n = first_nul(payload.metadata);
    assert(payload.metadata[n + 1] == types[0]);
    assert(payload.metadata.subrange(n + 1, n + 1 + types.len()) =~= types);
    assert(seq![9u8].len() == 1 && seq![0x82u8, 35u8][0] == 0x82 && seq![0x8au8, 4u8][0] == 0x8a
        && seq![4u8, 3u8][0] == 4);
    assert(payload.metadata.skip(n + 1 + types.len()) =~= rest.metadata);
    match value {
        Value::Text(text) => {
            lemma_read_text(text, rest.data);
        },
        Value::Signed(v) => {
            law_i64_le(v);
            assert(payload.data.take(8) =~= i64_le(v));
            assert(payload.data.skip(8) =~= rest.data);
        },
        Value::Unsigned(v) => {
            law_u64_le(v);
            assert(payload.data.take(8) =~= u64_le(v));
            assert(payload.data.skip(8) =~= rest.data);
        },
        Value::Boolean(_) => {
            assert(payload.data.skip(1) =~= rest.data);
        },
    }
}

/// Fields are read back in order, and then what follows them.
proof fn lemma_read_fields(
    naming: Naming,
    fields: Seq<(Seq<char>, Value)>,
    tail: Payload,
    tail_fields: Seq<(Seq<char>, Value)>,
)
    requires
        forall|i: int|
            0 <= i < fields.len() ==> !naming.skips((#[trigger] fields[i]).0) && readable(
                naming,
                fields[i].0,
                fields[i].1,
            ),
        read_fields(tail) == Some(tail_fields),
    ensures
        read_fields(naming.fields(fields).then_part(tail)) == Some(
            renamed(naming, fields) + tail_fields,
        ),
    decreases fields.len(),
{
    if fields.len() == 0 {
        assert(naming.fields(fields).then_part(tail) =~= tail);
        assert(renamed(naming, fields) + tail_fields =~= tail_fields);
    } else {
        let first = fields[0];
        let rest = fields.drop_first();
        let one = seq![first];
        let after = naming.fields(rest).then_part(tail);
        assert(fields =~= one + rest);
        law_fields_in_order(naming, one, rest);
        assert(one.drop_last() =~= Seq::empty());
        assert(naming.fields(one.drop_last()) == Payload::empty());
        assert(naming.fields(one) =~= naming.field(first.0, first.1));
        assert(naming.fields(fields).then_part(tail) =~= naming.field(first.0, first.1).then_part(
            after,
        ));
        assert forall|i: int| 0 <= i < rest.len() implies !naming.skips((#[trigger] rest[i]).0)
            && readable(naming, rest[i].0, rest[i].1) by {
            assert(rest[i] == fields[i + 1]);
        }
        lemma_read_fields(naming, rest, tail, tail_fields);
        lemma_read_field(naming, first.0, first.1, after);
        assert(renamed(naming, fields) + tail_fields =~= seq![
            (resolve_name(naming.aliases, first.0), first.1),
        ] + (renamed(naming, rest) + tail_fields));
    }
}

/// Fields that are left out leave nothing behind: what fields add is what those
/// of them add that are kept, and every field that is kept is one of them.
pub proof fn law_left_out_fields_add_nothing(naming: Naming, fields: Seq<(Seq<char>, Value)>)
    ensures
        naming.fields(fields) == naming.fields(kept(naming, fields)),
        forall|i: int|
            0 <= i < kept(naming, fields).len() ==> !naming.skips(
                (#[trigger] kept(naming, fields)[i]).0,
            ) && fields.contains(kept(naming, fields)[i]),
    decreases fields.len(),
{
    reveal(Seq::filter);
    if fields.len() > 0 {
        let rest = fields.drop_last();
        let last = fields.last();
        law_left_out_fields_add_nothing(naming, rest);
        assert(rest.len() < fields.len());
        assert forall|i: int| 0 <= i < kept(naming, rest).len() implies fields.contains(
            #[trigger] kept(naming, rest)[i],
        ) by {
            let j = choose|j: int| 0 <= j < rest.len() && rest[j] == kept(naming, rest)[i];
            assert(fields[j] == rest[j]);
        }
        assert(fields[fields.len() - 1] == last);
        if naming.skips(last.0) {
            assert(kept(naming, fields) == kept(naming, rest));
            assert(naming.fields(fields) =~= naming.fields(rest));
        } else {
            assert(kept(naming, fields) == kept(naming, rest).push(last));
            assert(kept(naming, fields).drop_last() =~= kept(naming, rest));
        }
    }
}

/// The fields of an event are read back in order, under the names that they
/// were emitted under and with the values that were recorded. Fields that are
/// left out are not among them.
pub proof fn law_fields_read_back(naming: Naming, fields: Seq<(Seq<char>, Value)>)
    requires
        forall|i: int|
            0 <= i < fields.len() && !naming.skips((#[trigger] fields[i]).0) ==> readable(
                naming,
                fields[i].0,
                fields[i].1,
            ),
    ensures
        read_fields(naming.fields(fields)) == Some(renamed(naming, kept(naming, fields))),
{
    let none = Seq::<(Seq<char>, Value)>::empty();
    let emitted = kept(naming, fields);
    law_left_out_fields_add_nothing(naming, fields);
    assert forall|i: int| 0 <= i < emitted.len() implies !naming.skips((#[trigger] emitted[i]).0)
        && readable(naming, emitted[i].0, emitted[i].1) by {
        let j = choose|j: int| 0 <= j < fields.len() && fields[j] == emitted[i];
        assert(!naming.skips(fields[j].0));
    }
    lemma_read_fields(naming, emitted, Payload::empty(), none);
    assert(naming.fields(emitted).then_part(Payload::empty()) =~= naming.fields(emitted));
    assert(renamed(naming, emitted) + none =~= renamed(naming, emitted));
}

/// Global fields as names and texts.
pub open spec fn global_values(globals: Seq<GlobalField>) -> Seq<(Seq<char>, Value)> {
    Seq::new(globals.len(), |i: int| (globals[i].name@, Value::Text(globals[i].value@)))
}

/// The naming under which every field keeps its name.
pub open spec fn plain_naming() -> Naming {
    Naming { aliases: Seq::empty(), tracing_log: false }
}

/// Global fields are laid out as text fields that no alias applies to.
pub proof fn law_globals_are_plain_fields(globals: Seq<GlobalField>)
    ensures
        globals_payload(globals) == plain_naming().fields(global_values(globals)),
    decreases globals.len(),
{
    if globals.len() > 0 {
        law_globals_are_plain_fields(globals.drop_last());
        assert(global_values(globals).drop_last() =~= global_values(globals.drop_last()));
    }
}

/// An event is read back: behind its length and its name, and its target if it
/// has one, its metadata and its data give the global fields under their own
/// names, and then those of the event's fields that are not left out.
pub proof fn law_event_reads_back(
    settings: Settings,
    globals: Seq<GlobalField>,
    write_target: bool,
    name: Seq<char>,
    fields: Seq<(Seq<char>, Value)>,
)
    requires
        settings.globals == globals_payload(globals),
        forall|i: int|
            0 <= i < globals.len() ==> without_nul((#[trigger] globals[i]).name@) && without_nul(
                globals[i].value@,
            ),
        forall|i: int|
            0 <= i < fields.len() && !settings.naming().skips((#[trigger] fields[i]).0) ==> readable(
                settings.naming(),
                fields[i].0,
                fields[i].1,
            ),
    ensures
        ({
            let metadata = settings.event_metadata(write_target, name, fields);
            let named = metadata.skip(3);
            let at = 3 + cstring(name).len() + settings.target_field(write_target).len();
            let emitted = kept(settings.naming(), fields);
            &&& without_nul(name) ==> decode_utf8(named.take(first_nul(named))) == name
            &&& read_fields(
                Payload { metadata: metadata.skip(at as int), data: settings.event_data(fields) },
            ) == Some(global_values(globals) + renamed(settings.naming(), emitted))
        }),
{
    let metadata = settings.event_metadata(write_target, name, fields);
    let own = settings.naming().fields(fields);
    let at = 3 + cstring(name).len() + settings.target_field(write_target).len();
    let behind_name = settings.target_field(write_target) + settings.globals.metadata
        + own.metadata;
    assert(metadata.skip(3) =~= cstring(name) + behind_name);
    if without_nul(name) {
        lemma_read_text(name, behind_name);
    }

    law_globals_verbatim(settings, globals, write_target, name, fields);
    law_globals_are_plain_fields(globals);
    law_fields_read_back(settings.naming(), fields);
    let values = global_values(globals);
    assert forall|i: int| 0 <= i < values.len() implies !plain_naming().skips(
        (#[trigger] values[i]).0,
    ) && readable(plain_naming(), values[i].0, values[i].1) by {
        assert(values[i] == (globals[i].name@, Value::Text(globals[i].value@)));
    }
    let emitted = kept(settings.naming(), fields);
    lemma_read_fields(plain_naming(), values, own, renamed(settings.naming(), emitted));
    assert(renamed(plain_naming(), values) =~= values);
    assert((Payload { metadata: metadata.skip(at as int), data: settings.event_data(fields) })
        =~= plain_naming().fields(values).then_part(own));
}

} // verus!
