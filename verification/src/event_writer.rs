//! Per-event payload builder and constant global-field blob.

use crate::etw::{
    in_ansi_string, in_chain_flag, in_int64, in_uint64, in_uint8, out_boolean, out_hex, out_utf8,
};
use crate::field::{error_text, FieldValue, Recorded, Value};
use crate::text::{lemma_encode_utf8_concat, same_text, starts_with};
use crate::wire::{
    cstring, i64_le, put_cstring, put_i64_le, put_slice, put_u64_le, put_u8, u64_le,
};
use vstd::prelude::*;
use vstd::string::*;
use vstd::utf8::*;

verus! {

/// Renames an ETW field at write time. Any field that would have been emitted
/// under `from` is emitted under `to` instead. The value is unchanged.
///
/// Aliases apply to user-supplied fields, the implicit `message` field, and
/// the auto-emitted `target` field. They do **not** apply to global fields
/// (those are written verbatim).
#[derive(Debug)]
pub struct FieldAlias {
    pub from: String,
    pub to: String,
}

impl FieldAlias {
    /// Renames `from` to `to`.
    pub fn new<F: Into<String>, T: Into<String>>(from: F, to: T) -> (r: FieldAlias)
        ensures
            call_ensures(F::into, (from,), r.from),
            call_ensures(T::into, (to,), r.to),
    {
        FieldAlias { from: from.into(), to: to.into() }
    }
}

impl Clone for FieldAlias {
    fn clone(&self) -> (r: FieldAlias)
        ensures
            r == *self,
    {
        FieldAlias { from: self.from.clone(), to: self.to.clone() }
    }
}

/// A constant key/value field included in every event emitted by the
/// subscriber.
#[derive(Debug)]
pub struct GlobalField {
    pub name: String,
    pub value: String,
}

impl GlobalField {
    /// A field of the given name and value.
    pub fn new<N: Into<String>, V: Into<String>>(name: N, value: V) -> (r: GlobalField)
        ensures
            call_ensures(N::into, (name,), r.name),
            call_ensures(V::into, (value,), r.value),
    {
        GlobalField { name: name.into(), value: value.into() }
    }
}

impl Clone for GlobalField {
    fn clone(&self) -> (r: GlobalField)
        ensures
            r == *self,
    {
        GlobalField { name: self.name.clone(), value: self.value.clone() }
    }
}

/// `String::from` on a string slice: the new string holds the same text. This is
/// the conversion that a name or a value given as a string slice goes through.
pub assume_specification<'b>[ <std::string::String as std::convert::From<&'b str>>::from ](
    s: &str,
) -> (r: std::string::String)
    ensures
        r@ == s@,
;

/// `From::from` from a type to itself, which documents that it returns its
/// argument unchanged. This is the conversion that a name or a value given as a
/// `String` goes through.
pub assume_specification<U>[ <U as std::convert::From<U>>::from ](value: U) -> (r: U)
    ensures
        r == value,
;

/// The metadata bytes and the data bytes of part of an event.
#[verifier::ext_equal]
pub struct Payload {
    pub metadata: Seq<u8>,
    pub data: Seq<u8>,
}

impl Payload {
    pub open spec fn empty() -> Payload {
        Payload { metadata: Seq::empty(), data: Seq::empty() }
    }

    /// This part followed by another.
    pub open spec fn then_part(self, next: Payload) -> Payload {
        Payload { metadata: self.metadata + next.metadata, data: self.data + next.data }
    }
}

/// The type bytes of a NUL-terminated text: an ANSI string that chains to an
/// out flag, and UTF-8.
pub open spec fn text_type() -> Seq<u8> {
    seq![0x82u8, 35u8]
}

/// The type bytes of a field, which follow its name in the metadata.
///
/// A text is a string shown as UTF-8, an unsigned number is shown in
/// hexadecimal, a truth value is a byte whose out flag is not chained.
pub open spec fn type_bytes(value: Value) -> Seq<u8> {
    match value {
        Value::Text(_) => text_type(),
        Value::Signed(_) => seq![9u8],
        Value::Unsigned(_) => seq![0x8au8, 4u8],
        Value::Boolean(_) => seq![4u8, 3u8],
    }
}

/// The bytes of a field in the data.
pub open spec fn value_bytes(value: Value) -> Seq<u8> {
    match value {
        Value::Text(text) => cstring(text),
        Value::Signed(v) => i64_le(v),
        Value::Unsigned(v) => u64_le(v),
        Value::Boolean(v) => seq![if v { 1u8 } else { 0u8 }],
    }
}

/// The name under which a field is emitted: that of the first alias for it, or
/// its own.
pub open spec fn resolve_name(aliases: Seq<FieldAlias>, name: Seq<char>) -> Seq<char>
    decreases aliases.len(),
{
    if aliases.len() == 0 {
        name
    } else if aliases[0].from@ == name {
        aliases[0].to@
    } else {
        resolve_name(aliases.drop_first(), name)
    }
}

/// No two aliases are for the same name.
pub open spec fn aliases_distinct(aliases: Seq<FieldAlias>) -> bool {
    forall|i: int, j: int|
        0 <= i < j < aliases.len() ==> (#[trigger] aliases[i]).from@ != (
        #[trigger] aliases[j]).from@
}

/// The aliases after one more is set: it takes the place of the target that the
/// name had, or comes last if the name had none.
pub open spec fn with_alias(aliases: Seq<FieldAlias>, alias: FieldAlias) -> Seq<FieldAlias>
    decreases aliases.len(),
{
    if aliases.len() == 0 {
        seq![alias]
    } else if aliases[0].from@ == alias.from@ {
        aliases.update(0, (FieldAlias { from: aliases[0].from, to: alias.to }))
    } else {
        seq![aliases[0]] + with_alias(aliases.drop_first(), alias)
    }
}

/// If the first alias for the name stands at `at`, that one alone changes; if
/// there is none, the new one is appended.
pub proof fn lemma_with_alias_at(aliases: Seq<FieldAlias>, alias: FieldAlias, at: int)
    requires
        0 <= at <= aliases.len(),
        forall|i: int| 0 <= i < at ==> (#[trigger] aliases[i]).from@ != alias.from@,
        at < aliases.len() ==> aliases[at].from@ == alias.from@,
    ensures
        at < aliases.len() ==> with_alias(aliases, alias) == aliases.update(
            at,
            (FieldAlias { from: aliases[at].from, to: alias.to }),
        ),
        at == aliases.len() ==> with_alias(aliases, alias) == aliases.push(alias),
        aliases_distinct(aliases) ==> aliases_distinct(with_alias(aliases, alias)),
    decreases aliases.len(),
{
    if aliases.len() == 0 {
        assert(aliases.push(alias) =~= seq![alias]);
    } else if at > 0 {
        let rest = aliases.drop_first();
        assert(aliases[0].from@ != alias.from@);
        assert forall|i: int| 0 <= i < at - 1 implies (#[trigger] rest[i]).from@
            != alias.from@ by {
            assert(rest[i] == aliases[i + 1]);
        }
        lemma_with_alias_at(rest, alias, at - 1);
        if at < aliases.len() {
            let changed = FieldAlias { from: aliases[at].from, to: alias.to };
            assert(seq![aliases[0]] + rest.update(at - 1, changed) =~= aliases.update(at, changed));
        } else {
            assert(seq![aliases[0]] + rest.push(alias) =~= aliases.push(alias));
        }
    }
}

/// Setting an alias renames that field, whatever name it was given before, and
/// no other field.
pub proof fn law_set_alias(aliases: Seq<FieldAlias>, alias: FieldAlias, name: Seq<char>)
    ensures
        name == alias.from@ ==> resolve_name(with_alias(aliases, alias), name) == alias.to@,
        name != alias.from@ ==> resolve_name(with_alias(aliases, alias), name) == resolve_name(
            aliases,
            name,
        ),
    decreases aliases.len(),
{
    if aliases.len() == 0 {
        assert(seq![alias].drop_first() =~= aliases);
        assert(resolve_name(aliases, name) == name);
    } else if aliases[0].from@ == alias.from@ {
        assert(with_alias(aliases, alias).drop_first() =~= aliases.drop_first());
    } else {
        law_set_alias(aliases.drop_first(), alias, name);
        assert(with_alias(aliases, alias).drop_first() =~= with_alias(aliases.drop_first(), alias));
    }
}

/// How fields are named: through the aliases, and without the fields that the
/// `log` bridge adds if there is such a bridge.
pub struct Naming {
    pub aliases: Seq<FieldAlias>,
    pub tracing_log: bool,
}

impl Naming {
    /// Whether a field is left out.
    pub open spec fn skips(self, name: Seq<char>) -> bool {
        self.tracing_log && "log."@.is_prefix_of(name)
    }

    /// What a field adds to an event.
    pub open spec fn field(self, name: Seq<char>, value: Value) -> Payload {
        if self.skips(name) {
            Payload::empty()
        } else {
            Payload {
                metadata: cstring(resolve_name(self.aliases, name)) + type_bytes(value),
                data: value_bytes(value),
            }
        }
    }

    /// What fields add to an event, in order.
    pub open spec fn fields(self, fields: Seq<(Seq<char>, Value)>) -> Payload
        decreases fields.len(),
    {
        if fields.len() == 0 {
            Payload::empty()
        } else {
            self.fields(fields.drop_last()).then_part(self.field(fields.last().0, fields.last().1))
        }
    }
}

/// What global fields add to every event, in order.
pub open spec fn globals_payload(fields: Seq<GlobalField>) -> Payload
    decreases fields.len(),
{
    if fields.len() == 0 {
        Payload::empty()
    } else {
        globals_payload(fields.drop_last()).then_part(
            Payload {
                metadata: cstring(fields.last().name@) + text_type(),
                data: cstring(fields.last().value@),
            },
        )
    }
}

/// Appends the type bytes of a NUL-terminated text.
fn put_text_type(metadata: &mut Vec<u8>)
    ensures
        final(metadata)@ == old(metadata)@ + text_type(),
{
    assert(2u8 | 0x80u8 == 0x82u8) by (bit_vector);
    put_u8(metadata, in_ansi_string() | in_chain_flag());
    put_u8(metadata, out_utf8());
    assert(metadata@ =~= old(metadata)@ + text_type());
}

/// Pre-rendered metadata + data bytes for the global fields. Built once per
/// `set_global_fields` call and concatenated as-is into every event.
pub struct GlobalsBlob {
    pub metadata: Vec<u8>,
    pub data: Vec<u8>,
}

impl View for GlobalsBlob {
    type V = Payload;

    open spec fn view(&self) -> Payload {
        Payload { metadata: self.metadata@, data: self.data@ }
    }
}

impl Default for GlobalsBlob {
    fn default() -> (r: GlobalsBlob)
        ensures
            r@ == Payload::empty(),
    {
        GlobalsBlob { metadata: Vec::new(), data: Vec::new() }
    }
}

impl Clone for GlobalsBlob {
    fn clone(&self) -> (r: GlobalsBlob)
        ensures
            r@ == self@,
    {
        let r: GlobalsBlob = GlobalsBlob {
            metadata: self.metadata.clone(),
            data: self.data.clone(),
        };
        assert(r@ =~= self@);
        r
    }
}

impl GlobalsBlob {
    /// Renders global fields, in order.
    pub fn from_fields(fields: &[GlobalField]) -> (r: GlobalsBlob)
        ensures
            r@ == globals_payload(fields@),
    {
        let mut blob: GlobalsBlob = GlobalsBlob::default();
        let mut i: usize = 0;
        while i < fields.len()
            invariant
                i <= fields@.len(),
                blob@ == globals_payload(fields@.take(i as int)),
            decreases fields@.len() - i,
        {
            let ghost before = blob@;
            let f: &GlobalField = &fields[i];
            put_cstring(&mut blob.metadata, f.name.as_str());
            put_text_type(&mut blob.metadata);
            put_cstring(&mut blob.data, f.value.as_str());
            i += 1;
            proof {
                assert(fields@.take(i as int).drop_last() =~= fields@.take(i - 1));
                assert(blob@ =~= before.then_part(
                    Payload {
                        metadata: cstring(f.name@) + text_type(),
                        data: cstring(f.value@),
                    },
                ));
            }
        }
        assert(fields@.take(i as int) =~= fields@);
        blob
    }
}

/// Per-event payload builder. Borrows the alias slice from the subscriber so
/// no per-event cloning is required.
pub struct EventData<'a> {
    pub metadata: Vec<u8>,
    pub data: Vec<u8>,
    pub aliases: &'a [FieldAlias],
    pub tracing_log: bool,
}

impl<'a> View for EventData<'a> {
    type V = Payload;

    open spec fn view(&self) -> Payload {
        Payload { metadata: self.metadata@, data: self.data@ }
    }
}

impl<'a> EventData<'a> {
    /// How this event names its fields.
    pub open spec fn naming(self) -> Naming {
        Naming { aliases: self.aliases@, tracing_log: self.tracing_log }
    }

    /// An event with nothing in it yet.
    pub fn new(aliases: &'a [FieldAlias], tracing_log: bool) -> (r: EventData<'a>)
        ensures
            r@ == Payload::empty(),
            r.naming() == (Naming { aliases: aliases@, tracing_log }),
    {
        EventData { metadata: Vec::new(), data: Vec::new(), aliases, tracing_log }
    }

    /// Resolves a field name through the alias table. Returns the renamed
    /// name if `name` is aliased, or `name` unchanged otherwise.
    pub fn resolve<'b>(&self, name: &'b str) -> (r: &'b str)
        where 'a: 'b
        ensures
            r@ == resolve_name(self.naming().aliases, name@),
    {
        let aliases: &'a [FieldAlias] = self.aliases;
        let mut i: usize = 0;
        assert(aliases@.skip(0) =~= aliases@);
        while i < aliases.len()
            invariant
                i <= aliases@.len(),
                resolve_name(aliases@, name@) == resolve_name(aliases@.skip(i as int), name@),
                aliases@ == self.naming().aliases,
            decreases aliases@.len() - i,
        {
            assert(aliases@.skip(i as int).drop_first() =~= aliases@.skip(i + 1));
            if same_text(aliases[i].from.as_str(), name) {
                return aliases[i].to.as_str();
            }
            i += 1;
        }
        name
    }

    /// Writes the resolved field name + null terminator. Returns `false` if
    /// the field should be skipped (only used for the `tracing-log`
    /// passthrough fields).
    pub fn write_name(&mut self, name: &str) -> (r: bool)
        ensures
            r == !old(self).naming().skips(name@),
            r ==> final(self).metadata@ == old(self).metadata@ + cstring(
                resolve_name(old(self).naming().aliases, name@),
            ),
            !r ==> final(self).metadata@ == old(self).metadata@,
            final(self).data@ == old(self).data@,
            final(self).naming() == old(self).naming(),
    {
        if self.tracing_log && starts_with(name, "log.") {
            return false;
        }
        let resolved: &str = self.resolve(name);
        put_cstring(&mut self.metadata, resolved);
        true
    }

    /// Adds a field with the `Debug` rendering of its value.
    pub fn record_debug(&mut self, name: &str, rendered: &str)
        ensures
            final(self)@ == old(self)@.then_part(
                old(self).naming().field(name@, Value::Text(rendered@)),
            ),
            final(self).naming() == old(self).naming(),
    {
        if self.write_name(name) {
            put_text_type(&mut self.metadata);
            put_cstring(&mut self.data, rendered);
        }
        assert(self@ =~= old(self)@.then_part(
            old(self).naming().field(name@, Value::Text(rendered@)),
        ));
    }

    /// Adds a field with a signed number.
    pub fn record_i64(&mut self, name: &str, value: i64)
        ensures
            final(self)@ == old(self)@.then_part(
                old(self).naming().field(name@, Value::Signed(value)),
            ),
            final(self).naming() == old(self).naming(),
    {
        if self.write_name(name) {
            put_u8(&mut self.metadata, in_int64());
            put_i64_le(&mut self.data, value);
        }
        assert(self@ =~= old(self)@.then_part(
            old(self).naming().field(name@, Value::Signed(value)),
        ));
    }

    /// Adds a field with an unsigned number.
    pub fn record_u64(&mut self, name: &str, value: u64)
        ensures
            final(self)@ == old(self)@.then_part(
                old(self).naming().field(name@, Value::Unsigned(value)),
            ),
            final(self).naming() == old(self).naming(),
    {
        if self.write_name(name) {
            assert(10u8 | 0x80u8 == 0x8au8) by (bit_vector);
            put_u8(&mut self.metadata, in_uint64() | in_chain_flag());
            put_u8(&mut self.metadata, out_hex());
            put_u64_le(&mut self.data, value);
        }
        assert(self@ =~= old(self)@.then_part(
            old(self).naming().field(name@, Value::Unsigned(value)),
        ));
    }

    /// Adds a field with a truth value.
    pub fn record_bool(&mut self, name: &str, value: bool)
        ensures
            final(self)@ == old(self)@.then_part(
                old(self).naming().field(name@, Value::Boolean(value)),
            ),
            final(self).naming() == old(self).naming(),
    {
        if self.write_name(name) {
            put_u8(&mut self.metadata, in_uint8());
            put_u8(&mut self.metadata, out_boolean());
            put_u8(&mut self.data, if value { 1 } else { 0 });
        }
        assert(self@ =~= old(self)@.then_part(
            old(self).naming().field(name@, Value::Boolean(value)),
        ));
    }

    /// Adds a field with a text.
    pub fn record_str(&mut self, name: &str, value: &str)
        ensures
            final(self)@ == old(self)@.then_part(
                old(self).naming().field(name@, Value::Text(value@)),
            ),
            final(self).naming() == old(self).naming(),
    {
        if self.write_name(name) {
            put_text_type(&mut self.metadata);
            put_cstring(&mut self.data, value);
        }
        assert(self@ =~= old(self)@.then_part(
            old(self).naming().field(name@, Value::Text(value@)),
        ));
    }

    /// Adds a field with the message of an error and the messages of the errors
    /// that caused it, from the nearest to the farthest.
    pub fn record_error(&mut self, name: &str, message: &str, sources: &[String])
        ensures
            final(self)@ == old(self)@.then_part(
                old(self).naming().field(name@, Value::Text(error_text(message@, sources@))),
            ),
            final(self).naming() == old(self).naming(),
    {
        if self.write_name(name) {
            put_text_type(&mut self.metadata);
            let ghost start = self.data@;
            put_slice(&mut self.data, message.as_bytes());
            let ghost metadata = self.metadata@;
            let ghost naming = self.naming();
            let mut i: usize = 0;
            assert(error_text(message@, sources@.take(0)) == message@);
            while i < sources.len()
                invariant
                    i <= sources@.len(),
                    self.metadata@ == metadata,
                    self.naming() == naming,
                    self.data@ == start + encode_utf8(
                        error_text(message@, sources@.take(i as int)),
                    ),
                decreases sources@.len() - i,
            {
                put_slice(&mut self.data, ": ".as_bytes());
                put_slice(&mut self.data, sources[i].as_str().as_bytes());
                proof {
                    let before = error_text(message@, sources@.take(i as int));
                    assert(sources@.take(i + 1).drop_last() =~= sources@.take(i as int));
                    lemma_encode_utf8_concat(before, ": "@);
                    lemma_encode_utf8_concat(before + ": "@, sources@[i as int]@);
                    assert(self.data@ =~= start + encode_utf8(
                        error_text(message@, sources@.take(i + 1)),
                    ));
                }
                i += 1;
            }
            assert(sources@.take(i as int) =~= sources@);
            put_u8(&mut self.data, 0);
        }
        assert(self@ =~= old(self)@.then_part(
            old(self).naming().field(name@, Value::Text(error_text(message@, sources@))),
        ));
    }

    /// Adds a recorded field.
    pub fn record(&mut self, recorded: &Recorded)
        ensures
            final(self)@ == old(self)@.then_part(
                old(self).naming().field(recorded@.0, recorded@.1),
            ),
            final(self).naming() == old(self).naming(),
    {
        let name: &str = recorded.field.name.as_str();
        match &recorded.value {
            FieldValue::Debug(rendered) => self.record_debug(name, rendered.as_str()),
            FieldValue::Signed(v) => self.record_i64(name, *v),
            FieldValue::Unsigned(v) => self.record_u64(name, *v),
            FieldValue::Boolean(v) => self.record_bool(name, *v),
            FieldValue::Str(v) => self.record_str(name, v.as_str()),
            FieldValue::Error { message, sources } => self.record_error(
                name,
                message.as_str(),
                sources.as_slice(),
            ),
        }
    }
}

} // verus!
