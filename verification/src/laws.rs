//! What holds of the events that a subscriber emits, across its settings and
//! across the life of a span.

pub mod activity;
pub mod emitted;
pub mod layout;
pub mod recorded;
pub mod settings;

use crate::activity_id::ActivityId;
use crate::deferred_values::{
    deferred_fields, deferred_value, fields_distinct, first_recorded, has_field,
    law_first_recorded_order, law_last_record_wins, law_update_keeps_order, lemma_value_beside,
    updated_all, value_of,
};
use crate::event_writer::{
    globals_payload, law_set_alias, value_bytes, with_alias, FieldAlias, GlobalField, Naming,
    Payload,
};
use crate::field::{Field, Recorded, Value};
use crate::keyword::{law_rules_accumulate, rules_keyword, KeywordRule, Level};
use crate::subscriber::{
    counted_text_type, deferred_or_none, etw_level, event_options, length16,
    provider_metadata_bytes, span_options, start_options, telemetry_keywords, Block, Metadata,
    Settings, SpanModel,
};
use crate::wire::{cstring, law_u16_le, le_u16, u16_le};
use vstd::prelude::*;
use vstd::string::*;
use vstd::utf8::*;

verus! {

/// With telemetry events opted out, no event carries a telemetry keyword, and
/// every other bit of its keyword stays. Opted in, the keyword is what the
/// rules give.
pub proof fn law_telemetry_opt_out(settings: Settings, level: Level)
    ensures
        settings.keyword_mask == !telemetry_keywords() ==> {
            &&& settings.keyword(level) & telemetry_keywords() == 0
            &&& settings.keyword(level) & !telemetry_keywords() == rules_keyword(
                settings.keyword_rules,
                level,
            ) & !telemetry_keywords()
        },
        settings.keyword_mask == u64::MAX ==> settings.keyword(level) == rules_keyword(
            settings.keyword_rules,
            level,
        ),
{
    let k = rules_keyword(settings.keyword_rules, level);
    let t = telemetry_keywords();
    assert((k & !t) & t == 0) by (bit_vector);
    assert((k & !t) & !t == k & !t) by (bit_vector);
    assert(k & 0xffff_ffff_ffff_ffffu64 == k) by (bit_vector);
}

/// ETW shows `Debug` and `Trace` at one level. A rule for `Trace` alone, with a
/// keyword of its own that the mask lets through, tells them apart.
pub proof fn law_trace_rule_tells_apart(settings: Settings, rule: KeywordRule)
    requires
        rule.levels@ == set![Level::Trace],
        rule.keyword & settings.keyword_mask == rule.keyword,
        rules_keyword(settings.keyword_rules, Level::Debug) & rule.keyword == 0,
    ensures
        etw_level(Level::Debug) == etw_level(Level::Trace),
        ({
            let after = Settings {
                keyword_rules: settings.keyword_rules.push(rule),
                ..settings
            };
            &&& after.keyword(Level::Trace) & rule.keyword == rule.keyword
            &&& after.keyword(Level::Debug) & rule.keyword == 0
        }),
{
    law_rules_accumulate(settings.keyword_rules, rule, Level::Trace);
    law_rules_accumulate(settings.keyword_rules, rule, Level::Debug);
    let t = rules_keyword(settings.keyword_rules, Level::Trace);
    let d = rules_keyword(settings.keyword_rules, Level::Debug);
    let k = rule.keyword;
    let m = settings.keyword_mask;
    assert(k & m == k ==> ((t | k) & m) & k == k) by (bit_vector);
    assert(d & k == 0 ==> (d & m) & k == 0) by (bit_vector);
}

/// The provider metadata begins with its own length.
pub proof fn law_provider_metadata_length(name: Seq<char>)
    requires
        encode_utf8(name).len() + 3 <= u16::MAX,
    ensures
        le_u16(provider_metadata_bytes(name).take(2)) == provider_metadata_bytes(name).len(),
{
    let len = (encode_utf8(name).len() + 3) as u16;
    law_u16_le(len);
    assert(provider_metadata_bytes(name).take(2) =~= u16_le(len));
}

/// The metadata of an event begins with its own length, as far as 16 bits hold
/// it.
pub proof fn law_event_metadata_length(
    settings: Settings,
    write_target: bool,
    name: Seq<char>,
    fields: Seq<(Seq<char>, Value)>,
)
    ensures
        ({
            let metadata = settings.event_metadata(write_target, name, fields);
            &&& le_u16(metadata.take(2)) == metadata.len() % 0x1_0000
            &&& metadata.len() < 0x1_0000 ==> le_u16(metadata.take(2)) == metadata.len()
        }),
{
    let body = settings.metadata_body(write_target, name, fields);
    let metadata = settings.event_metadata(write_target, name, fields);
    law_u16_le(length16(body.len() + 2));
    assert(metadata.take(2) =~= u16_le(length16(body.len() + 2)));
    assert(metadata.len() == body.len() + 2);
}

/// Every event has the provider metadata and its own metadata at its head, in
/// this order, and its data last.
pub proof fn law_metadata_at_head(
    settings: Settings,
    write_target: bool,
    meta: Metadata<'_>,
    fields: Seq<(Seq<char>, Value)>,
)
    ensures
        ({
            let blocks = settings.blocks(write_target, meta.name@, meta.target@, fields);
            &&& blocks.len() == if write_target {
                5int
            } else {
                3
            }
            &&& blocks[0] == Block::ProviderMetadata(settings.provider_metadata)
            &&& blocks[1] == Block::EventMetadata(
                settings.event_metadata(write_target, meta.name@, fields),
            )
            &&& blocks.last() == Block::Data(settings.event_data(fields))
        }),
{
}

/// Global fields stand in every event verbatim, before the event's own fields,
/// whatever the aliases are.
pub proof fn law_globals_verbatim(
    settings: Settings,
    globals: Seq<GlobalField>,
    write_target: bool,
    name: Seq<char>,
    fields: Seq<(Seq<char>, Value)>,
)
    requires
        settings.globals == globals_payload(globals),
    ensures
        globals_payload(globals).data.is_prefix_of(settings.event_data(fields)),
        ({
            let metadata = settings.event_metadata(write_target, name, fields);
            let at = 3 + cstring(name).len() + settings.target_field(write_target).len();
            metadata.skip(at as int) == globals_payload(globals).metadata
                + settings.naming().fields(fields).metadata
        }),
{
    let blob = globals_payload(globals);
    assert(blob.data =~= settings.event_data(fields).subrange(0, blob.data.len() as int));
    let metadata = settings.event_metadata(write_target, name, fields);
    let at = 3 + cstring(name).len() + settings.target_field(write_target).len();
    assert(metadata.skip(at as int) =~= blob.metadata + settings.naming().fields(fields).metadata);
}

/// Fields are emitted one after the other: what fields add is what the first of
/// them add, followed by what the others add.
pub proof fn law_fields_in_order(
    naming: Naming,
    first: Seq<(Seq<char>, Value)>,
    second: Seq<(Seq<char>, Value)>,
)
    ensures
        naming.fields(first + second) == naming.fields(first).then_part(naming.fields(second)),
    decreases second.len(),
{
    if second.len() == 0 {
        assert(first + second =~= first);
        assert(naming.fields(first) =~= naming.fields(first).then_part(naming.fields(second)));
    } else {
        assert((first + second).drop_last() =~= first + second.drop_last());
        law_fields_in_order(naming, first, second.drop_last());
        assert(naming.fields(first + second) =~= naming.fields(first).then_part(
            naming.fields(second),
        ));
    }
}

/// Aliases rename fields and do nothing else: whatever the aliases, the same
/// values are emitted.
pub proof fn law_aliases_keep_values(
    settings: Settings,
    aliases: Seq<FieldAlias>,
    fields: Seq<(Seq<char>, Value)>,
)
    ensures
        (Settings { aliases, ..settings }).event_data(fields) == settings.event_data(fields),
    decreases fields.len(),
{
    if fields.len() > 0 {
        law_aliases_keep_values(settings, aliases, fields.drop_last());
        let other = Settings { aliases, ..settings };
        let rest = fields.drop_last();
        assert(other.naming().fields(rest).data =~= other.event_data(rest).skip(
            settings.globals.data.len() as int,
        ));
        assert(settings.naming().fields(rest).data =~= settings.event_data(rest).skip(
            settings.globals.data.len() as int,
        ));
    }
}

/// An alias renames the `target` field of an event as it does the event's own
/// fields, and leaves the other fields as they were.
pub proof fn law_alias_applies(
    settings: Settings,
    alias: FieldAlias,
    name: Seq<char>,
    value: Value,
)
    ensures
        ({
            let after = Settings { aliases: with_alias(settings.aliases, alias), ..settings };
            &&& alias.from@ == "target"@ ==> after.target_field(true) == cstring(alias.to@)
                + counted_text_type()
            &&& name == alias.from@ && !settings.naming().skips(name) ==> cstring(
                alias.to@,
            ).is_prefix_of(after.naming().field(name, value).metadata)
            &&& name != alias.from@ ==> after.naming().field(name, value)
                == settings.naming().field(name, value)
        }),
{
    let after = Settings { aliases: with_alias(settings.aliases, alias), ..settings };
    law_set_alias(settings.aliases, alias, "target"@);
    law_set_alias(settings.aliases, alias, name);
    if name == alias.from@ && !settings.naming().skips(name) {
        let metadata = after.naming().field(name, value).metadata;
        assert(cstring(alias.to@) =~= metadata.subrange(0, cstring(alias.to@).len() as int));
    }
}

/// A field that the `log` bridge adds leaves no trace in the event; without the
/// bridge every field is emitted.
pub proof fn law_log_fields_skipped(naming: Naming, name: Seq<char>, value: Value)
    ensures
        naming.tracing_log && "log."@.is_prefix_of(name) ==> naming.field(name, value)
            == Payload::empty(),
        !naming.tracing_log || !"log."@.is_prefix_of(name) ==> naming.field(name, value).data
            == value_bytes(value) && naming.field(name, value).metadata.len() > 0,
{
}

/// Recording values leaves the activity of a span as it was.
proof fn lemma_recording_keeps_activity(span: SpanModel, batches: Seq<Seq<Recorded>>)
    ensures
        span.recorded_all(batches).activity_id == span.activity_id,
    decreases batches.len(),
{
    if batches.len() > 0 {
        lemma_recording_keeps_activity(span, batches.drop_last());
    }
}

/// One activity ID runs through the life of a span: its first event, the events
/// within it and its last event carry it, whatever is recorded meanwhile, and
/// the spans opened under it and the events within it have it as their related
/// activity ID.
pub proof fn law_activity_of_span(
    span: SpanModel,
    activity_id: ActivityId,
    parent: Option<SpanModel>,
    batches: Seq<Seq<Recorded>>,
    child: ActivityId,
)
    ensures
        ({
            let open = span.opened(activity_id).recorded_all(batches);
            &&& start_options(activity_id, parent).activity_id == Some(activity_id.0)
            &&& span_options(Some(open)).activity_id == Some(activity_id.0)
            &&& event_options(Some(open)).activity_id == Some(activity_id.0)
            &&& event_options(Some(open)).related_activity_id == Some(activity_id.0)
            &&& start_options(child, Some(open)).related_activity_id == Some(activity_id.0)
        }),
{
    lemma_recording_keeps_activity(span.opened(activity_id), batches);
}

/// What was last recorded for a field.
pub open spec fn last_recorded(records: Seq<Recorded>, field: Field) -> Option<Value>
    decreases records.len(),
{
    if records.len() == 0 {
        None
    } else if field.same(records.last().field) {
        Some(deferred_value(records.last().value))
    } else {
        last_recorded(records.drop_last(), field)
    }
}

/// Recording in batches is recording in one go.
proof fn lemma_updated_all_concat(
    values: Seq<(Field, Value)>,
    first: Seq<Recorded>,
    second: Seq<Recorded>,
)
    ensures
        updated_all(values, first + second) == updated_all(updated_all(values, first), second),
    decreases second.len(),
{
    if second.len() == 0 {
        assert(first + second =~= first);
    } else {
        assert((first + second).drop_last() =~= first + second.drop_last());
        lemma_updated_all_concat(values, first, second.drop_last());
    }
}

/// What a list of records leaves behind.
proof fn lemma_updated_all(values: Seq<(Field, Value)>, records: Seq<Recorded>, field: Field)
    ensures
        fields_distinct(values) ==> fields_distinct(updated_all(values, records)),
        value_of(updated_all(values, records), field) == (match last_recorded(records, field) {
            Some(value) => Some(value),
            None => value_of(values, field),
        }),
    decreases records.len(),
{
    if records.len() > 0 {
        let rest = records.drop_last();
        lemma_updated_all(values, rest, field);
        let before = updated_all(values, rest);
        let value = deferred_value(records.last().value);
        law_update_keeps_order(before, records.last().field, value);
        law_last_record_wins(before, records.last().field, value, field);
    }
}

/// A span on which batches of values were recorded holds, once it closes, each
/// field once, with the value that was last recorded for it, and no field that
/// was not recorded.
pub proof fn law_close_emits_last_values(
    span: SpanModel,
    batches: Seq<Seq<Recorded>>,
    field: Field,
)
    requires
        span.deferred is None,
        batches.len() > 0,
    ensures
        span.recorded_all(batches).deferred matches Some(values) && fields_distinct(values)
            && value_of(values, field) == last_recorded(batches.flatten(), field),
{
    lemma_recorded_all(span, batches);
    lemma_updated_all(Seq::empty(), batches.flatten(), field);
}

/// The last event of a span on which batches of values were recorded has one
/// field per field that was recorded, in the order in which they were first
/// recorded, each with the value that was last recorded for it.
pub proof fn law_close_fields_in_order(span: SpanModel, batches: Seq<Seq<Recorded>>)
    requires
        span.deferred is None,
    ensures
        ({
            let records = batches.flatten();
            let order = first_recorded(records);
            let fields = deferred_or_none(span.recorded_all(batches).deferred);
            &&& fields.len() == order.len()
            &&& forall|i: int|
                0 <= i < order.len() ==> (#[trigger] fields[i]).0 == order[i].name@
                    && last_recorded(records, order[i]) == Some(fields[i].1)
            &&& forall|i: int, j: int|
                0 <= i < j < order.len() ==> !(#[trigger] order[i]).same(#[trigger] order[j])
            &&& forall|k: int|
                0 <= k < records.len() ==> has_field(order, (#[trigger] records[k]).field)
        }),
{
    let records = batches.flatten();
    let order = first_recorded(records);
    let values = updated_all(Seq::empty(), records);
    law_first_recorded_order(records);
    if batches.len() > 0 {
        lemma_recorded_all(span, batches);
    } else {
        batches.lemma_flatten_and_flatten_alt_are_equivalent();
        assert(records =~= Seq::<Recorded>::empty());
        assert(deferred_fields(values) =~= Seq::empty());
    }
    let fields = deferred_or_none(span.recorded_all(batches).deferred);
    assert(fields == deferred_fields(values));
    assert forall|i: int| 0 <= i < order.len() implies (#[trigger] fields[i]).0 == order[i].name@
        && last_recorded(records, order[i]) == Some(fields[i].1) by {
        assert(values[i].0 == order[i]);
        lemma_value_beside(values, i);
        lemma_updated_all(Seq::empty(), records, order[i]);
    }
    assert forall|i: int, j: int| 0 <= i < j < order.len() implies !(#[trigger] order[i]).same(
        #[trigger] order[j],
    ) by {
        assert(values[i].0 == order[i] && values[j].0 == order[j]);
    }
}

/// What batches leave behind is what their records leave behind in one go.
proof fn lemma_recorded_all(span: SpanModel, batches: Seq<Seq<Recorded>>)
    requires
        span.deferred is None,
        batches.len() > 0,
    ensures
        span.recorded_all(batches).deferred == Some(
            updated_all(Seq::<(Field, Value)>::empty(), batches.flatten()),
        ),
    decreases batches.len(),
{
    let rest = batches.drop_last();
    let none = Seq::<(Field, Value)>::empty();
    batches.lemma_flatten_and_flatten_alt_are_equivalent();
    rest.lemma_flatten_and_flatten_alt_are_equivalent();
    assert(batches.flatten() == rest.flatten() + batches.last());
    if rest.len() > 0 {
        lemma_recorded_all(span, rest);
        lemma_updated_all_concat(none, rest.flatten(), batches.last());
    } else {
        assert(rest.flatten() =~= Seq::<Recorded>::empty());
        assert(rest.flatten() + batches.last() =~= batches.last());
    }
}

/// A text that an event carries can be read back from its bytes.
pub proof fn law_text_reads_back(text: Seq<char>)
    ensures
        cstring(text).last() == 0,
        decode_utf8(cstring(text).drop_last()) == text,
{
    assert(cstring(text).drop_last() =~= encode_utf8(text));
    encode_utf8_decode_utf8(text);
}

} // verus!
