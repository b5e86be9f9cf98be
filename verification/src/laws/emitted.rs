//! What holds of every event that a call returns, stated over its header, its
//! options and its pieces.

use crate::activity_id::{ActivityId, Guid};
use crate::deferred_values::deferred_fields;
use crate::event_writer::{resolve_name, FieldAlias, GlobalField, Payload};
use crate::field::{Field, Recorded, Value};
use crate::keyword::Level;
use crate::laws::layout::{
    are_fields, is_log_field, is_named, lemma_are_fields, lemma_is_log_field, lemma_is_named,
    lemma_told_fields, told_fields,
};
use crate::laws::settings::{is_header, lemma_is_header};
use crate::reading::{
    first_nul, global_values, kept, law_event_reads_back, lemma_read_text, read_fields, readable,
    renamed, without_nul,
};
use crate::subscriber::{
    counted_text_type, length16, DataDescriptor, Event, EventOptions, Metadata, Records, Settings, SpanState,
    TracelogSubscriber,
};
use crate::wire::{cstring, law_u16_le, u16_le};
use vstd::prelude::*;
use vstd::string::*;
use vstd::utf8::*;

verus! {

/// Stored values by name.
pub open spec fn told_stored(values: Seq<(Field, Value)>) -> Seq<(Seq<char>, Value)> {
    Seq::new(values.len(), |i: int| (values[i].0.name@, values[i].1))
}

/// What is to be said of the fields that a call is given.
pub open spec fn told_records(records: Records<'_>) -> Seq<(Seq<char>, Value)> {
    match records {
        Records::Fields(fields) => told_fields(fields@),
        Records::Deferred(Some(values)) => told_stored(values@),
        Records::Deferred(None) => Seq::empty(),
    }
}

/// The bytes of a piece that holds data.
pub open spec fn data_bytes(piece: DataDescriptor<'_>) -> Seq<u8> {
    match piece {
        DataDescriptor::Text(text) => encode_utf8(text@),
        DataDescriptor::Bytes(bytes) => bytes@,
        _ => Seq::empty(),
    }
}

/// The metadata of an event and the data of its fields.
pub open spec fn metadata_and_data(event: Event<'_>) -> (Seq<u8>, Seq<u8>) {
    (
        match event.data@[1] {
            DataDescriptor::EventMetadata(bytes) => bytes@,
            _ => Seq::empty(),
        },
        data_bytes(event.data@.last()),
    )
}

/// What the metadata says of the target, under the name that the aliases make of
/// it: a text whose length stands before it.
pub open spec fn is_target(aliases: Seq<FieldAlias>, write_target: bool, bytes: Seq<u8>) -> bool {
    let name = "target"@;
    if write_target {
        exists|out: Seq<char>| #[trigger]
            is_named(aliases, name, out) && bytes == encode_utf8(out) + seq![0u8, 0x97u8, 35u8]
    } else {
        bytes.len() == 0
    }
}

/// The metadata of an event begins with its length and says that there are no
/// extensions; then come the name, the target, the global fields and the
/// event's own fields. The data has the global fields and the own fields.
pub open spec fn is_payload(
    settings: Settings,
    write_target: bool,
    name: Seq<char>,
    fields: Seq<(Seq<char>, Value)>,
    metadata: Seq<u8>,
    data: Seq<u8>,
) -> bool {
    &&& metadata.len() >= 3
    &&& metadata[0] + 256 * metadata[1] == metadata.len() % 0x1_0000
    &&& metadata[2] == 0
    &&& exists|target: Seq<u8>, own: Payload|
        {
            &&& #[trigger] is_target(settings.aliases, write_target, target)
            &&& #[trigger] are_fields(
                settings.aliases,
                settings.tracing_log,
                fields,
                own.metadata,
                own.data,
            )
            &&& metadata.skip(3) == encode_utf8(name) + seq![0u8] + target
                + settings.globals.metadata + own.metadata
            &&& data == settings.globals.data + own.data
        }
}

/// An event with its header and its pieces: the provider metadata, the event
/// metadata, the target with its length before it if there is one, the data.
pub open spec fn is_event(
    settings: Settings,
    opcode: u8,
    write_target: bool,
    meta: Metadata<'_>,
    fields: Seq<(Seq<char>, Value)>,
    event: Event<'_>,
) -> bool {
    &&& is_header(settings, opcode, meta.level, event.descriptor)
    &&& event.data@.len() == if write_target {
        5int
    } else {
        3
    }
    &&& event.data@[0] matches DataDescriptor::ProviderMetadata(bytes) && bytes@
        == settings.provider_metadata
    &&& event.data@[1] is EventMetadata
    &&& event.data@.last() is Text || event.data@.last() is Bytes
    &&& write_target ==> {
        &&& event.data@[2] matches DataDescriptor::Count(n) && n == encode_utf8(
            meta.target@,
        ).len() % 0x1_0000
        &&& event.data@[3] is Text || event.data@[3] is Bytes
        &&& data_bytes(event.data@[3]) == encode_utf8(meta.target@)
    }
    &&& is_payload(
        settings,
        write_target,
        meta.name@,
        fields,
        metadata_and_data(event).0,
        metadata_and_data(event).1,
    )
}

/// Reads an event from its pieces: its name, and the fields behind its name and
/// its target. There is a target if there are five pieces.
pub open spec fn read_event(event: Event<'_>) -> Option<(Seq<char>, Seq<(Seq<char>, Value)>)> {
    let (metadata, data) = metadata_and_data(event);
    let named = metadata.skip(3);
    match read_fields(
        Payload { metadata: behind_name_and_target(named, event.data@.len() == 5), data },
    ) {
        Some(fields) => Some((decode_utf8(named.take(first_nul(named))), fields)),
        None => None,
    }
}

/// The metadata behind the name, and behind the name of the target and its two
/// type bytes if there is a target.
pub open spec fn behind_name_and_target(named: Seq<u8>, has_target: bool) -> Seq<u8> {
    let behind_name = named.skip(first_nul(named) + 1);
    if has_target {
        behind_name.skip(first_nul(behind_name) + 3)
    } else {
        behind_name
    }
}

/// A field that stays out, or whose name, as the aliases make it, and whose text
/// hold no NUL.
pub open spec fn is_plain(settings: Settings, name: Seq<char>, value: Value) -> bool {
    ||| is_log_field(settings.tracing_log, name)
    ||| {
        &&& forall|out: Seq<char>| #[trigger]
            is_named(settings.aliases, name, out) ==> without_nul(out)
        &&& value matches Value::Text(text) ==> without_nul(text)
    }
}

/// The names and texts that an event is made of hold no NUL.
pub open spec fn all_plain(
    settings: Settings,
    globals: Seq<GlobalField>,
    meta: Metadata<'_>,
    fields: Seq<(Seq<char>, Value)>,
) -> bool {
    let target = "target"@;
    &&& without_nul(meta.name@)
    &&& forall|out: Seq<char>| #[trigger]
        is_named(settings.aliases, target, out) ==> without_nul(out)
    &&& forall|i: int|
        0 <= i < globals.len() ==> without_nul((#[trigger] globals[i]).name@) && without_nul(
            globals[i].value@,
        )
    &&& forall|i: int|
        0 <= i < fields.len() ==> is_plain(settings, (#[trigger] fields[i]).0, fields[i].1)
}

/// The fields that do not stay out, in order.
pub open spec fn not_left_out(
    tracing_log: bool,
    fields: Seq<(Seq<char>, Value)>,
) -> Seq<(Seq<char>, Value)> {
    fields.filter(|field: (Seq<char>, Value)| !is_log_field(tracing_log, field.0))
}

/// What is read from an event is its name, the global fields, and then each field
/// that does not stay out, under the name that the aliases make of its own and
/// with its value.
pub open spec fn reads_as(
    settings: Settings,
    globals: Seq<GlobalField>,
    meta: Metadata<'_>,
    fields: Seq<(Seq<char>, Value)>,
    event: Event<'_>,
) -> bool {
    let own = not_left_out(settings.tracing_log, fields);
    &&& read_event(event) matches Some((name, read)) && {
        &&& name == meta.name@
        &&& read.len() == globals.len() + own.len()
        &&& forall|i: int|
            0 <= i < globals.len() ==> #[trigger] read[i] == (
                globals[i].name@,
                Value::Text(globals[i].value@),
            )
        &&& forall|i: int|
            0 <= i < own.len() ==> is_named(
                settings.aliases,
                (#[trigger] own[i]).0,
                read[globals.len() + i].0,
            ) && read[globals.len() + i].1 == own[i].1
    }
}

/// From an event by its contents to its pieces.
proof fn lemma_pieces(
    settings: Settings,
    opcode: u8,
    options: EventOptions,
    write_target: bool,
    meta: Metadata<'_>,
    fields: Seq<(Seq<char>, Value)>,
    event: Event<'_>,
)
    requires
        event@ == settings.event(opcode, options, write_target, meta, fields),
    ensures
        event.options == options,
        event.descriptor == settings.descriptor(opcode, meta.level),
        event.data@.len() == if write_target {
            5int
        } else {
            3
        },
        event.data@[0] matches DataDescriptor::ProviderMetadata(bytes) && bytes@
            == settings.provider_metadata,
        event.data@[1] is EventMetadata,
        event.data@.last() is Text || event.data@.last() is Bytes,
        write_target ==> {
            &&& event.data@[2] matches DataDescriptor::Count(n) && n == length16(
                encode_utf8(meta.target@).len(),
            )
            &&& event.data@[3] is Text || event.data@[3] is Bytes
            &&& data_bytes(event.data@[3]) == encode_utf8(meta.target@)
        },
        metadata_and_data(event).0 == settings.event_metadata(write_target, meta.name@, fields),
        metadata_and_data(event).1 == settings.event_data(fields),
{
    let blocks = settings.blocks(write_target, meta.name@, meta.target@, fields);
    let data = event.data@;
    assert(event@.blocks == blocks);
    assert(data.len() == blocks.len());
    assert(forall|i: int| 0 <= i < data.len() ==> (#[trigger] data[i])@ == event@.blocks[i]);
    assert(data[0]@ == blocks[0]);
    assert(data[1]@ == blocks[1]);
    assert(data[2]@ == blocks[2]);
    if write_target {
        assert(data[3]@ == blocks[3]);
        assert(data[4]@ == blocks[4]);
    }
}

/// What [`is_event`] says, from the contents of the event.
proof fn lemma_is_event(
    settings: Settings,
    opcode: u8,
    options: EventOptions,
    write_target: bool,
    meta: Metadata<'_>,
    fields: Seq<(Seq<char>, Value)>,
    event: Event<'_>,
)
    requires
        event@ == settings.event(opcode, options, write_target, meta, fields),
    ensures
        is_event(settings, opcode, write_target, meta, fields, event),
        event.options == options,
{
    lemma_pieces(settings, opcode, options, write_target, meta, fields, event);
    lemma_is_header(settings, opcode, meta.level);
    lemma_is_named(settings.aliases, "target"@);
    lemma_are_fields(settings.naming(), fields);
    let own = settings.naming().fields(fields);
    let target = settings.target_field(write_target);
    let (metadata, data) = metadata_and_data(event);
    let body = settings.metadata_body(write_target, meta.name@, fields);
    law_u16_le(length16(body.len() + 2));
    assert(metadata == u16_le(length16(body.len() + 2)) + body);
    if write_target {
        let out = resolve_name(settings.aliases, "target"@);
        assert(target =~= encode_utf8(out) + seq![0u8, 0x97u8, 35u8]);
    }
    assert(is_target(settings.aliases, write_target, target));
    assert(metadata.skip(3) =~= encode_utf8(meta.name@) + seq![0u8] + target
        + settings.globals.metadata + own.metadata);
}

/// The reader gets past the name and the target.
proof fn lemma_behind(
    settings: Settings,
    write_target: bool,
    name: Seq<char>,
    fields: Seq<(Seq<char>, Value)>,
)
    requires
        without_nul(name),
        without_nul(resolve_name(settings.aliases, "target"@)),
    ensures
        ({
            let metadata = settings.event_metadata(write_target, name, fields);
            let at = 3 + cstring(name).len() + settings.target_field(write_target).len();
            behind_name_and_target(metadata.skip(3), write_target) == metadata.skip(at as int)
        }),
{
    let metadata = settings.event_metadata(write_target, name, fields);
    let target = settings.target_field(write_target);
    let fields_part = settings.globals.metadata + settings.naming().fields(fields).metadata;
    let rest = target + fields_part;
    let named = metadata.skip(3);
    let at = 3 + cstring(name).len() + target.len();
    assert(named =~= cstring(name) + rest);
    lemma_read_text(name, rest);
    let behind_name = named.skip(first_nul(named) + 1);
    assert(behind_name == rest);
    assert(metadata.skip(at as int) =~= fields_part);
    if write_target {
        let out = resolve_name(settings.aliases, "target"@);
        let tail = counted_text_type() + fields_part;
        assert(behind_name =~= cstring(out) + tail);
        lemma_read_text(out, tail);
        assert(behind_name.skip(first_nul(behind_name) + 3) =~= fields_part);
    } else {
        assert(behind_name =~= fields_part);
    }
}

/// What [`reads_as`] says, from the contents of the event.
proof fn lemma_reads_as(
    settings: Settings,
    globals: Seq<GlobalField>,
    opcode: u8,
    options: EventOptions,
    write_target: bool,
    meta: Metadata<'_>,
    fields: Seq<(Seq<char>, Value)>,
    event: Event<'_>,
)
    requires
        event@ == settings.event(opcode, options, write_target, meta, fields),
        settings.globals == crate::event_writer::globals_payload(globals),
        all_plain(settings, globals, meta, fields),
    ensures
        reads_as(settings, globals, meta, fields, event),
{
    lemma_pieces(settings, opcode, options, write_target, meta, fields, event);
    let naming = settings.naming();
    assert forall|i: int| 0 <= i < fields.len() && !naming.skips(
        (#[trigger] fields[i]).0,
    ) implies readable(naming, fields[i].0, fields[i].1) by {
        lemma_is_log_field(naming, fields[i].0);
        lemma_is_named(settings.aliases, fields[i].0);
    }
    law_event_reads_back(settings, globals, write_target, meta.name@, fields);

    lemma_is_named(settings.aliases, "target"@);
    lemma_behind(settings, write_target, meta.name@, fields);
    let own = not_left_out(settings.tracing_log, fields);
    lemma_same_kept(settings, fields);
    let read = global_values(globals) + renamed(naming, own);
    assert(read_event(event) == Some((meta.name@, read)));
    assert forall|i: int| 0 <= i < own.len() implies is_named(
        settings.aliases,
        (#[trigger] own[i]).0,
        read[globals.len() + i].0,
    ) && read[globals.len() + i].1 == own[i].1 by {
        lemma_is_named(settings.aliases, own[i].0);
        assert(read[globals.len() + i] == renamed(naming, own)[i]);
    }
}

proof fn lemma_same_kept(settings: Settings, fields: Seq<(Seq<char>, Value)>)
    ensures
        kept(settings.naming(), fields) == not_left_out(settings.tracing_log, fields),
    decreases fields.len(),
{
    reveal(Seq::filter);
    if fields.len() > 0 {
        lemma_same_kept(settings, fields.drop_last());
        lemma_is_log_field(settings.naming(), fields.last().0);
    }
}

proof fn lemma_told_records(records: Records<'_>)
    ensures
        records@ == told_records(records),
{
    match records {
        Records::Fields(fields) => {
            lemma_told_fields(fields@);
        },
        Records::Deferred(Some(values)) => {
            assert(deferred_fields(values@) =~= told_stored(values@));
        },
        Records::Deferred(None) => {},
    }
}

/// Whatever the level and the opcode: an event is written exactly if it is
/// wanted, is tied to what it is told to be tied to, and has all its pieces, with
/// every field it was given.
pub proof fn law_write_event<'a>(
    t: &'a TracelogSubscriber,
    opcode: u8,
    options: EventOptions,
    write_target: bool,
    meta: Metadata<'a>,
    records: &Records<'_>,
    enabled: bool,
    r: Option<Event<'a>>,
)
    requires
        call_ensures(
            TracelogSubscriber::write_event,
            (t, opcode, options, write_target, meta, records, enabled),
            r,
        ),
    ensures
        r is Some <==> enabled,
        r matches Some(event) ==> event.options == options && is_event(
            t@,
            opcode,
            write_target,
            meta,
            told_records(*records),
            event,
        ),
{
    lemma_told_records(*records);
    if let Some(event) = r {
        lemma_is_event(t@, opcode, options, write_target, meta, told_records(*records), event);
    }
}

/// Whatever the level and the opcode, a written event is read back as its name,
/// the global fields that were set, and the fields that were given.
pub proof fn law_written_event_reads_back<'a>(
    t: &'a TracelogSubscriber,
    opcode: u8,
    options: EventOptions,
    write_target: bool,
    meta: Metadata<'a>,
    records: &Records<'_>,
    r: Option<Event<'a>>,
    set: &mut TracelogSubscriber,
    globals: &[GlobalField],
)
    requires
        call_ensures(
            TracelogSubscriber::write_event,
            (t, opcode, options, write_target, meta, records, true),
            r,
        ),
        call_ensures(TracelogSubscriber::set_global_fields, (set, globals), ()),
        t@.globals == final(set)@.globals,
        all_plain(t@, globals@, meta, told_records(*records)),
    ensures
        r matches Some(event) && reads_as(t@, globals@, meta, told_records(*records), event),
{
    lemma_told_records(*records);
    let event = r.unwrap();
    lemma_reads_as(
        t@,
        globals@,
        opcode,
        options,
        write_target,
        meta,
        told_records(*records),
        event,
    );
}

/// The GUID of the activity of a span, if there is a span and it has one.
pub open spec fn activity_of(span: Option<&SpanState>) -> Option<Guid> {
    match span {
        Some(state) => match state.activity_id {
            Some(id) => Some(id.0),
            None => None,
        },
        None => None,
    }
}

/// A new span has its activity ID from then on, and what was deferred on it
/// stays. Its first event is tied to its own activity and to that of the span it
/// was opened under, has a target, and has all the span's fields.
pub proof fn law_on_new_span<'a>(
    t: &'a TracelogSubscriber,
    meta: Metadata<'a>,
    fields: &[Recorded],
    activity_id: ActivityId,
    parent: Option<&SpanState>,
    span: &mut SpanState,
    enabled: bool,
    r: Option<Event<'a>>,
)
    requires
        old(span).activity_id is None,
        call_ensures(
            TracelogSubscriber::on_new_span,
            (t, meta, fields, activity_id, parent, span, enabled),
            r,
        ),
    ensures
        final(span).activity_id == Some(activity_id),
        final(span).deferred is Some <==> old(span).deferred is Some,
        final(span).deferred matches Some(values) ==> values@ == old(span).deferred.unwrap()@,
        r is Some <==> enabled,
        r matches Some(event) ==> {
            &&& is_event(t@, 1, true, meta, told_fields(fields@), event)
            &&& event.options.level is None
            &&& event.options.activity_id == Some(activity_id.0)
            &&& event.options.related_activity_id == activity_of(parent)
        },
{
    lemma_told_fields(fields@);
    assert(final(span)@ == old(span)@.opened(activity_id));
    assert(final(span)@.deferred == old(span)@.deferred);
    if let Some(event) = r {
        lemma_is_event(t@, 1, event.options, true, meta, told_fields(fields@), event);
    }
}

/// The first event of a span is read back as its name, the global fields that
/// were set, and the span's fields.
pub proof fn law_new_span_reads_back<'a>(
    t: &'a TracelogSubscriber,
    meta: Metadata<'a>,
    fields: &[Recorded],
    activity_id: ActivityId,
    parent: Option<&SpanState>,
    span: &mut SpanState,
    r: Option<Event<'a>>,
    set: &mut TracelogSubscriber,
    globals: &[GlobalField],
)
    requires
        old(span).activity_id is None,
        call_ensures(
            TracelogSubscriber::on_new_span,
            (t, meta, fields, activity_id, parent, span, true),
            r,
        ),
        call_ensures(TracelogSubscriber::set_global_fields, (set, globals), ()),
        t@.globals == final(set)@.globals,
        all_plain(t@, globals@, meta, told_fields(fields@)),
    ensures
        r matches Some(event) && reads_as(t@, globals@, meta, told_fields(fields@), event),
{
    lemma_told_fields(fields@);
    let event = r.unwrap();
    lemma_reads_as(t@, globals@, 1, event.options, true, meta, told_fields(fields@), event);
}

/// An event is tied to the activity of the span it happened in, which is its
/// related activity too, has a target, and has all its fields, whatever its
/// level.
pub proof fn law_on_event<'a>(
    t: &'a TracelogSubscriber,
    meta: Metadata<'a>,
    fields: &[Recorded],
    span: Option<&SpanState>,
    enabled: bool,
    r: Option<Event<'a>>,
)
    requires
        call_ensures(TracelogSubscriber::on_event, (t, meta, fields, span, enabled), r),
    ensures
        r is Some <==> enabled,
        r matches Some(event) ==> {
            &&& is_event(t@, 0, true, meta, told_fields(fields@), event)
            &&& event.options.level is None
            &&& event.options.activity_id == activity_of(span)
            &&& event.options.related_activity_id == activity_of(span)
        },
{
    lemma_told_fields(fields@);
    if let Some(event) = r {
        lemma_is_event(t@, 0, event.options, true, meta, told_fields(fields@), event);
    }
}

/// An event is read back as its name, the global fields that were set, and its
/// fields, whatever its level.
pub proof fn law_event_call_reads_back<'a>(
    t: &'a TracelogSubscriber,
    meta: Metadata<'a>,
    fields: &[Recorded],
    span: Option<&SpanState>,
    r: Option<Event<'a>>,
    set: &mut TracelogSubscriber,
    globals: &[GlobalField],
)
    requires
        call_ensures(TracelogSubscriber::on_event, (t, meta, fields, span, true), r),
        call_ensures(TracelogSubscriber::set_global_fields, (set, globals), ()),
        t@.globals == final(set)@.globals,
        all_plain(t@, globals@, meta, told_fields(fields@)),
    ensures
        r matches Some(event) && reads_as(t@, globals@, meta, told_fields(fields@), event),
{
    lemma_told_fields(fields@);
    let event = r.unwrap();
    lemma_reads_as(t@, globals@, 0, event.options, true, meta, told_fields(fields@), event);
}

/// What was deferred on a span.
pub open spec fn told_deferred(span: SpanState) -> Seq<(Seq<char>, Value)> {
    match span.deferred {
        Some(values) => told_stored(values@),
        None => Seq::empty(),
    }
}

proof fn lemma_told_deferred(span: SpanState)
    ensures
        crate::subscriber::deferred_or_none(span@.deferred) == told_deferred(span),
{
    if let Some(values) = span.deferred {
        assert(deferred_fields(values@) =~= told_stored(values@));
    }
}

/// The last event of a span is tied to the span's activity, has no target, and
/// has all that was deferred on the span.
pub proof fn law_on_close<'a>(
    t: &'a TracelogSubscriber,
    meta: Metadata<'a>,
    span: &SpanState,
    enabled: bool,
    r: Option<Event<'a>>,
)
    requires
        span.activity_id is Some,
        call_ensures(TracelogSubscriber::on_close, (t, meta, span, enabled), r),
    ensures
        r is Some <==> enabled,
        r matches Some(event) ==> {
            &&& is_event(t@, 2, false, meta, told_deferred(*span), event)
            &&& event.options.level is None
            &&& event.options.activity_id == activity_of(Some(span))
            &&& event.options.related_activity_id is None
        },
{
    lemma_told_deferred(*span);
    if let Some(event) = r {
        lemma_is_event(t@, 2, event.options, false, meta, told_deferred(*span), event);
    }
}

/// The last event of a span is read back as its name, the global fields that
/// were set, and what was deferred on the span.
pub proof fn law_close_reads_back<'a>(
    t: &'a TracelogSubscriber,
    meta: Metadata<'a>,
    span: &SpanState,
    r: Option<Event<'a>>,
    set: &mut TracelogSubscriber,
    globals: &[GlobalField],
)
    requires
        span.activity_id is Some,
        call_ensures(TracelogSubscriber::on_close, (t, meta, span, true), r),
        call_ensures(TracelogSubscriber::set_global_fields, (set, globals), ()),
        t@.globals == final(set)@.globals,
        all_plain(t@, globals@, meta, told_deferred(*span)),
    ensures
        r matches Some(event) && reads_as(t@, globals@, meta, told_deferred(*span), event),
{
    lemma_told_deferred(*span);
    let event = r.unwrap();
    lemma_reads_as(t@, globals@, 2, event.options, false, meta, told_deferred(*span), event);
}

/// The level of an event decides its header and nothing else: two events that
/// differ in their level alone have the same pieces.
pub proof fn law_level_leaves_pieces<'a>(
    t: &'a TracelogSubscriber,
    meta: Metadata<'a>,
    level: Level,
    fields: &[Recorded],
    span: Option<&SpanState>,
    one: Option<Event<'a>>,
    two: Option<Event<'a>>,
)
    requires
        call_ensures(TracelogSubscriber::on_event, (t, meta, fields, span, true), one),
        call_ensures(
            TracelogSubscriber::on_event,
            (t, (Metadata { level, ..meta }), fields, span, true),
            two,
        ),
    ensures
        one matches Some(a) && two matches Some(b) && {
            &&& a.options == b.options
            &&& a.data@.len() == b.data@.len()
            &&& metadata_and_data(a) == metadata_and_data(b)
        },
{
    let a = one.unwrap();
    let b = two.unwrap();
    let other = Metadata { level, ..meta };
    let told = crate::field::names_and_values(fields@);
    lemma_pieces(t@, 0, a.options, true, meta, told, a);
    lemma_pieces(t@, 0, b.options, true, other, told, b);
}

/// Where the parent is left to the context, it is the span that the thread is
/// in; otherwise the context makes no difference.
pub proof fn law_parent_span(
    current: Option<u64>,
    parent: Option<u64>,
    a: Option<u64>,
    b: Option<u64>,
)
    requires
        call_ensures(crate::subscriber::parent_span, (true, current, parent), a),
        call_ensures(crate::subscriber::parent_span, (false, current, parent), b),
    ensures
        a == current,
        b == parent,
{
}

/// The callsite of a `log` record takes the place of the event's own with the
/// bridge, and only then.
pub proof fn law_event_callsite<'a>(
    log: Metadata<'a>,
    own: Metadata<'a>,
    tracing_log: bool,
    bridged: Metadata<'a>,
    unbridged: Metadata<'a>,
    without: Metadata<'a>,
)
    requires
        call_ensures(crate::subscriber::event_callsite, (true, Some(log), own), bridged),
        call_ensures(crate::subscriber::event_callsite, (false, Some(log), own), unbridged),
        call_ensures(crate::subscriber::event_callsite, (tracing_log, None, own), without),
    ensures
        bridged == log,
        unbridged == own,
        without == own,
{
}

} // verus!
